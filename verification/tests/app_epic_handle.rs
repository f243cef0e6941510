use free_games_notifier::delivery::{handle, Delivery, NotifyTarget};
use free_games_notifier::epic::{
    Catalog, CatalogNs, Category, DiscountSetting, EpicData, EpicResponse, Mapping, Offer,
    OfferType, Price, PromotionalOfferBlock, Promotion, Promotions, SearchStore, TotalPrice,
};
use free_games_notifier::notifier::CaptureNotifier;
use free_games_notifier::store::ExistingOffer;
use free_games_notifier::time::{parse_utc, UtcTime};
use std::collections::HashSet;

fn at(s: &str) -> UtcTime {
    parse_utc(s).unwrap()
}

fn promo(start: &str, end: &str, pct: Option<i64>) -> Promotion {
    Promotion {
        start_date: start.to_string(),
        end_date: end.to_string(),
        discount_setting: DiscountSetting { discount_percentage: pct },
    }
}

fn element(
    id: &str,
    title: &str,
    price: i64,
    slug: Option<&str>,
    page_slugs: Option<Vec<Option<&str>>>,
    categories: Vec<&str>,
    offer_type: Option<OfferType>,
    blocks: Option<Vec<Vec<Promotion>>>,
) -> Offer {
    Offer {
        id: id.to_string(),
        title: title.to_string(),
        price: Price { total_price: TotalPrice { discount_price: price } },
        product_slug: slug.map(|s| s.to_string()),
        catalog_ns: Some(CatalogNs {
            mappings: page_slugs.map(|v| {
                v.into_iter()
                    .map(|p| Mapping { page_slug: p.map(|s| s.to_string()) })
                    .collect()
            }),
        }),
        categories: Some(
            categories
                .into_iter()
                .map(|c| Category { path: c.to_string() })
                .collect(),
        ),
        offer_type,
        promotions: blocks.map(|bs| Promotions {
            promotional_offers: bs
                .into_iter()
                .map(|ps| PromotionalOfferBlock { promotional_offers: ps })
                .collect(),
        }),
    }
}

fn response(elements: Vec<Offer>) -> EpicResponse {
    EpicResponse {
        data: EpicData { catalog: Catalog { search_store: SearchStore { elements } } },
    }
}

/// A feed with one game free this week, one free next week and one that is
/// merely discounted.
fn single_promo() -> EpicResponse {
    response(vec![
        element(
            "blood-west-id",
            "Blood West",
            0,
            Some("blood-west-8f6ffd"),
            None,
            vec!["games", "games/edition/base"],
            Some(OfferType::BaseGame),
            Some(vec![vec![promo(
                "2025-12-18T16:00:00.000Z",
                "2025-12-21T16:00:00.000Z",
                Some(0),
            )]]),
        ),
        element(
            "next-week-id",
            "Next Week Game",
            1999,
            Some("next-week-game"),
            None,
            vec!["games"],
            Some(OfferType::BaseGame),
            Some(vec![
                vec![],
                vec![promo("2025-12-21T16:00:00.000Z", "2025-12-28T16:00:00.000Z", Some(0))],
            ]),
        ),
        element(
            "discounted-id",
            "Discounted Game",
            0,
            Some("discounted-game"),
            None,
            vec!["games"],
            Some(OfferType::BaseGame),
            Some(vec![vec![promo(
                "2025-12-18T16:00:00.000Z",
                "2025-12-21T16:00:00.000Z",
                Some(50),
            )]]),
        ),
    ])
}

fn multiple_promo() -> EpicResponse {
    response(vec![
        element(
            "wildgate-id",
            "Wildgate",
            0,
            Some("wildgate-standard-edition-b886b5"),
            None,
            vec!["games"],
            Some(OfferType::BaseGame),
            Some(vec![vec![promo(
                "2026-01-01T16:00:00.000Z",
                "2026-01-08T16:00:00.000Z",
                Some(0),
            )]]),
        ),
        element(
            "three-kingdoms-id",
            "Total War: THREE KINGDOMS",
            0,
            Some("total-war-three-kingdoms-d3bb7a"),
            None,
            vec!["games"],
            Some(OfferType::BaseGame),
            Some(vec![vec![promo(
                "2026-01-01T16:00:00.000Z",
                "2026-01-08T16:00:00.000Z",
                Some(0),
            )]]),
        ),
        element(
            "mystery-id",
            "Mystery Game",
            0,
            None,
            Some(vec![]),
            vec!["games"],
            Some(OfferType::BaseGame),
            None,
        ),
    ])
}

fn capture_targets(ids: &[&str]) -> Vec<NotifyTarget<CaptureNotifier>> {
    ids.iter()
        .map(|id| NotifyTarget { id: id.to_string(), notifier: CaptureNotifier::new() })
        .collect()
}

/// Carries out the deliveries as the application does: send, then record.
fn deliver(
    deliveries: &[Delivery],
    targets: &mut [NotifyTarget<CaptureNotifier>],
    store: &mut Vec<ExistingOffer>,
) {
    for d in deliveries {
        targets[d.target_index].notifier.notify(&d.message);
        store.push(d.record());
    }
}

fn run(
    now: &str,
    feed: &EpicResponse,
    store: &mut Vec<ExistingOffer>,
    ids: &[&str],
) -> Vec<NotifyTarget<CaptureNotifier>> {
    let mut targets = capture_targets(ids);
    let deliveries = handle(at(now), feed, store, &targets);
    deliver(&deliveries, &mut targets, store);
    targets
}

fn message_set(n: &CaptureNotifier) -> HashSet<String> {
    n.get_messages().into_iter().collect()
}

fn expected(items: &[&str]) -> HashSet<String> {
    items.iter().map(|s| s.to_string()).collect()
}

#[test]
fn test_epic_handle_single_promo() {
    let mut store = Vec::new();
    let targets = run("2025-12-20T16:15:00.000Z", &single_promo(), &mut store, &["default"]);
    assert_eq!(
        message_set(&targets[0].notifier),
        expected(&["**Blood West** is now free on EGS! Ends <t:1766332800:R>\nhttps://www.epicgames.com/store/en-US/p/blood-west-8f6ffd"])
    );
}

#[test]
fn test_epic_handle_bundle_promo() {
    let feed = response(vec![element(
        "trine-id",
        "Trine Classic Collection",
        0,
        Some("trine-classic-collection"),
        None,
        vec!["bundles", "games"],
        Some(OfferType::Bundle),
        Some(vec![vec![promo(
            "2025-12-30T16:00:00.000Z",
            "2025-12-31T16:00:00.000Z",
            Some(0),
        )]]),
    )]);
    let mut store = Vec::new();
    let targets = run("2025-12-30T16:00:00.000Z", &feed, &mut store, &["default"]);
    assert_eq!(
        message_set(&targets[0].notifier),
        expected(&["**Trine Classic Collection** is now free on EGS! Ends <t:1767196800:R>\nhttps://store.epicgames.com/en-US/bundles/trine-classic-collection"])
    );
}

#[test]
fn test_epic_handle_multiple_promo() {
    let mut store = Vec::new();
    let targets = run("2026-01-01T16:15:00.000Z", &multiple_promo(), &mut store, &["default"]);
    assert_eq!(
        message_set(&targets[0].notifier),
        expected(&[
            "**Wildgate** is now free on EGS! Ends <t:1767888000:R>\n\
             https://www.epicgames.com/store/en-US/p/wildgate-standard-edition-b886b5",
            "**Total War: THREE KINGDOMS** is now free on EGS! Ends <t:1767888000:R>\n\
             https://www.epicgames.com/store/en-US/p/total-war-three-kingdoms-d3bb7a",
        ])
    );
}

#[test]
fn test_epic_handle_multiple_promo_same_multi_run() {
    let feed = multiple_promo();
    let mut store = Vec::new();
    let first = run("2026-01-01T16:15:00.000Z", &feed, &mut store, &["default"]);
    assert_eq!(
        first[0].notifier.get_messages().len(),
        2,
        "sanity check: first run should emit"
    );
    let second = run("2026-01-01T16:15:00.000Z", &feed, &mut store, &["default"]);
    assert!(
        second[0].notifier.get_messages().is_empty(),
        "expected no notifications on second run; got {:?}",
        second[0].notifier.get_messages()
    );
}

#[test]
fn test_epic_handle_null_surface_product_slug() {
    let feed = response(vec![element(
        "bloons-id",
        "Bloons TD 6",
        0,
        None,
        Some(vec![None, Some("bloons-td-6-bf95a0")]),
        vec!["games"],
        Some(OfferType::BaseGame),
        Some(vec![vec![promo(
            "2026-01-08T16:00:00.000Z",
            "2026-01-15T16:00:00.000Z",
            Some(0),
        )]]),
    )]);
    let mut store = Vec::new();
    let targets = run("2026-01-11T16:15:00.000Z", &feed, &mut store, &["default"]);
    assert_eq!(
        message_set(&targets[0].notifier),
        expected(&["**Bloons TD 6** is now free on EGS! Ends <t:1768492800:R>\nhttps://www.epicgames.com/store/en-US/p/bloons-td-6-bf95a0"])
    );
}

#[test]
fn test_epic_handle_tracks_sent_state_per_target() {
    let feed = single_promo();
    let now = "2025-12-20T16:15:00.000Z";
    let mut store = Vec::new();
    let first = run(now, &feed, &mut store, &["friends", "work"]);
    assert_eq!(first[0].notifier.get_messages().len(), 1);
    assert_eq!(first[1].notifier.get_messages().len(), 1);

    let retry = run(now, &feed, &mut store, &["friends", "work"]);
    assert!(retry[0].notifier.get_messages().is_empty());
    assert!(retry[1].notifier.get_messages().is_empty());

    let new_target = run(now, &feed, &mut store, &["new-server"]);
    assert_eq!(new_target[0].notifier.get_messages().len(), 1);
}

#[test]
fn handle_orders_deliveries_offer_major() {
    let mut store = Vec::new();
    let targets = capture_targets(&["a", "b"]);
    let deliveries = handle(at("2026-01-01T16:15:00.000Z"), &multiple_promo(), &store, &targets);
    let order: Vec<(usize, usize)> =
        deliveries.iter().map(|d| (d.offer_index, d.target_index)).collect();
    assert_eq!(order, vec![(0, 0), (0, 1), (1, 0), (1, 1)]);
    assert_eq!(deliveries[1].target_id, "b");
    assert_eq!(deliveries[1].offer_id, "wildgate-id");
    assert_eq!(deliveries[1].source, "EGS");
    assert_eq!(deliveries[1].ends_at, 1767888000);
    store.push(deliveries[0].record());
    let again = handle(at("2026-01-01T16:15:00.000Z"), &multiple_promo(), &store, &targets);
    assert_eq!(again.len(), 3);
}

#[test]
fn handle_skips_repeated_target_ids_and_other_sources() {
    let store = vec![
        ExistingOffer {
            target_id: "a".to_string(),
            id: "wildgate-id".to_string(),
            source: "OTHER".to_string(),
            ends_at: 0,
        },
        ExistingOffer {
            target_id: "a".to_string(),
            id: "three-kingdoms-id".to_string(),
            source: "EGS".to_string(),
            ends_at: 0,
        },
    ];
    let targets = capture_targets(&["a", "a"]);
    let deliveries = handle(at("2026-01-01T16:15:00.000Z"), &multiple_promo(), &store, &targets);
    assert_eq!(deliveries.len(), 1);
    assert_eq!(deliveries[0].offer_id, "wildgate-id");
    assert_eq!(deliveries[0].target_index, 0);
}

#[test]
fn handle_with_no_targets_delivers_nothing() {
    let targets = capture_targets(&[]);
    let deliveries = handle(at("2026-01-01T16:15:00.000Z"), &multiple_promo(), &Vec::new(), &targets);
    assert!(deliveries.is_empty());
}

#[test]
fn rerun_to_a_subset_of_targets_is_silent() {
    let feed = multiple_promo();
    let now = "2026-01-01T16:15:00.000Z";
    let mut store = Vec::new();
    let first = run(now, &feed, &mut store, &["a", "b", "c"]);
    assert_eq!(first[2].notifier.get_messages().len(), 2);
    let again = run(now, &feed, &mut store, &["c", "a", "c"]);
    for t in &again {
        assert!(t.notifier.get_messages().is_empty());
    }
}

#[test]
fn more_known_ids_only_remove_offers() {
    let feed = multiple_promo();
    let now = at("2026-01-01T16:15:00.000Z");
    let all = free_games_notifier::offers::get_free_offers(&feed, now, &vec![]);
    let fewer = free_games_notifier::offers::get_free_offers(
        &feed,
        now,
        &vec!["wildgate-id".to_string(), "unrelated".to_string()],
    );
    assert_eq!(all.len(), 2);
    assert_eq!(fewer.len(), 1);
    assert_eq!(fewer[0].id, all[1].id);
}
