use free_games_notifier::delivery::handle_epic;
use free_games_notifier::epic::{
    Catalog, CatalogNs, Category, DiscountSetting, EpicData, EpicResponse, Mapping, Offer,
    OfferType, Price, PromotionalOfferBlock, Promotion, Promotions, SearchStore, TotalPrice,
};
use free_games_notifier::store::ExistingOffer;
use free_games_notifier::time::{parse_utc, UtcTime};
use std::collections::HashSet;

fn at(s: &str) -> UtcTime {
    parse_utc(s).unwrap()
}

fn promo(start: &str, end: &str, pct: Option<i64>) -> Promotion {
    Promotion {
        start_date: start.to_string(),
        end_date: end.to_string(),
        discount_setting: DiscountSetting { discount_percentage: pct },
    }
}

fn element(
    id: &str,
    title: &str,
    price: i64,
    slug: Option<&str>,
    page_slugs: Option<Vec<Option<&str>>>,
    categories: Vec<&str>,
    offer_type: Option<OfferType>,
    blocks: Option<Vec<Vec<Promotion>>>,
) -> Offer {
    Offer {
        id: id.to_string(),
        title: title.to_string(),
        price: Price { total_price: TotalPrice { discount_price: price } },
        product_slug: slug.map(|s| s.to_string()),
        catalog_ns: Some(CatalogNs {
            mappings: page_slugs.map(|v| {
                v.into_iter()
                    .map(|p| Mapping { page_slug: p.map(|s| s.to_string()) })
                    .collect()
            }),
        }),
        categories: Some(
            categories
                .into_iter()
                .map(|c| Category { path: c.to_string() })
                .collect(),
        ),
        offer_type,
        promotions: blocks.map(|bs| Promotions {
            promotional_offers: bs
                .into_iter()
                .map(|ps| PromotionalOfferBlock { promotional_offers: ps })
                .collect(),
        }),
    }
}

fn response(elements: Vec<Offer>) -> EpicResponse {
    EpicResponse {
        data: EpicData { catalog: Catalog { search_store: SearchStore { elements } } },
    }
}

/// A feed with one game free this week, one free next week and one that is
/// merely discounted.
fn single_promo() -> EpicResponse {
    response(vec![
        element(
            "blood-west-id",
            "Blood West",
            0,
            Some("blood-west-8f6ffd"),
            None,
            vec!["games", "games/edition/base"],
            Some(OfferType::BaseGame),
            Some(vec![vec![promo(
                "2025-12-18T16:00:00.000Z",
                "2025-12-21T16:00:00.000Z",
                Some(0),
            )]]),
        ),
        element(
            "next-week-id",
            "Next Week Game",
            1999,
            Some("next-week-game"),
            None,
            vec!["games"],
            Some(OfferType::BaseGame),
            Some(vec![
                vec![],
                vec![promo("2025-12-21T16:00:00.000Z", "2025-12-28T16:00:00.000Z", Some(0))],
            ]),
        ),
        element(
            "discounted-id",
            "Discounted Game",
            0,
            Some("discounted-game"),
            None,
            vec!["games"],
            Some(OfferType::BaseGame),
            Some(vec![vec![promo(
                "2025-12-18T16:00:00.000Z",
                "2025-12-21T16:00:00.000Z",
                Some(50),
            )]]),
        ),
    ])
}

fn multiple_promo() -> EpicResponse {
    response(vec![
        element(
            "wildgate-id",
            "Wildgate",
            0,
            Some("wildgate-standard-edition-b886b5"),
            None,
            vec!["games"],
            Some(OfferType::BaseGame),
            Some(vec![vec![promo(
                "2026-01-01T16:00:00.000Z",
                "2026-01-08T16:00:00.000Z",
                Some(0),
            )]]),
        ),
        element(
            "three-kingdoms-id",
            "Total War: THREE KINGDOMS",
            0,
            Some("total-war-three-kingdoms-d3bb7a"),
            None,
            vec!["games"],
            Some(OfferType::BaseGame),
            Some(vec![vec![promo(
                "2026-01-01T16:00:00.000Z",
                "2026-01-08T16:00:00.000Z",
                Some(0),
            )]]),
        ),
        element(
            "mystery-id",
            "Mystery Game",
            0,
            None,
            Some(vec![]),
            vec!["games"],
            Some(OfferType::BaseGame),
            None,
        ),
    ])
}

fn notices(now: &str, feed: &EpicResponse, store: &mut Vec<ExistingOffer>) -> HashSet<String> {
    let notices = handle_epic(at(now), feed, store);
    let mut sent = HashSet::new();
    for n in &notices {
        sent.insert(n.message.clone());
        store.push(n.record());
    }
    sent
}

#[test]
fn test_handle_epic_single_promo() {
    let mut store = Vec::new();
    let msgs = notices("2025-12-20T16:15:00.000Z", &single_promo(), &mut store);
    let expected: HashSet<String> = [
        "**Blood West** is now free on EGS! Ends <t:1766332800:R>\nhttps://www.epicgames.com/store/en-US/p/blood-west-8f6ffd"
    ]
    .into_iter()
    .map(String::from)
    .collect();
    assert_eq!(msgs, expected);
}

#[test]
fn test_handle_epic_multiple_promo() {
    let mut store = Vec::new();
    let msgs = notices("2026-01-01T16:15:00.000Z", &multiple_promo(), &mut store);
    let expected: HashSet<String> = [
        "**Wildgate** is now free on EGS! Ends <t:1767888000:R>\n\
         https://www.epicgames.com/store/en-US/p/wildgate-standard-edition-b886b5",
        "**Total War: THREE KINGDOMS** is now free on EGS! Ends <t:1767888000:R>\n\
         https://www.epicgames.com/store/en-US/p/total-war-three-kingdoms-d3bb7a",
    ]
    .into_iter()
    .map(String::from)
    .collect();
    assert_eq!(msgs, expected);
}

#[test]
fn handle_epic_second_run_is_silent() {
    let feed = multiple_promo();
    let mut store = Vec::new();
    let first = notices("2026-01-01T16:15:00.000Z", &feed, &mut store);
    assert_eq!(first.len(), 2);
    assert_eq!(store[0].target_id, "default");
    assert_eq!(store[0].source, "EGS");
    let second = notices("2026-01-01T16:15:00.000Z", &feed, &mut store);
    assert!(second.is_empty());
}

#[test]
fn handle_epic_needs_a_product_slug() {
    let feed = response(vec![element(
        "bloons-id",
        "Bloons TD 6",
        0,
        None,
        Some(vec![Some("bloons-td-6-bf95a0")]),
        vec!["games"],
        None,
        Some(vec![vec![promo(
            "2026-01-08T16:00:00.000Z",
            "2026-01-15T16:00:00.000Z",
            Some(0),
        )]]),
    )]);
    let mut store = Vec::new();
    assert!(notices("2026-01-11T16:15:00.000Z", &feed, &mut store).is_empty());
}
