use free_games_notifier::epic::{
    Catalog, CatalogNs, Category, DiscountSetting, EpicData, EpicResponse, Mapping, Offer,
    OfferType, Price, PromotionalOfferBlock, Promotion, Promotions, SearchStore, TotalPrice,
};
use free_games_notifier::notifier::CaptureNotifier;
use free_games_notifier::offers::{
    active_window_end, free_promo_ends_at, get_free_offers, get_slug, is_bundle, store_url,
};
use free_games_notifier::text::{decimal_string, notice_message, store_link};
use free_games_notifier::time::{parse_utc, MockTimeSource, TimeSource, UtcTime};

fn at(s: &str) -> UtcTime {
    parse_utc(s).unwrap()
}

fn promo(start: &str, end: &str, pct: Option<i64>) -> Promotion {
    Promotion {
        start_date: start.to_string(),
        end_date: end.to_string(),
        discount_setting: DiscountSetting { discount_percentage: pct },
    }
}

fn bare(id: &str, price: i64, blocks: Option<Vec<Vec<Promotion>>>) -> Offer {
    Offer {
        id: id.to_string(),
        title: id.to_string(),
        price: Price { total_price: TotalPrice { discount_price: price } },
        product_slug: Some(format!("{id}-slug")),
        catalog_ns: None,
        categories: None,
        offer_type: None,
        promotions: blocks.map(|bs| Promotions {
            promotional_offers: bs
                .into_iter()
                .map(|ps| PromotionalOfferBlock { promotional_offers: ps })
                .collect(),
        }),
    }
}

#[test]
fn parse_utc_reads_rfc3339() {
    assert_eq!(parse_utc("2025-12-20T16:15:00.000Z"), Some(UtcTime { secs: 1766247300, nanos: 0 }));
    assert_eq!(
        parse_utc("2025-12-20T17:15:00.250+01:00"),
        Some(UtcTime { secs: 1766247300, nanos: 250_000_000 })
    );
    assert_eq!(parse_utc("not a date"), None);
    assert_eq!(parse_utc("2025-12-20"), None);
}

#[test]
fn mock_time_source_keeps_its_time() {
    let t = UtcTime { secs: 42, nanos: 7 };
    assert_eq!(MockTimeSource::new(t).now(), t);
}

#[test]
fn window_contains_start_but_not_end() {
    let s = Some(UtcTime { secs: 10, nanos: 0 });
    let e = Some(UtcTime { secs: 20, nanos: 5 });
    assert_eq!(active_window_end(s, e, UtcTime { secs: 10, nanos: 0 }), e);
    assert_eq!(active_window_end(s, e, UtcTime { secs: 20, nanos: 4 }), e);
    assert_eq!(active_window_end(s, e, UtcTime { secs: 20, nanos: 5 }), None);
    assert_eq!(active_window_end(s, e, UtcTime { secs: 9, nanos: 999_999_999 }), None);
    assert_eq!(active_window_end(None, e, UtcTime { secs: 15, nanos: 0 }), None);
    assert_eq!(active_window_end(s, None, UtcTime { secs: 15, nanos: 0 }), None);
}

#[test]
fn free_promotion_needs_zero_price_and_zero_percent() {
    let now = at("2025-12-20T16:15:00.000Z");
    let running = promo("2025-12-18T16:00:00.000Z", "2025-12-21T16:00:00.000Z", Some(0));
    let end = Some(at("2025-12-21T16:00:00.000Z"));
    assert_eq!(free_promo_ends_at(&bare("a", 0, Some(vec![vec![running]])), now), end);
    let running = promo("2025-12-18T16:00:00.000Z", "2025-12-21T16:00:00.000Z", Some(0));
    assert_eq!(free_promo_ends_at(&bare("b", 100, Some(vec![vec![running]])), now), None);
    let half = promo("2025-12-18T16:00:00.000Z", "2025-12-21T16:00:00.000Z", Some(50));
    assert_eq!(free_promo_ends_at(&bare("c", 0, Some(vec![vec![half]])), now), None);
    let unknown = promo("2025-12-18T16:00:00.000Z", "2025-12-21T16:00:00.000Z", None);
    assert_eq!(free_promo_ends_at(&bare("d", 0, Some(vec![vec![unknown]])), now), None);
    assert_eq!(free_promo_ends_at(&bare("e", 0, None), now), None);
}

#[test]
fn first_running_free_promotion_counts() {
    let now = at("2025-12-20T16:15:00.000Z");
    let blocks = vec![
        vec![
            promo("garbage", "2025-12-30T16:00:00.000Z", Some(0)),
            promo("2025-12-25T16:00:00.000Z", "2025-12-30T16:00:00.000Z", Some(0)),
        ],
        vec![],
        vec![
            promo("2025-12-19T16:00:00.000Z", "2025-12-22T16:00:00.000Z", Some(0)),
            promo("2025-12-18T16:00:00.000Z", "2025-12-23T16:00:00.000Z", Some(0)),
        ],
    ];
    assert_eq!(
        free_promo_ends_at(&bare("a", 0, Some(blocks)), now),
        Some(at("2025-12-22T16:00:00.000Z"))
    );
}

#[test]
fn slug_falls_back_to_page_mappings() {
    let mut o = bare("a", 0, None);
    assert_eq!(get_slug(&o), Some("a-slug".to_string()));
    o.product_slug = None;
    assert_eq!(get_slug(&o), None);
    o.catalog_ns = Some(CatalogNs {
        mappings: Some(vec![
            Mapping { page_slug: None },
            Mapping { page_slug: Some("first".to_string()) },
            Mapping { page_slug: Some("second".to_string()) },
        ]),
    });
    assert_eq!(get_slug(&o), Some("first".to_string()));
    o.catalog_ns = Some(CatalogNs { mappings: None });
    assert_eq!(get_slug(&o), None);
}

#[test]
fn bundles_are_recognized_by_type_or_category() {
    let mut o = bare("a", 0, None);
    assert!(!is_bundle(&o));
    o.offer_type = Some(OfferType::Bundle);
    assert!(is_bundle(&o));
    o.offer_type = Some(OfferType::BaseGame);
    o.categories = Some(vec![Category { path: "games".to_string() }]);
    assert!(!is_bundle(&o));
    o.categories = Some(vec![
        Category { path: "games".to_string() },
        Category { path: "bundles/games".to_string() },
    ]);
    assert!(is_bundle(&o));
    o.categories = Some(vec![Category { path: "bundles".to_string() }]);
    assert!(is_bundle(&o));
    o.categories = Some(vec![Category { path: "bundle".to_string() }]);
    assert!(!is_bundle(&o));
}

#[test]
fn store_url_uses_the_product_slug() {
    let mut o = bare("a", 0, None);
    assert_eq!(store_url(&o), Some("https://www.epicgames.com/store/en-US/p/a-slug".to_string()));
    o.product_slug = None;
    assert_eq!(store_url(&o), None);
    assert_eq!(store_link("x", true), "https://store.epicgames.com/en-US/bundles/x");
}

#[test]
fn get_free_offers_filters_and_keeps_feed_order() {
    let now = at("2025-12-20T16:15:00.000Z");
    let running = || promo("2025-12-18T16:00:00.000Z", "2025-12-21T16:00:00.000Z", Some(0));
    let mut no_slug = bare("no-slug", 0, Some(vec![vec![running()]]));
    no_slug.product_slug = None;
    let feed = EpicResponse {
        data: EpicData {
            catalog: Catalog {
                search_store: SearchStore {
                    elements: vec![
                        bare("second", 0, Some(vec![vec![running()]])),
                        bare("paid", 10, Some(vec![vec![running()]])),
                        no_slug,
                        bare("known", 0, Some(vec![vec![running()]])),
                        bare("first", 0, Some(vec![vec![running()]])),
                    ],
                },
            },
        },
    };
    let offers = get_free_offers(&feed, now, &vec!["known".to_string()]);
    let ids: Vec<&str> = offers.iter().map(|o| o.id.as_str()).collect();
    assert_eq!(ids, vec!["second", "first"]);
    assert_eq!(offers[0].source, "EGS");
    assert_eq!(offers[0].title, "second");
    assert_eq!(offers[0].link, "https://www.epicgames.com/store/en-US/p/second-slug");
    assert_eq!(offers[0].ends_at, at("2025-12-21T16:00:00.000Z"));
}

#[test]
fn decimal_matches_display() {
    for i in [0i64, 7, 10, 1766332800, -1, -905, i64::MAX, i64::MIN] {
        assert_eq!(decimal_string(i), i.to_string());
    }
}

#[test]
fn notice_message_format() {
    assert_eq!(
        notice_message("Game", "EGS", 1767888000, "https://example/x"),
        "**Game** is now free on EGS! Ends <t:1767888000:R>\nhttps://example/x"
    );
}

#[test]
fn capture_notifier_keeps_messages_in_order() {
    let mut n = CaptureNotifier::new();
    assert!(n.get_messages().is_empty());
    n.notify("one");
    n.notify("two");
    assert_eq!(n.get_messages(), vec!["one".to_string(), "two".to_string()]);
}
