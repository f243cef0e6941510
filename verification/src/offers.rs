//! Which catalog elements are free to claim right now, and where to claim them.
use vstd::prelude::*;
use crate::epic;
use crate::epic::{Mapping, PromotionalOfferBlock, Promotion, OfferType, EpicResponse};
use crate::text::{link_for, product_link, store_link};
use crate::time::{UtcTime, utc_le, utc_lt, parsed_utc, parse_utc};

verus! {

/// The text of an optional string.
pub open spec fn opt_text(o: Option<String>) -> Option<Seq<char>> {
    match o {
        Some(s) => Some(s@),
        None => None,
    }
}

/// The texts of a list of strings.
pub open spec fn texts(v: Seq<String>) -> Seq<Seq<char>> {
    v.map_values(|s: String| s@)
}

/// The end of a promotion window that contains `now`: both ends must be known,
/// the start not later than `now` and `now` strictly before the end.
pub open spec fn window_end(start: Option<UtcTime>, end: Option<UtcTime>, now: UtcTime) -> Option<
    UtcTime,
> {
    match (start, end) {
        (Some(s), Some(e)) => if utc_le(s, now) && utc_lt(now, e) {
            Some(e)
        } else {
            None
        },
        _ => None,
    }
}

/// A promotion makes the game free when its discount percentage is 0
/// (the price is reduced to 0 % of the original).
pub open spec fn is_free_promotion(p: Promotion) -> bool {
    p.discount_setting.discount_percentage == Some(0i64)
}

/// The end of a free promotion that is running at `now`.
pub open spec fn promotion_end(p: Promotion, now: UtcTime) -> Option<UtcTime> {
    if is_free_promotion(p) {
        window_end(parsed_utc(p.start_date@), parsed_utc(p.end_date@), now)
    } else {
        None
    }
}

/// The end of the first running free promotion of a list.
pub open spec fn first_promotion_end(ps: Seq<Promotion>, now: UtcTime) -> Option<UtcTime>
    decreases ps.len(),
{
    if ps.len() == 0 {
        None
    } else {
        match promotion_end(ps[0], now) {
            Some(e) => Some(e),
            None => first_promotion_end(ps.drop_first(), now),
        }
    }
}

/// The end of the first running free promotion, blocks taken in order.
pub open spec fn first_block_end(bs: Seq<PromotionalOfferBlock>, now: UtcTime) -> Option<UtcTime>
    decreases bs.len(),
{
    if bs.len() == 0 {
        None
    } else {
        match first_promotion_end(bs[0].promotional_offers@, now) {
            Some(e) => Some(e),
            None => first_block_end(bs.drop_first(), now),
        }
    }
}

/// When an element is free to claim at `now`, the end of that free period: its
/// discounted price must be 0 and one of its promotions must be a running free
/// one (the first such one counts).
pub open spec fn free_promo_end(o: epic::Offer, now: UtcTime) -> Option<UtcTime> {
    if o.price.total_price.discount_price != 0 {
        None
    } else {
        match o.promotions {
            Some(p) => first_block_end(p.promotional_offers@, now),
            None => None,
        }
    }
}

/// Decides a promotion window from its parsed ends: returns the end when the
/// window contains `now`.
pub fn active_window_end(start: Option<UtcTime>, end: Option<UtcTime>, now: UtcTime) -> (r: Option<
    UtcTime,
>)
    ensures
        r == window_end(start, end, now),
{
    match (start, end) {
        (Some(s), Some(e)) => {
            if s.not_after(&now) && now.before(&e) {
                Some(e)
            } else {
                None
            }
        },
        _ => None,
    }
}

fn first_running_promotion(ps: &Vec<Promotion>, now: UtcTime) -> (r: Option<UtcTime>)
    ensures
        r == first_promotion_end(ps@, now),
{
    let mut i: usize = 0;
    assert(ps@.skip(0) =~= ps@);
    while i < ps.len()
        invariant
            i <= ps@.len(),
            first_promotion_end(ps@, now) == first_promotion_end(ps@.skip(i as int), now),
        decreases ps@.len() - i,
    {
        let p = &ps[i];
        assert(ps@.skip(i as int)[0] == ps@[i as int]);
        assert(ps@.skip(i as int).drop_first() =~= ps@.skip(i + 1));
        let free = match p.discount_setting.discount_percentage {
            Some(pct) => pct == 0,
            None => false,
        };
        if free {
            let start = parse_utc(p.start_date.as_str());
            let end = parse_utc(p.end_date.as_str());
            let found = active_window_end(start, end, now);
            if found.is_some() {
                return found;
            }
        }
        i = i + 1;
    }
    assert(ps@.skip(i as int).len() == 0);
    None
}

/// The end of the free period of an element that is free to claim at `now`.
pub fn free_promo_ends_at(offer: &epic::Offer, now: UtcTime) -> (r: Option<UtcTime>)
    ensures
        r == free_promo_end(*offer, now),
{
    if offer.price.total_price.discount_price != 0 {
        return None;
    }
    let promotions = match &offer.promotions {
        Some(p) => p,
        None => {
            return None;
        },
    };
    let bs = &promotions.promotional_offers;
    let mut i: usize = 0;
    assert(bs@.skip(0) =~= bs@);
    while i < bs.len()
        invariant
            i <= bs@.len(),
            free_promo_end(*offer, now) == first_block_end(bs@, now),
            first_block_end(bs@, now) == first_block_end(bs@.skip(i as int), now),
        decreases bs@.len() - i,
    {
        assert(bs@.skip(i as int)[0] == bs@[i as int]);
        assert(bs@.skip(i as int).drop_first() =~= bs@.skip(i + 1));
        let found = first_running_promotion(&bs[i].promotional_offers, now);
        if found.is_some() {
            return found;
        }
        i = i + 1;
    }
    assert(bs@.skip(i as int).len() == 0);
    None
}

/// The first page slug among the catalog mappings.
pub open spec fn first_page_slug(ms: Seq<Mapping>) -> Option<Seq<char>>
    decreases ms.len(),
{
    if ms.len() == 0 {
        None
    } else {
        match ms[0].page_slug {
            Some(s) => Some(s@),
            None => first_page_slug(ms.drop_first()),
        }
    }
}

/// The slug of an element's store page: its product slug, or else the first
/// page slug of its catalog namespace mappings.
pub open spec fn slug_of(o: epic::Offer) -> Option<Seq<char>> {
    match o.product_slug {
        Some(s) => Some(s@),
        None => match o.catalog_ns {
            Some(ns) => match ns.mappings {
                Some(ms) => first_page_slug(ms@),
                None => None,
            },
            None => None,
        },
    }
}

/// Finds the slug of an element's store page.
pub fn get_slug(offer: &epic::Offer) -> (r: Option<String>)
    ensures
        opt_text(r) == slug_of(*offer),
        offer.product_slug matches Some(s) ==> r matches Some(t) && t@ == s@,
{
    if let Some(slug) = &offer.product_slug {
        return Some(slug.clone());
    }
    if let Some(catalog_ns) = &offer.catalog_ns {
        if let Some(mappings) = &catalog_ns.mappings {
            let mut i: usize = 0;
            assert(mappings@.skip(0) =~= mappings@);
            while i < mappings.len()
                invariant
                    i <= mappings@.len(),
                    slug_of(*offer) == first_page_slug(mappings@),
                    first_page_slug(mappings@) == first_page_slug(mappings@.skip(i as int)),
                decreases mappings@.len() - i,
            {
                assert(mappings@.skip(i as int)[0] == mappings@[i as int]);
                assert(mappings@.skip(i as int).drop_first() =~= mappings@.skip(i + 1));
                if let Some(page_slug) = &mappings[i].page_slug {
                    return Some(page_slug.clone());
                }
                i = i + 1;
            }
            assert(mappings@.skip(i as int).len() == 0);
        }
    }
    None
}

/// The category paths that mark a bundle.
pub open spec fn is_bundle_path(p: Seq<char>) -> bool {
    p == "bundles"@ || p == "bundles/games"@
}

/// An element is a bundle when its type says so or one of its categories is a
/// bundle category.
pub open spec fn offer_is_bundle(o: epic::Offer) -> bool {
    ||| o.offer_type == Some(OfferType::Bundle)
    ||| (o.categories matches Some(cs) && exists|i: int|
        0 <= i < cs@.len() && is_bundle_path(#[trigger] cs@[i].path@))
}

/// Whether an element is a bundle.
pub fn is_bundle(offer: &epic::Offer) -> (r: bool)
    ensures
        r == offer_is_bundle(*offer),
{
    if let Some(OfferType::Bundle) = offer.offer_type {
        return true;
    }
    if let Some(cats) = &offer.categories {
        let bundles = String::from_str("bundles");
        let bundle_games = String::from_str("bundles/games");
        let mut i: usize = 0;
        while i < cats.len()
            invariant
                i <= cats@.len(),
                offer.categories == Some(*cats),
                bundles@ == "bundles"@,
                bundle_games@ == "bundles/games"@,
                forall|j: int| 0 <= j < i ==> !is_bundle_path(#[trigger] cats@[j].path@),
            decreases cats@.len() - i,
        {
            if cats[i].path == bundles || cats[i].path == bundle_games {
                assert(is_bundle_path(cats@[i as int].path@));
                assert(offer.categories is Some);
                assert(offer.categories->0 == *cats);
                let ghost cs = offer.categories->0;
                assert(is_bundle_path(cs@[i as int].path@));
                return true;
            }
            i = i + 1;
        }
    }
    false
}

/// The product page of an element, from its product slug alone.
pub fn store_url(offer: &epic::Offer) -> (r: Option<String>)
    ensures
        opt_text(r) == (match offer.product_slug {
            Some(s) => Some(product_link(s@)),
            None => None,
        }),
{
    match &offer.product_slug {
        Some(s) => Some(store_link(s.as_str(), false)),
        None => None,
    }
}

/// An element that is free to claim, ready to be announced.
pub struct Offer {
    pub id: String,
    pub source: String,
    pub title: String,
    pub link: String,
    pub ends_at: UtcTime,
}

/// The contents of an [`Offer`].
pub struct OfferModel {
    pub id: Seq<char>,
    pub source: Seq<char>,
    pub title: Seq<char>,
    pub link: Seq<char>,
    pub ends_at: UtcTime,
}

impl View for Offer {
    type V = OfferModel;

    open spec fn view(&self) -> OfferModel {
        OfferModel {
            id: self.id@,
            source: self.source@,
            title: self.title@,
            link: self.link@,
            ends_at: self.ends_at,
        }
    }
}

/// The offer to announce for a catalog element at `now`, unless the element is
/// not free right now, its id is among `existing`, or it has no store page.
pub open spec fn free_offer_of(o: epic::Offer, now: UtcTime, existing: Seq<Seq<char>>) -> Option<
    OfferModel,
> {
    match free_promo_end(o, now) {
        None => None,
        Some(end) => if existing.contains(o.id@) {
            None
        } else {
            match slug_of(o) {
                None => None,
                Some(slug) => Some(
                    OfferModel {
                        id: o.id@,
                        source: epic::SOURCE@,
                        title: o.title@,
                        link: link_for(slug, offer_is_bundle(o)),
                        ends_at: end,
                    },
                ),
            }
        },
    }
}

/// The offers to announce for a list of catalog elements, in feed order.
pub open spec fn free_offers(os: Seq<epic::Offer>, now: UtcTime, existing: Seq<Seq<char>>) -> Seq<
    OfferModel,
>
    decreases os.len(),
{
    if os.len() == 0 {
        Seq::empty()
    } else {
        let rest = free_offers(os.drop_last(), now, existing);
        match free_offer_of(os.last(), now, existing) {
            Some(m) => rest.push(m),
            None => rest,
        }
    }
}

/// Whether a text is among a list of strings.
pub fn contains_text(v: &Vec<String>, s: &String) -> (r: bool)
    ensures
        r == texts(v@).contains(s@),
{
    let mut i: usize = 0;
    while i < v.len()
        invariant
            i <= v@.len(),
            forall|j: int| 0 <= j < i ==> v@[j]@ != s@,
        decreases v@.len() - i,
    {
        if v[i] == *s {
            assert(texts(v@)[i as int] == s@);
            return true;
        }
        i = i + 1;
    }
    proof {
        if texts(v@).contains(s@) {
            let k = choose|k: int| 0 <= k < texts(v@).len() && texts(v@)[k] == s@;
            assert(v@[k]@ == s@);
        }
    }
    false
}

/// The offer to announce for one catalog element.
pub fn free_offer(o: &epic::Offer, now: UtcTime, existing_offer_ids: &Vec<String>) -> (r: Option<
    Offer,
>)
    ensures
        (match r {
            Some(f) => Some(f@),
            None => None,
        }) == free_offer_of(*o, now, texts(existing_offer_ids@)),
{
    let ends_at = match free_promo_ends_at(o, now) {
        Some(t) => t,
        None => {
            return None;
        },
    };
    if contains_text(existing_offer_ids, &o.id) {
        return None;
    }
    let bundle = is_bundle(o);
    let link = match get_slug(o) {
        Some(slug) => store_link(slug.as_str(), bundle),
        None => {
            return None;
        },
    };
    Some(
        Offer {
            id: o.id.clone(),
            source: String::from_str(epic::SOURCE),
            title: o.title.clone(),
            link,
            ends_at,
        },
    )
}

/// The offers of the feed that are free to claim at `now` and whose ids are not
/// among `existing_offer_ids`, in feed order.
pub fn get_free_offers(response: &EpicResponse, now: UtcTime, existing_offer_ids: &Vec<String>) -> (r:
    Vec<Offer>)
    ensures
        r@.map_values(|f: Offer| f@) == free_offers(
            response.data.catalog.search_store.elements@,
            now,
            texts(existing_offer_ids@),
        ),
{
    let elements = &response.data.catalog.search_store.elements;
    let mut out: Vec<Offer> = Vec::new();
    let mut i: usize = 0;
    while i < elements.len()
        invariant
            i <= elements@.len(),
            out@.map_values(|f: Offer| f@) == free_offers(
                elements@.take(i as int),
                now,
                texts(existing_offer_ids@),
            ),
        decreases elements@.len() - i,
    {
        assert(elements@.take(i + 1).drop_last() =~= elements@.take(i as int));
        assert(elements@.take(i + 1).last() == elements@[i as int]);
        let found = free_offer(&elements[i], now, existing_offer_ids);
        let ghost before = out@;
        match found {
            Some(f) => {
                out.push(f);
                assert(out@.map_values(|f: Offer| f@) =~= before.map_values(|f: Offer| f@).push(
                    f@,
                ));
            },
            None => {},
        }
        i = i + 1;
    }
    assert(elements@.take(i as int) =~= elements@);
    out
}

/// A list of offers without those whose id is among `ids`, order kept.
pub open spec fn without_ids(fs: Seq<OfferModel>, ids: Seq<Seq<char>>) -> Seq<OfferModel>
    decreases fs.len(),
{
    if fs.len() == 0 {
        Seq::empty()
    } else {
        let rest = without_ids(fs.drop_last(), ids);
        if ids.contains(fs.last().id) {
            rest
        } else {
            rest.push(fs.last())
        }
    }
}

/// Knowing more ids only removes offers: with a list of known ids that holds
/// every id of a smaller one, the offers are those of the smaller list without
/// the ones whose id is now known, in the same order.
pub proof fn law_more_known_ids_only_remove(
    os: Seq<epic::Offer>,
    now: UtcTime,
    existing: Seq<Seq<char>>,
    existing2: Seq<Seq<char>>,
)
    requires
        forall|x: Seq<char>| existing.contains(x) ==> existing2.contains(x),
    ensures
        free_offers(os, now, existing2) == without_ids(free_offers(os, now, existing), existing2),
    decreases os.len(),
{
    if os.len() > 0 {
        let init = os.drop_last();
        law_more_known_ids_only_remove(init, now, existing, existing2);
        let rest = free_offers(init, now, existing);
        match free_offer_of(os.last(), now, existing) {
            Some(m) => {
                let s = rest.push(m);
                assert(s.drop_last() =~= rest);
                assert(s.last() == m);
            },
            None => {
                if !existing.contains(os.last().id@) {
                    assert(free_offer_of(os.last(), now, existing2) is None);
                }
            },
        }
    }
}

/// The first page slug of the mappings is the page slug of the first mapping
/// that has one.
proof fn lemma_first_page_slug(ms: Seq<Mapping>)
    ensures
        match first_page_slug(ms) {
            Some(x) => exists|k: int|
                0 <= k < ms.len() && (#[trigger] ms[k]).page_slug is Some && ms[k].page_slug->0@
                    == x && forall|k2: int| 0 <= k2 < k ==> (#[trigger] ms[k2]).page_slug is None,
            None => forall|k: int| 0 <= k < ms.len() ==> (#[trigger] ms[k]).page_slug is None,
        },
    decreases ms.len(),
{
    if ms.len() > 0 {
        let rest = ms.drop_first();
        lemma_first_page_slug(rest);
        match ms[0].page_slug {
            Some(s) => {
                assert(ms[0].page_slug->0@ == s@);
            },
            None => {
                match first_page_slug(rest) {
                    Some(x) => {
                        let k = choose|k: int|
                            0 <= k < rest.len() && (#[trigger] rest[k]).page_slug is Some
                                && rest[k].page_slug->0@ == x && forall|k2: int|
                                0 <= k2 < k ==> (#[trigger] rest[k2]).page_slug is None;
                        assert(ms[k + 1] == rest[k]);
                        assert forall|k2: int| 0 <= k2 < k + 1 implies (#[trigger] ms[k2]).page_slug
                            is None by {
                            if k2 > 0 {
                                assert(ms[k2] == rest[k2 - 1]);
                            }
                        }
                    },
                    None => {
                        assert forall|k: int| 0 <= k < ms.len() implies (#[trigger] ms[k]).page_slug
                            is None by {
                            if k > 0 {
                                assert(ms[k] == rest[k - 1]);
                            }
                        }
                    },
                }
            },
        }
    }
}

/// The slug of a store page is the product slug whenever the element has one,
/// whatever its mappings hold; without a product slug it is the page slug of
/// the first mapping that has one, and there is none when no mapping has one.
pub proof fn law_product_slug_comes_first(o: epic::Offer)
    ensures
        o.product_slug matches Some(s) ==> slug_of(o) == Some(s@),
        o.product_slug is None ==> match slug_of(o) {
            Some(x) => o.catalog_ns is Some && o.catalog_ns->0.mappings is Some && exists|k: int|
                0 <= k < o.catalog_ns->0.mappings->0@.len() && (
                #[trigger] o.catalog_ns->0.mappings->0@[k]).page_slug is Some
                    && o.catalog_ns->0.mappings->0@[k].page_slug->0@ == x && forall|k2: int|
                    0 <= k2 < k ==> (#[trigger] o.catalog_ns->0.mappings->0@[k2]).page_slug is None,
            None => o.catalog_ns is Some && o.catalog_ns->0.mappings is Some ==> forall|k: int|
                0 <= k < o.catalog_ns->0.mappings->0@.len() ==> (
                #[trigger] o.catalog_ns->0.mappings->0@[k]).page_slug is None,
        },
{
    if o.product_slug is None {
        if o.catalog_ns is Some && o.catalog_ns->0.mappings is Some {
            lemma_first_page_slug(o.catalog_ns->0.mappings->0@);
        }
    }
}

/// `s` ends with `t`.
pub open spec fn ends_with(s: Seq<char>, t: Seq<char>) -> bool {
    t.len() <= s.len() && s.subrange(s.len() - t.len(), s.len() as int) == t
}

/// An element is marked as a bundle: its type is Bundle, or one of its
/// categories is `bundles` or `bundles/games`.
pub open spec fn marked_bundle(o: epic::Offer) -> bool {
    ||| o.offer_type == Some(OfferType::Bundle)
    ||| o.categories is Some && exists|c: int|
        0 <= c < o.categories->0@.len() && (#[trigger] o.categories->0@[c].path@ == "bundles"@
            || o.categories->0@[c].path@ == "bundles/games"@)
}

/// The offer `f` announces the element `o`: same id and title, `o` is free at
/// `now` until the offer's end, its id is not known, and the link is the bundle
/// page of its slug for a bundle, its product page otherwise.
pub open spec fn announces_element(
    f: OfferModel,
    o: epic::Offer,
    now: UtcTime,
    existing: Seq<Seq<char>>,
) -> bool {
    &&& f.id == o.id@
    &&& f.title == o.title@
    &&& !existing.contains(o.id@)
    &&& free_promo_end(o, now) == Some(f.ends_at)
    &&& slug_of(o) is Some
    &&& marked_bundle(o) ==> f.link == "https://store.epicgames.com/en-US/bundles/"@ + slug_of(o)->0
    &&& !marked_bundle(o) ==> f.link == "https://www.epicgames.com/store/en-US/p/"@ + slug_of(o)->0
}

/// Every offer to announce announces an element of the feed, with the bundle
/// page as its link exactly when the element is marked as a bundle.
pub proof fn law_free_offer_links(os: Seq<epic::Offer>, now: UtcTime, existing: Seq<Seq<char>>)
    ensures
        forall|m: int|
            0 <= m < free_offers(os, now, existing).len() ==> exists|i: int|
                0 <= i < os.len() && announces_element(
                    #[trigger] free_offers(os, now, existing)[m],
                    #[trigger] os[i],
                    now,
                    existing,
                ),
    decreases os.len(),
{
    if os.len() > 0 {
        let init = os.drop_last();
        law_free_offer_links(init, now, existing);
        let rest = free_offers(init, now, existing);
        let all = free_offers(os, now, existing);
        assert forall|m: int| 0 <= m < all.len() implies exists|i: int|
            0 <= i < os.len() && announces_element(#[trigger] all[m], #[trigger] os[i], now, existing) by {
            if m < rest.len() {
                assert(all[m] == rest[m]);
                let i = choose|i: int|
                    0 <= i < init.len() && announces_element(
                        #[trigger] rest[m],
                        #[trigger] init[i],
                        now,
                        existing,
                    );
                assert(os[i] == init[i]);
            } else {
                let i = os.len() - 1;
                assert(os[i] == os.last());
                assert(marked_bundle(os[i]) == offer_is_bundle(os[i]));
                assert(announces_element(all[m], os[i], now, existing));
            }
        }
    }
}

} // verus!
