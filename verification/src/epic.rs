//! The part of the Epic Games Store promotions feed that the notifier reads.
use vstd::prelude::*;

verus! {

/// The name under which offers of this store are recorded and announced.
pub const SOURCE: &'static str = "EGS";

/// The whole response of the promotions endpoint.
pub struct EpicResponse {
    pub data: EpicData,
}

pub struct EpicData {
    pub catalog: Catalog,
}

pub struct Catalog {
    pub search_store: SearchStore,
}

pub struct SearchStore {
    pub elements: Vec<Offer>,
}

/// One catalog element of the feed.
pub struct Offer {
    pub id: String,
    pub title: String,
    pub price: Price,
    pub product_slug: Option<String>,
    pub catalog_ns: Option<CatalogNs>,
    pub categories: Option<Vec<Category>>,
    pub offer_type: Option<OfferType>,
    pub promotions: Option<Promotions>,
}

/// The kind of a catalog element.
#[derive(Clone, Copy, Debug, PartialEq, Eq, Structural)]
pub enum OfferType {
    BaseGame,
    Bundle,
    AddOn,
    Edition,
    Other,
}

/// The catalog namespace of an element, with its page mappings.
pub struct CatalogNs {
    pub mappings: Option<Vec<Mapping>>,
}

pub struct Mapping {
    pub page_slug: Option<String>,
}

pub struct Category {
    pub path: String,
}

pub struct Price {
    pub total_price: TotalPrice,
}

pub struct TotalPrice {
    pub discount_price: i64,
}

pub struct Promotions {
    pub promotional_offers: Vec<PromotionalOfferBlock>,
}

pub struct PromotionalOfferBlock {
    pub promotional_offers: Vec<Promotion>,
}

/// A promotion window; the dates are RFC 3339 texts as the feed gives them.
pub struct Promotion {
    pub start_date: String,
    pub end_date: String,
    pub discount_setting: DiscountSetting,
}

pub struct DiscountSetting {
    pub discount_percentage: Option<i64>,
}

} // verus!
