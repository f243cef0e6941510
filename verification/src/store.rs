//! What the offer store remembers of earlier announcements.
use vstd::prelude::*;
use crate::epic;

verus! {

/// An announcement already made: which offer was announced to which target,
/// for which source, and when its free period ends (Unix seconds).
pub struct ExistingOffer {
    pub target_id: String,
    pub id: String,
    pub source: String,
    pub ends_at: i64,
}

/// The contents of an [`ExistingOffer`].
pub struct ExistingOfferModel {
    pub target_id: Seq<char>,
    pub id: Seq<char>,
    pub source: Seq<char>,
    pub ends_at: int,
}

impl View for ExistingOffer {
    type V = ExistingOfferModel;

    open spec fn view(&self) -> ExistingOfferModel {
        ExistingOfferModel {
            target_id: self.target_id@,
            id: self.id@,
            source: self.source@,
            ends_at: self.ends_at as int,
        }
    }
}

/// The contents of a list of records.
pub open spec fn existing_models(v: Seq<ExistingOffer>) -> Seq<ExistingOfferModel> {
    v.map_values(|e: ExistingOffer| e@)
}

/// The (target id, offer id) pairs that the records of this store's source
/// hold.
pub open spec fn recorded_keys(existing: Seq<ExistingOfferModel>) -> Set<(Seq<char>, Seq<char>)> {
    Set::new(
        |k: (Seq<char>, Seq<char>)|
            exists|m: int|
                0 <= m < existing.len() && #[trigger] existing[m].source == epic::SOURCE@ && k == (
                    existing[m].target_id,
                    existing[m].id,
                ),
    )
}

/// The ids of all records, whatever their target or source.
pub open spec fn recorded_ids(existing: Seq<ExistingOfferModel>) -> Seq<Seq<char>> {
    existing.map_values(|e: ExistingOfferModel| e.id)
}

} // verus!
