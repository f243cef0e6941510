//! Which free offers still have to be announced to which notification target.
use vstd::prelude::*;
use crate::epic;
use crate::epic::EpicResponse;
use crate::offers::{
    Offer, OfferModel, free_offers, get_free_offers, texts, free_promo_end, free_promo_ends_at,
    offer_is_bundle, is_bundle, opt_text, marked_bundle, ends_with,
};
use crate::store::{ExistingOffer, ExistingOfferModel, existing_models, recorded_keys, recorded_ids};
use crate::text::{notice_message, notice_text, link_for, store_link};
use crate::time::UtcTime;

verus! {

/// A notification target: its id, under which announcements are recorded, and
/// the channel that reaches it.
pub struct NotifyTarget<N> {
    pub id: String,
    pub notifier: N,
}

/// The ids of a list of targets.
pub open spec fn target_ids<N>(targets: Seq<NotifyTarget<N>>) -> Seq<Seq<char>> {
    targets.map_values(|t: NotifyTarget<N>| t.id@)
}

/// One announcement to make: send `message` to the target at `target_index`,
/// then record that the offer was announced there.
pub struct Delivery {
    pub target_index: usize,
    pub offer_index: usize,
    pub target_id: String,
    pub offer_id: String,
    pub source: String,
    pub message: String,
    pub ends_at: i64,
}

/// The contents of a [`Delivery`].
pub struct DeliveryModel {
    pub target_index: int,
    pub offer_index: int,
    pub target_id: Seq<char>,
    pub offer_id: Seq<char>,
    pub source: Seq<char>,
    pub message: Seq<char>,
    pub ends_at: int,
}

impl View for Delivery {
    type V = DeliveryModel;

    open spec fn view(&self) -> DeliveryModel {
        DeliveryModel {
            target_index: self.target_index as int,
            offer_index: self.offer_index as int,
            target_id: self.target_id@,
            offer_id: self.offer_id@,
            source: self.source@,
            message: self.message@,
            ends_at: self.ends_at as int,
        }
    }
}

impl Delivery {
    /// The record that this delivery leaves in the offer store.
    pub fn record(&self) -> (r: ExistingOffer)
        ensures
            r@ == record_of(self@),
    {
        ExistingOffer {
            target_id: self.target_id.clone(),
            id: self.offer_id.clone(),
            source: self.source.clone(),
            ends_at: self.ends_at,
        }
    }
}

/// The contents of a list of deliveries.
pub open spec fn delivery_models(v: Seq<Delivery>) -> Seq<DeliveryModel> {
    v.map_values(|d: Delivery| d@)
}

/// The record that a delivery leaves in the offer store.
pub open spec fn record_of(d: DeliveryModel) -> ExistingOfferModel {
    ExistingOfferModel {
        target_id: d.target_id,
        id: d.offer_id,
        source: d.source,
        ends_at: d.ends_at,
    }
}

/// The records that a list of deliveries leaves in the offer store.
pub open spec fn records_of(ds: Seq<DeliveryModel>) -> Seq<ExistingOfferModel> {
    ds.map_values(|d: DeliveryModel| record_of(d))
}

/// The (target id, offer id) pair of announcing offer `i` to target `j`.
pub open spec fn key_at(free: Seq<OfferModel>, tids: Seq<Seq<char>>, i: int, j: int) -> (
    Seq<char>,
    Seq<char>,
) {
    (tids[j], free[i].id)
}

/// Offer-major order on (offer, target) positions.
pub open spec fn lex_before(i2: int, j2: int, i: int, j: int) -> bool {
    i2 < i || (i2 == i && j2 < j)
}

/// Some position before (`i`, `j`) has the pair `k`.
pub open spec fn seen_before(
    free: Seq<OfferModel>,
    tids: Seq<Seq<char>>,
    i: int,
    j: int,
    k: (Seq<char>, Seq<char>),
) -> bool {
    exists|i2: int, j2: int|
        0 <= i2 < free.len() && 0 <= j2 < tids.len() && lex_before(i2, j2, i, j)
            && #[trigger] key_at(free, tids, i2, j2) == k
}

/// Offer `i` has to be announced to target `j`: the pair is not recorded and
/// no earlier position has the same pair.
pub open spec fn fresh(
    rec: Set<(Seq<char>, Seq<char>)>,
    free: Seq<OfferModel>,
    tids: Seq<Seq<char>>,
    i: int,
    j: int,
) -> bool {
    !rec.contains(key_at(free, tids, i, j)) && !seen_before(free, tids, i, j, key_at(free, tids, i, j))
}

/// The announcement of offer `i` to target `j`.
pub open spec fn delivery_at(free: Seq<OfferModel>, tids: Seq<Seq<char>>, i: int, j: int) -> DeliveryModel {
    DeliveryModel {
        target_index: j,
        offer_index: i,
        target_id: tids[j],
        offer_id: free[i].id,
        source: free[i].source,
        message: notice_text(free[i].title, free[i].source, free[i].ends_at.secs as int, free[i].link),
        ends_at: free[i].ends_at.secs as int,
    }
}

/// The announcements for all positions before (`i`, `j`), in offer-major order.
pub open spec fn plan_upto(
    rec: Set<(Seq<char>, Seq<char>)>,
    free: Seq<OfferModel>,
    tids: Seq<Seq<char>>,
    i: nat,
    j: nat,
) -> Seq<DeliveryModel>
    decreases i, j,
{
    if j == 0 {
        if i == 0 {
            Seq::empty()
        } else {
            plan_upto(rec, free, tids, (i - 1) as nat, tids.len())
        }
    } else {
        let before = plan_upto(rec, free, tids, i, (j - 1) as nat);
        if fresh(rec, free, tids, i as int, j - 1) {
            before.push(delivery_at(free, tids, i as int, j - 1))
        } else {
            before
        }
    }
}

/// The announcements to make: every free offer to every target, offers in
/// feed order and targets in the given order, skipping each (target, offer id)
/// pair that is already recorded or was met before.
pub open spec fn plan(
    rec: Set<(Seq<char>, Seq<char>)>,
    free: Seq<OfferModel>,
    tids: Seq<Seq<char>>,
) -> Seq<DeliveryModel> {
    plan_upto(rec, free, tids, free.len(), 0)
}

/// The texts of a list of string pairs.
pub open spec fn pair_texts(v: Seq<(String, String)>) -> Seq<(Seq<char>, Seq<char>)> {
    v.map_values(|p: (String, String)| (p.0@, p.1@))
}

fn contains_pair(v: &Vec<(String, String)>, a: &String, b: &String) -> (r: bool)
    ensures
        r == pair_texts(v@).contains((a@, b@)),
{
    let mut i: usize = 0;
    while i < v.len()
        invariant
            i <= v@.len(),
            forall|m: int| 0 <= m < i ==> pair_texts(v@)[m] != (a@, b@),
        decreases v@.len() - i,
    {
        if v[i].0 == *a && v[i].1 == *b {
            assert(pair_texts(v@)[i as int] == (a@, b@));
            return true;
        }
        i = i + 1;
    }
    false
}

/// The pairs recorded for this store's source, read from the records.
fn recorded_pairs(existing: &Vec<ExistingOffer>) -> (r: Vec<(String, String)>)
    ensures
        forall|k: (Seq<char>, Seq<char>)|
            pair_texts(r@).contains(k) <==> recorded_keys(existing_models(existing@)).contains(k),
{
    let ghost ex = existing_models(existing@);
    let source = String::from_str(epic::SOURCE);
    let mut out: Vec<(String, String)> = Vec::new();
    let mut i: usize = 0;
    while i < existing.len()
        invariant
            i <= existing@.len(),
            ex == existing_models(existing@),
            source@ == epic::SOURCE@,
            forall|k: (Seq<char>, Seq<char>)|
                pair_texts(out@).contains(k) <==> exists|m: int|
                    0 <= m < i && #[trigger] ex[m].source == epic::SOURCE@ && k == (
                        ex[m].target_id,
                        ex[m].id,
                    ),
        decreases existing@.len() - i,
    {
        let ghost before = out@;
        if existing[i].source == source {
            out.push((existing[i].target_id.clone(), existing[i].id.clone()));
            assert(pair_texts(out@) =~= pair_texts(before).push(
                (existing@[i as int].target_id@, existing@[i as int].id@),
            ));
        }
        assert forall|k: (Seq<char>, Seq<char>)|
            pair_texts(out@).contains(k) <==> exists|m: int|
                0 <= m < i + 1 && #[trigger] ex[m].source == epic::SOURCE@ && k == (
                    ex[m].target_id,
                    ex[m].id,
                ) by {
            if pair_texts(out@).contains(k) {
                if !pair_texts(before).contains(k) {
                    let n = choose|n: int| 0 <= n < pair_texts(out@).len() && pair_texts(out@)[n] == k;
                    assert(n == before.len());
                    assert(ex[i as int].source == epic::SOURCE@);
                }
            }
            if exists|m: int|
                0 <= m < i + 1 && #[trigger] ex[m].source == epic::SOURCE@ && k == (
                    ex[m].target_id,
                    ex[m].id,
                ) {
                let m = choose|m: int|
                    0 <= m < i + 1 && #[trigger] ex[m].source == epic::SOURCE@ && k == (
                        ex[m].target_id,
                        ex[m].id,
                    );
                if m == i {
                    assert(pair_texts(out@)[before.len() as int] == k);
                } else {
                    assert(pair_texts(before).contains(k));
                    let n = choose|n: int| 0 <= n < pair_texts(before).len() && pair_texts(before)[n] == k;
                    assert(pair_texts(out@)[n] == k);
                }
            }
        }
        i = i + 1;
    }
    out
}

proof fn lemma_seen_step(
    free: Seq<OfferModel>,
    tids: Seq<Seq<char>>,
    i: int,
    j: int,
    k: (Seq<char>, Seq<char>),
)
    requires
        0 <= i < free.len(),
        0 <= j < tids.len(),
    ensures
        seen_before(free, tids, i, j + 1, k) == (seen_before(free, tids, i, j, k) || k == key_at(
            free,
            tids,
            i,
            j,
        )),
{
    if seen_before(free, tids, i, j + 1, k) {
        let (i2, j2) = choose|i2: int, j2: int|
            0 <= i2 < free.len() && 0 <= j2 < tids.len() && lex_before(i2, j2, i, j + 1)
                && #[trigger] key_at(free, tids, i2, j2) == k;
        if !(i2 == i && j2 == j) {
            assert(lex_before(i2, j2, i, j));
        }
    }
    if k == key_at(free, tids, i, j) {
        assert(lex_before(i, j, i, j + 1));
    }
    if seen_before(free, tids, i, j, k) {
        let (i2, j2) = choose|i2: int, j2: int|
            0 <= i2 < free.len() && 0 <= j2 < tids.len() && lex_before(i2, j2, i, j)
                && #[trigger] key_at(free, tids, i2, j2) == k;
        assert(lex_before(i2, j2, i, j + 1));
    }
}

proof fn lemma_seen_row(
    free: Seq<OfferModel>,
    tids: Seq<Seq<char>>,
    i: int,
    k: (Seq<char>, Seq<char>),
)
    requires
        0 <= i,
    ensures
        seen_before(free, tids, i, tids.len() as int, k) == seen_before(free, tids, i + 1, 0, k),
{
    if seen_before(free, tids, i, tids.len() as int, k) {
        let (i2, j2) = choose|i2: int, j2: int|
            0 <= i2 < free.len() && 0 <= j2 < tids.len() && lex_before(i2, j2, i, tids.len() as int)
                && #[trigger] key_at(free, tids, i2, j2) == k;
        assert(lex_before(i2, j2, i + 1, 0));
    }
    if seen_before(free, tids, i + 1, 0, k) {
        let (i2, j2) = choose|i2: int, j2: int|
            0 <= i2 < free.len() && 0 <= j2 < tids.len() && lex_before(i2, j2, i + 1, 0)
                && #[trigger] key_at(free, tids, i2, j2) == k;
        assert(lex_before(i2, j2, i, tids.len() as int));
    }
}

/// Decides the announcements of one run: which free offer of the feed goes to
/// which target, given what the store has recorded. The caller sends each
/// delivery's message through the target's notifier and records it, in order,
/// and stops at the first failure.
pub fn handle<N>(
    now: UtcTime,
    response: &EpicResponse,
    existing_offers: &Vec<ExistingOffer>,
    targets: &Vec<NotifyTarget<N>>,
) -> (r: Vec<Delivery>)
    ensures
        delivery_models(r@) == plan(
            recorded_keys(existing_models(existing_offers@)),
            free_offers(response.data.catalog.search_store.elements@, now, Seq::empty()),
            target_ids(targets@),
        ),
{
    let ghost rec = recorded_keys(existing_models(existing_offers@));
    let mut sent = recorded_pairs(existing_offers);
    let no_ids: Vec<String> = Vec::new();
    assert(texts(no_ids@) =~= Seq::<Seq<char>>::empty());
    let free_offers_now = get_free_offers(response, now, &no_ids);
    let ghost free = free_offers_now@.map_values(|f: Offer| f@);
    let ghost tids = target_ids(targets@);
    let mut out: Vec<Delivery> = Vec::new();
    let mut i: usize = 0;
    while i < free_offers_now.len()
        invariant
            i <= free.len(),
            free == free_offers_now@.map_values(|f: Offer| f@),
            tids == target_ids(targets@),
            delivery_models(out@) == plan_upto(rec, free, tids, i as nat, 0),
            forall|k: (Seq<char>, Seq<char>)|
                pair_texts(sent@).contains(k) <==> (rec.contains(k) || seen_before(
                    free,
                    tids,
                    i as int,
                    0,
                    k,
                )),
        decreases free.len() - i,
    {
        let offer = &free_offers_now[i];
        let message = notice_message(
            offer.title.as_str(),
            offer.source.as_str(),
            offer.ends_at.secs,
            offer.link.as_str(),
        );
        let mut j: usize = 0;
        while j < targets.len()
            invariant
                i < free.len(),
                j <= tids.len(),
                free == free_offers_now@.map_values(|f: Offer| f@),
                tids == target_ids(targets@),
                *offer == free_offers_now@[i as int],
                message@ == notice_text(
                    free[i as int].title,
                    free[i as int].source,
                    free[i as int].ends_at.secs as int,
                    free[i as int].link,
                ),
                delivery_models(out@) == plan_upto(rec, free, tids, i as nat, j as nat),
                forall|k: (Seq<char>, Seq<char>)|
                    pair_texts(sent@).contains(k) <==> (rec.contains(k) || seen_before(
                        free,
                        tids,
                        i as int,
                        j as int,
                        k,
                    )),
            decreases tids.len() - j,
        {
            let target = &targets[j];
            let ghost key = key_at(free, tids, i as int, j as int);
            assert(key == (target.id@, offer.id@));
            let already = contains_pair(&sent, &target.id, &offer.id);
            assert(pair_texts(sent@).contains(key) <==> (rec.contains(key) || seen_before(
                free,
                tids,
                i as int,
                j as int,
                key,
            )));
            assert(already == !fresh(rec, free, tids, i as int, j as int));
            proof {
                assert forall|k: (Seq<char>, Seq<char>)|
                    seen_before(free, tids, i as int, j + 1, k) == (seen_before(
                        free,
                        tids,
                        i as int,
                        j as int,
                        k,
                    ) || k == key) by {
                    lemma_seen_step(free, tids, i as int, j as int, k);
                }
            }
            let ghost sent_at_step = sent@;
            if !already {
                let ghost before_out = out@;
                let ghost before_sent = sent@;
                out.push(
                    Delivery {
                        target_index: j,
                        offer_index: i,
                        target_id: target.id.clone(),
                        offer_id: offer.id.clone(),
                        source: offer.source.clone(),
                        message: message.clone(),
                        ends_at: offer.ends_at.secs,
                    },
                );
                assert(delivery_models(out@) =~= delivery_models(before_out).push(
                    delivery_at(free, tids, i as int, j as int),
                ));
                sent.push((target.id.clone(), offer.id.clone()));
                assert(pair_texts(sent@) =~= pair_texts(before_sent).push(key));
                proof {
                    assert forall|k: (Seq<char>, Seq<char>)|
                        pair_texts(sent@).contains(k) == (pair_texts(before_sent).contains(k) || k
                            == key) by {
                        let ps = pair_texts(sent@);
                        let pb = pair_texts(before_sent);
                        if ps.contains(k) {
                            let n = choose|n: int| 0 <= n < ps.len() && ps[n] == k;
                            if n < pb.len() {
                                assert(pb[n] == k);
                            }
                        }
                        if pb.contains(k) {
                            let n = choose|n: int| 0 <= n < pb.len() && pb[n] == k;
                            assert(ps[n] == k);
                        }
                        if k == key {
                            assert(ps[pb.len() as int] == k);
                        }
                    }
                }
            }
            let next_j = j + 1;
            proof {
                assert forall|k: (Seq<char>, Seq<char>)|
                    #[trigger] pair_texts(sent@).contains(k) <==> (rec.contains(k) || seen_before(
                        free,
                        tids,
                        i as int,
                        next_j as int,
                        k,
                    )) by {
                    assert(pair_texts(sent_at_step).contains(k) <==> (rec.contains(k)
                        || seen_before(free, tids, i as int, j as int, k)));
                    assert(seen_before(free, tids, i as int, j + 1, k) == (seen_before(
                        free,
                        tids,
                        i as int,
                        j as int,
                        k,
                    ) || k == key));
                    if already {
                        assert(sent@ == sent_at_step);
                    }
                }
            }
            j = next_j;
        }
        let next_i = i + 1;
        proof {
            assert(j == tids.len());
            assert forall|k: (Seq<char>, Seq<char>)|
                #[trigger] pair_texts(sent@).contains(k) <==> (rec.contains(k) || seen_before(
                    free,
                    tids,
                    next_i as int,
                    0,
                    k,
                )) by {
                lemma_seen_row(free, tids, i as int, k);
                assert(pair_texts(sent@).contains(k) <==> (rec.contains(k) || seen_before(
                    free,
                    tids,
                    i as int,
                    j as int,
                    k,
                )));
            }
        }
        i = next_i;
    }
    out
}

/// The (target id, offer id) pair of a delivery.
pub open spec fn delivery_key(d: DeliveryModel) -> (Seq<char>, Seq<char>) {
    (d.target_id, d.offer_id)
}

/// Some delivery of the list has the pair `k`.
pub open spec fn delivers_key(ds: Seq<DeliveryModel>, k: (Seq<char>, Seq<char>)) -> bool {
    exists|m: int| 0 <= m < ds.len() && #[trigger] delivery_key(ds[m]) == k
}

/// (`i`, `j`) is the position of an offer and a target.
pub open spec fn valid_pos(free: Seq<OfferModel>, tids: Seq<Seq<char>>, i: int, j: int) -> bool {
    0 <= i < free.len() && 0 <= j < tids.len()
}

/// What holds of the announcements for the positions before (`i`, `j`).
pub open spec fn plan_facts(
    rec: Set<(Seq<char>, Seq<char>)>,
    free: Seq<OfferModel>,
    tids: Seq<Seq<char>>,
    i: int,
    j: int,
    p: Seq<DeliveryModel>,
) -> bool {
    &&& forall|m: int|
        0 <= m < p.len() ==> {
            let d = #[trigger] p[m];
            &&& valid_pos(free, tids, d.offer_index, d.target_index)
            &&& lex_before(d.offer_index, d.target_index, i, j)
            &&& d == delivery_at(free, tids, d.offer_index, d.target_index)
            &&& fresh(rec, free, tids, d.offer_index, d.target_index)
        }
    &&& forall|m1: int, m2: int|
        0 <= m1 < m2 < p.len() ==> lex_before(
            #[trigger] p[m1].offer_index,
            p[m1].target_index,
            #[trigger] p[m2].offer_index,
            p[m2].target_index,
        )
    &&& forall|i2: int, j2: int|
        valid_pos(free, tids, i2, j2) && lex_before(i2, j2, i, j) && #[trigger] fresh(
            rec,
            free,
            tids,
            i2,
            j2,
        ) ==> exists|m: int|
            0 <= m < p.len() && (#[trigger] p[m]).offer_index == i2 && p[m].target_index == j2
    &&& forall|i2: int, j2: int|
        valid_pos(free, tids, i2, j2) && lex_before(i2, j2, i, j) ==> rec.contains(
            #[trigger] key_at(free, tids, i2, j2),
        ) || delivers_key(p, key_at(free, tids, i2, j2))
}

proof fn lemma_plan_upto(
    rec: Set<(Seq<char>, Seq<char>)>,
    free: Seq<OfferModel>,
    tids: Seq<Seq<char>>,
    i: nat,
    j: nat,
)
    requires
        (i < free.len() && j <= tids.len()) || (i == free.len() && j == 0),
    ensures
        plan_facts(rec, free, tids, i as int, j as int, plan_upto(rec, free, tids, i, j)),
    decreases i, j,
{
    let p = plan_upto(rec, free, tids, i, j);
    if j == 0 {
        if i == 0 {
        } else {
            let q = plan_upto(rec, free, tids, (i - 1) as nat, tids.len());
            lemma_plan_upto(rec, free, tids, (i - 1) as nat, tids.len());
            assert(p == q);
            assert forall|m: int| 0 <= m < p.len() implies lex_before(
                (#[trigger] p[m]).offer_index,
                p[m].target_index,
                i as int,
                j as int,
            ) by {
                assert(lex_before(p[m].offer_index, p[m].target_index, i - 1, tids.len() as int));
            }
            assert forall|i2: int, j2: int|
                valid_pos(free, tids, i2, j2) && lex_before(i2, j2, i as int, j as int)
                    && #[trigger] fresh(rec, free, tids, i2, j2) implies exists|m: int|
                0 <= m < p.len() && (#[trigger] p[m]).offer_index == i2 && p[m].target_index
                    == j2 by {
                assert(lex_before(i2, j2, i - 1, tids.len() as int));
            }
            assert forall|i2: int, j2: int|
                valid_pos(free, tids, i2, j2) && lex_before(
                    i2,
                    j2,
                    i as int,
                    j as int,
                ) implies rec.contains(#[trigger] key_at(free, tids, i2, j2)) || delivers_key(
                p,
                key_at(free, tids, i2, j2),
            ) by {
                assert(lex_before(i2, j2, i - 1, tids.len() as int));
            }
        }
    } else {
        let jj = (j - 1) as nat;
        let q = plan_upto(rec, free, tids, i, jj);
        lemma_plan_upto(rec, free, tids, i, jj);
        let fr = fresh(rec, free, tids, i as int, jj as int);
        let d = delivery_at(free, tids, i as int, jj as int);
        if fr {
            assert(p == q.push(d));
        } else {
            assert(p == q);
        }
        assert forall|m: int| 0 <= m < p.len() implies {
            let e = #[trigger] p[m];
            &&& valid_pos(free, tids, e.offer_index, e.target_index)
            &&& lex_before(e.offer_index, e.target_index, i as int, j as int)
            &&& e == delivery_at(free, tids, e.offer_index, e.target_index)
            &&& fresh(rec, free, tids, e.offer_index, e.target_index)
        } by {
            if m < q.len() {
                assert(p[m] == q[m]);
            }
        }
        assert forall|m1: int, m2: int| 0 <= m1 < m2 < p.len() implies lex_before(
            #[trigger] p[m1].offer_index,
            p[m1].target_index,
            #[trigger] p[m2].offer_index,
            p[m2].target_index,
        ) by {
            assert(p[m1] == q[m1]);
            if m2 < q.len() {
                assert(p[m2] == q[m2]);
            } else {
                assert(lex_before(q[m1].offer_index, q[m1].target_index, i as int, jj as int));
            }
        }
        assert forall|i2: int, j2: int|
            valid_pos(free, tids, i2, j2) && lex_before(i2, j2, i as int, j as int)
                && #[trigger] fresh(rec, free, tids, i2, j2) implies exists|m: int|
            0 <= m < p.len() && (#[trigger] p[m]).offer_index == i2 && p[m].target_index == j2 by {
            if i2 == i && j2 == jj {
                assert(p[q.len() as int] == d);
            } else {
                assert(lex_before(i2, j2, i as int, jj as int));
                let m = choose|m: int|
                    0 <= m < q.len() && (#[trigger] q[m]).offer_index == i2 && q[m].target_index
                        == j2;
                assert(p[m] == q[m]);
            }
        }
        assert forall|i2: int, j2: int|
            valid_pos(free, tids, i2, j2) && lex_before(
                i2,
                j2,
                i as int,
                j as int,
            ) implies rec.contains(#[trigger] key_at(free, tids, i2, j2)) || delivers_key(
            p,
            key_at(free, tids, i2, j2),
        ) by {
            let k = key_at(free, tids, i2, j2);
            if i2 == i && j2 == jj {
                if fr {
                    assert(delivery_key(p[q.len() as int]) == k);
                } else if !rec.contains(k) {
                    assert(seen_before(free, tids, i as int, jj as int, k));
                    let (i3, j3) = choose|i3: int, j3: int|
                        0 <= i3 < free.len() && 0 <= j3 < tids.len() && lex_before(
                            i3,
                            j3,
                            i as int,
                            jj as int,
                        ) && #[trigger] key_at(free, tids, i3, j3) == k;
                    assert(valid_pos(free, tids, i3, j3));
                    assert(rec.contains(key_at(free, tids, i3, j3)) || delivers_key(
                        q,
                        key_at(free, tids, i3, j3),
                    ));
                    let m = choose|m: int| 0 <= m < q.len() && #[trigger] delivery_key(q[m]) == k;
                    assert(p[m] == q[m]);
                }
            } else {
                assert(lex_before(i2, j2, i as int, jj as int));
                if !rec.contains(k) {
                    let m = choose|m: int| 0 <= m < q.len() && #[trigger] delivery_key(q[m]) == k;
                    assert(p[m] == q[m]);
                }
            }
        }
    }
}

/// The announcements of a run are exactly the positions (offer, target) whose
/// pair is neither recorded nor met earlier, each with the notice of its offer,
/// in offer-major order; and every position's pair ends up recorded or
/// announced.
pub proof fn law_plan_characterized(
    rec: Set<(Seq<char>, Seq<char>)>,
    free: Seq<OfferModel>,
    tids: Seq<Seq<char>>,
)
    ensures
        plan_facts(rec, free, tids, free.len() as int, 0, plan(rec, free, tids)),
{
    lemma_plan_upto(rec, free, tids, free.len(), 0);
}

/// No (target, offer id) pair is announced twice in one run.
pub proof fn law_each_pair_announced_once(
    rec: Set<(Seq<char>, Seq<char>)>,
    free: Seq<OfferModel>,
    tids: Seq<Seq<char>>,
)
    ensures
        forall|m1: int, m2: int|
            0 <= m1 < plan(rec, free, tids).len() && 0 <= m2 < plan(rec, free, tids).len() && m1
                != m2 ==> #[trigger] delivery_key(plan(rec, free, tids)[m1]) != #[trigger] delivery_key(
                plan(rec, free, tids)[m2],
            ),
{
    let p = plan(rec, free, tids);
    lemma_plan_upto(rec, free, tids, free.len(), 0);
    assert forall|m1: int, m2: int|
        0 <= m1 < p.len() && 0 <= m2 < p.len() && m1 != m2 implies #[trigger] delivery_key(p[m1])
        != #[trigger] delivery_key(p[m2]) by {
        let (a, b) = if m1 < m2 {
            (m1, m2)
        } else {
            (m2, m1)
        };
        let da = p[a];
        let db = p[b];
        assert(lex_before(da.offer_index, da.target_index, db.offer_index, db.target_index));
        assert(fresh(rec, free, tids, db.offer_index, db.target_index));
        assert(delivery_key(da) == key_at(free, tids, da.offer_index, da.target_index));
        assert(delivery_key(db) == key_at(free, tids, db.offer_index, db.target_index));
        if delivery_key(da) == delivery_key(db) {
            assert(seen_before(
                free,
                tids,
                db.offer_index,
                db.target_index,
                key_at(free, tids, db.offer_index, db.target_index),
            ));
        }
    }
}

/// No pair that the store already records is announced again.
pub proof fn law_recorded_pairs_not_announced(
    rec: Set<(Seq<char>, Seq<char>)>,
    free: Seq<OfferModel>,
    tids: Seq<Seq<char>>,
)
    ensures
        forall|m: int|
            0 <= m < plan(rec, free, tids).len() ==> !rec.contains(
                delivery_key(#[trigger] plan(rec, free, tids)[m]),
            ),
{
    let p = plan(rec, free, tids);
    lemma_plan_upto(rec, free, tids, free.len(), 0);
    assert forall|m: int| 0 <= m < p.len() implies !rec.contains(delivery_key(#[trigger] p[m])) by {
        let d = p[m];
        assert(fresh(rec, free, tids, d.offer_index, d.target_index));
        assert(delivery_key(d) == key_at(free, tids, d.offer_index, d.target_index));
    }
}

/// After a run, every free offer has reached every target: its pair was
/// recorded before or is announced now.
pub proof fn law_every_pair_covered(
    rec: Set<(Seq<char>, Seq<char>)>,
    free: Seq<OfferModel>,
    tids: Seq<Seq<char>>,
)
    ensures
        forall|i: int, j: int|
            valid_pos(free, tids, i, j) ==> rec.contains(#[trigger] key_at(free, tids, i, j))
                || delivers_key(plan(rec, free, tids), key_at(free, tids, i, j)),
{
    lemma_plan_upto(rec, free, tids, free.len(), 0);
    assert forall|i: int, j: int| valid_pos(free, tids, i, j) implies rec.contains(
        #[trigger] key_at(free, tids, i, j),
    ) || delivers_key(plan(rec, free, tids), key_at(free, tids, i, j)) by {
        assert(lex_before(i, j, free.len() as int, 0));
    }
}

/// A target for which nothing is recorded gets every free offer.
pub proof fn law_unrecorded_target_gets_every_offer(
    rec: Set<(Seq<char>, Seq<char>)>,
    free: Seq<OfferModel>,
    tids: Seq<Seq<char>>,
    j: int,
)
    requires
        0 <= j < tids.len(),
        forall|id: Seq<char>| !rec.contains((tids[j], id)),
    ensures
        forall|i: int|
            0 <= i < free.len() ==> delivers_key(
                plan(rec, free, tids),
                #[trigger] key_at(free, tids, i, j),
            ),
{
    law_every_pair_covered(rec, free, tids);
    assert forall|i: int| 0 <= i < free.len() implies delivers_key(
        plan(rec, free, tids),
        #[trigger] key_at(free, tids, i, j),
    ) by {
        assert(valid_pos(free, tids, i, j));
        assert(!rec.contains((tids[j], free[i].id)));
    }
}

proof fn lemma_free_offers_source(os: Seq<epic::Offer>, now: UtcTime, existing: Seq<Seq<char>>)
    ensures
        forall|m: int|
            0 <= m < free_offers(os, now, existing).len() ==> (#[trigger] free_offers(
                os,
                now,
                existing,
            )[m]).source == epic::SOURCE@,
    decreases os.len(),
{
    if os.len() > 0 {
        lemma_free_offers_source(os.drop_last(), now, existing);
        let rest = free_offers(os.drop_last(), now, existing);
        let all = free_offers(os, now, existing);
        assert forall|m: int| 0 <= m < all.len() implies (#[trigger] all[m]).source
            == epic::SOURCE@ by {
            if m < rest.len() {
                assert(all[m] == rest[m]);
            }
        }
    }
}

/// Once the announcements of a run are recorded, a second run over the same
/// feed, at the same time and with the same targets, announces nothing.
pub proof fn law_rerun_announces_nothing(
    elements: Seq<epic::Offer>,
    now: UtcTime,
    existing: Seq<ExistingOfferModel>,
    tids: Seq<Seq<char>>,
)
    ensures
        ({
            let free = free_offers(elements, now, Seq::empty());
            let first = plan(recorded_keys(existing), free, tids);
            plan(recorded_keys(existing + records_of(first)), free, tids).len() == 0
        }),
{
    let free = free_offers(elements, now, Seq::empty());
    let rec = recorded_keys(existing);
    let first = plan(rec, free, tids);
    let all = existing + records_of(first);
    let rec2 = recorded_keys(all);
    lemma_free_offers_source(elements, now, Seq::empty());
    law_every_pair_covered(rec, free, tids);
    lemma_plan_upto(rec, free, tids, free.len(), 0);
    assert forall|i: int, j: int| valid_pos(free, tids, i, j) implies rec2.contains(
        #[trigger] key_at(free, tids, i, j),
    ) by {
        let k = key_at(free, tids, i, j);
        if rec.contains(k) {
            let m = choose|m: int|
                0 <= m < existing.len() && #[trigger] existing[m].source == epic::SOURCE@ && k == (
                    existing[m].target_id,
                    existing[m].id,
                );
            assert(all[m] == existing[m]);
        } else {
            let m = choose|m: int| 0 <= m < first.len() && #[trigger] delivery_key(first[m]) == k;
            let d = first[m];
            assert(d == delivery_at(free, tids, d.offer_index, d.target_index));
            assert(all[existing.len() + m] == record_of(d));
            assert(all[existing.len() + m].source == epic::SOURCE@);
        }
    }
    let second = plan(rec2, free, tids);
    lemma_plan_upto(rec2, free, tids, free.len(), 0);
    if second.len() > 0 {
        let d = second[0];
        assert(fresh(rec2, free, tids, d.offer_index, d.target_index));
        assert(valid_pos(free, tids, d.offer_index, d.target_index));
    }
}

/// Once the announcements of a run are recorded, a later run over the same
/// feed at the same time announces nothing to any of the same targets, however
/// the targets are listed (a subset, another order, repeated ids).
pub proof fn law_rerun_to_known_targets_announces_nothing(
    elements: Seq<epic::Offer>,
    now: UtcTime,
    existing: Seq<ExistingOfferModel>,
    tids: Seq<Seq<char>>,
    tids2: Seq<Seq<char>>,
)
    requires
        forall|j2: int| 0 <= j2 < tids2.len() ==> tids.contains(#[trigger] tids2[j2]),
    ensures
        ({
            let free = free_offers(elements, now, Seq::empty());
            let first = plan(recorded_keys(existing), free, tids);
            plan(recorded_keys(existing + records_of(first)), free, tids2).len() == 0
        }),
{
    let free = free_offers(elements, now, Seq::empty());
    let rec = recorded_keys(existing);
    let first = plan(rec, free, tids);
    let all = existing + records_of(first);
    let rec2 = recorded_keys(all);
    lemma_free_offers_source(elements, now, Seq::empty());
    law_every_pair_covered(rec, free, tids);
    lemma_plan_upto(rec, free, tids, free.len(), 0);
    assert forall|i: int, j2: int| valid_pos(free, tids2, i, j2) implies rec2.contains(
        #[trigger] key_at(free, tids2, i, j2),
    ) by {
        let j = choose|j: int| 0 <= j < tids.len() && tids[j] == tids2[j2];
        assert(valid_pos(free, tids, i, j));
        let k = key_at(free, tids, i, j);
        assert(k == key_at(free, tids2, i, j2));
        if rec.contains(k) {
            let m = choose|m: int|
                0 <= m < existing.len() && #[trigger] existing[m].source == epic::SOURCE@ && k == (
                    existing[m].target_id,
                    existing[m].id,
                );
            assert(all[m] == existing[m]);
        } else {
            let m = choose|m: int| 0 <= m < first.len() && #[trigger] delivery_key(first[m]) == k;
            let d = first[m];
            assert(d == delivery_at(free, tids, d.offer_index, d.target_index));
            assert(all[existing.len() + m] == record_of(d));
            assert(all[existing.len() + m].source == epic::SOURCE@);
        }
    }
    let second = plan(rec2, free, tids2);
    lemma_plan_upto(rec2, free, tids2, free.len(), 0);
    if second.len() > 0 {
        let d = second[0];
        assert(fresh(rec2, free, tids2, d.offer_index, d.target_index));
        assert(valid_pos(free, tids2, d.offer_index, d.target_index));
    }
}

/// Every delivery carries the notice of its offer, whatever its target: the
/// offer's title, source, end and link, for the target at its index and the
/// offer at its index.
pub proof fn law_delivery_carries_offer_notice(
    rec: Set<(Seq<char>, Seq<char>)>,
    free: Seq<OfferModel>,
    tids: Seq<Seq<char>>,
)
    ensures
        forall|m: int|
            0 <= m < plan(rec, free, tids).len() ==> {
                let d = #[trigger] plan(rec, free, tids)[m];
                let f = free[d.offer_index];
                &&& 0 <= d.offer_index < free.len()
                &&& 0 <= d.target_index < tids.len()
                &&& d.target_id == tids[d.target_index]
                &&& d.offer_id == f.id
                &&& d.source == f.source
                &&& d.ends_at == f.ends_at.secs
                &&& d.message == notice_text(f.title, f.source, f.ends_at.secs as int, f.link)
            },
{
    lemma_plan_upto(rec, free, tids, free.len(), 0);
    let p = plan(rec, free, tids);
    assert forall|m: int| 0 <= m < p.len() implies {
        let d = #[trigger] p[m];
        let f = free[d.offer_index];
        &&& 0 <= d.offer_index < free.len()
        &&& 0 <= d.target_index < tids.len()
        &&& d.target_id == tids[d.target_index]
        &&& d.offer_id == f.id
        &&& d.source == f.source
        &&& d.ends_at == f.ends_at.secs
        &&& d.message == notice_text(f.title, f.source, f.ends_at.secs as int, f.link)
    } by {
        let d = p[m];
        assert(d == delivery_at(free, tids, d.offer_index, d.target_index));
    }
}

/// One announcement of the single-channel run: send `message`, then record
/// the offer.
pub struct Notice {
    pub offer_id: String,
    pub message: String,
    pub ends_at: i64,
}

/// The contents of a [`Notice`].
pub struct NoticeModel {
    pub offer_id: Seq<char>,
    pub message: Seq<char>,
    pub ends_at: int,
}

impl View for Notice {
    type V = NoticeModel;

    open spec fn view(&self) -> NoticeModel {
        NoticeModel { offer_id: self.offer_id@, message: self.message@, ends_at: self.ends_at as int }
    }
}

impl Notice {
    /// The record that this notice leaves in the offer store: the offer, for
    /// the target `default` and this store's source.
    pub fn record(&self) -> (r: ExistingOffer)
        ensures
            r@ == (ExistingOfferModel {
                target_id: "default"@,
                id: self.offer_id@,
                source: epic::SOURCE@,
                ends_at: self.ends_at as int,
            }),
    {
        ExistingOffer {
            target_id: String::from_str("default"),
            id: self.offer_id.clone(),
            source: String::from_str(epic::SOURCE),
            ends_at: self.ends_at,
        }
    }
}

/// The contents of a list of notices.
pub open spec fn notice_models(v: Seq<Notice>) -> Seq<NoticeModel> {
    v.map_values(|n: Notice| n@)
}

/// The notice for a catalog element in the single-channel run: the element must
/// be free at `now`, its id not recorded, and it must have a product slug.
pub open spec fn epic_notice_of(o: epic::Offer, now: UtcTime, ids: Seq<Seq<char>>) -> Option<
    NoticeModel,
> {
    match free_promo_end(o, now) {
        None => None,
        Some(end) => if ids.contains(o.id@) {
            None
        } else {
            match opt_text(o.product_slug) {
                None => None,
                Some(slug) => Some(
                    NoticeModel {
                        offer_id: o.id@,
                        message: notice_text(
                            o.title@,
                            epic::SOURCE@,
                            end.secs as int,
                            link_for(slug, offer_is_bundle(o)),
                        ),
                        ends_at: end.secs as int,
                    },
                ),
            }
        },
    }
}

/// The notices of the single-channel run, in feed order.
pub open spec fn epic_notices(os: Seq<epic::Offer>, now: UtcTime, ids: Seq<Seq<char>>) -> Seq<
    NoticeModel,
>
    decreases os.len(),
{
    if os.len() == 0 {
        Seq::empty()
    } else {
        let rest = epic_notices(os.drop_last(), now, ids);
        match epic_notice_of(os.last(), now, ids) {
            Some(n) => rest.push(n),
            None => rest,
        }
    }
}

fn is_recorded(existing: &Vec<ExistingOffer>, id: &String) -> (r: bool)
    ensures
        r == recorded_ids(existing_models(existing@)).contains(id@),
{
    let ghost ids = recorded_ids(existing_models(existing@));
    let mut i: usize = 0;
    while i < existing.len()
        invariant
            i <= existing@.len(),
            ids == recorded_ids(existing_models(existing@)),
            forall|m: int| 0 <= m < i ==> ids[m] != id@,
        decreases existing@.len() - i,
    {
        if existing[i].id == *id {
            assert(ids[i as int] == id@);
            return true;
        }
        i = i + 1;
    }
    false
}

fn epic_notice(o: &epic::Offer, now: UtcTime, existing: &Vec<ExistingOffer>) -> (r: Option<Notice>)
    ensures
        (match r {
            Some(n) => Some(n@),
            None => None,
        }) == epic_notice_of(*o, now, recorded_ids(existing_models(existing@))),
{
    let ends_at = match free_promo_ends_at(o, now) {
        Some(t) => t,
        None => {
            return None;
        },
    };
    if is_recorded(existing, &o.id) {
        return None;
    }
    let bundle = is_bundle(o);
    let link = match &o.product_slug {
        Some(slug) => store_link(slug.as_str(), bundle),
        None => {
            return None;
        },
    };
    let message = notice_message(o.title.as_str(), epic::SOURCE, ends_at.secs, link.as_str());
    Some(Notice { offer_id: o.id.clone(), message, ends_at: ends_at.secs })
}

/// Decides the announcements of a run with a single channel: every element of
/// the feed that is free at `now`, whose id the store does not record and that
/// has a product slug, in feed order. The caller sends each notice and records
/// its offer, in order, and stops at the first failure.
pub fn handle_epic(now: UtcTime, response: &EpicResponse, existing_offers: &Vec<ExistingOffer>) -> (r:
    Vec<Notice>)
    ensures
        notice_models(r@) == epic_notices(
            response.data.catalog.search_store.elements@,
            now,
            recorded_ids(existing_models(existing_offers@)),
        ),
{
    let elements = &response.data.catalog.search_store.elements;
    let ghost ids = recorded_ids(existing_models(existing_offers@));
    let mut out: Vec<Notice> = Vec::new();
    let mut i: usize = 0;
    while i < elements.len()
        invariant
            i <= elements@.len(),
            ids == recorded_ids(existing_models(existing_offers@)),
            notice_models(out@) == epic_notices(elements@.take(i as int), now, ids),
        decreases elements@.len() - i,
    {
        assert(elements@.take(i + 1).drop_last() =~= elements@.take(i as int));
        assert(elements@.take(i + 1).last() == elements@[i as int]);
        let found = epic_notice(&elements[i], now, existing_offers);
        let ghost before = out@;
        match found {
            Some(n) => {
                out.push(n);
                assert(notice_models(out@) =~= notice_models(before).push(n@));
            },
            None => {},
        }
        i = i + 1;
    }
    assert(elements@.take(i as int) =~= elements@);
    out
}

/// The offer ids of a list of notices.
pub open spec fn notice_ids(ns: Seq<NoticeModel>) -> Seq<Seq<char>> {
    ns.map_values(|n: NoticeModel| n.offer_id)
}

proof fn lemma_epic_notices_covered(
    os: Seq<epic::Offer>,
    now: UtcTime,
    ids: Seq<Seq<char>>,
    ids2: Seq<Seq<char>>,
)
    requires
        forall|x: Seq<char>| ids.contains(x) ==> ids2.contains(x),
        forall|m: int|
            0 <= m < epic_notices(os, now, ids).len() ==> ids2.contains(
                (#[trigger] epic_notices(os, now, ids)[m]).offer_id,
            ),
    ensures
        epic_notices(os, now, ids2).len() == 0,
    decreases os.len(),
{
    if os.len() > 0 {
        let init = os.drop_last();
        let first = epic_notices(init, now, ids);
        let all = epic_notices(os, now, ids);
        assert forall|m: int| 0 <= m < first.len() implies ids2.contains(
            (#[trigger] first[m]).offer_id,
        ) by {
            assert(all[m] == first[m]);
        }
        lemma_epic_notices_covered(init, now, ids, ids2);
        match epic_notice_of(os.last(), now, ids) {
            Some(n) => {
                assert(all[first.len() as int] == n);
            },
            None => {},
        }
    }
}

/// Once the notices of a single-channel run are recorded, a second run over
/// the same feed at the same time announces nothing.
pub proof fn law_epic_rerun_announces_nothing(
    elements: Seq<epic::Offer>,
    now: UtcTime,
    ids: Seq<Seq<char>>,
)
    ensures
        epic_notices(elements, now, ids + notice_ids(epic_notices(elements, now, ids))).len()
            == 0,
{
    let first = epic_notices(elements, now, ids);
    let ids2 = ids + notice_ids(first);
    assert forall|x: Seq<char>| ids.contains(x) implies ids2.contains(x) by {
        let m = choose|m: int| 0 <= m < ids.len() && ids[m] == x;
        assert(ids2[m] == x);
    }
    assert forall|m: int| 0 <= m < first.len() implies ids2.contains(
        (#[trigger] first[m]).offer_id,
    ) by {
        assert(ids2[ids.len() + m] == first[m].offer_id);
    }
    lemma_epic_notices_covered(elements, now, ids, ids2);
}

/// The notice `n` announces the element `o`: same id, `o` is free at `now`
/// until the notice's end, its id is not recorded, it has a product slug, and
/// the message ends with the bundle page of that slug for an element marked as
/// a bundle, with its product page otherwise.
pub open spec fn notice_announces(n: NoticeModel, o: epic::Offer, now: UtcTime, ids: Seq<Seq<char>>) -> bool {
    &&& n.offer_id == o.id@
    &&& !ids.contains(o.id@)
    &&& free_promo_end(o, now) is Some
    &&& n.ends_at == free_promo_end(o, now)->0.secs
    &&& o.product_slug is Some
    &&& marked_bundle(o) ==> ends_with(
        n.message,
        "https://store.epicgames.com/en-US/bundles/"@ + o.product_slug->0@,
    )
    &&& !marked_bundle(o) ==> ends_with(
        n.message,
        "https://www.epicgames.com/store/en-US/p/"@ + o.product_slug->0@,
    )
}

/// Every notice of the single-channel run announces an element of the feed;
/// its message ends with the bundle page exactly when the element is marked as
/// a bundle.
pub proof fn law_epic_notice_links(os: Seq<epic::Offer>, now: UtcTime, ids: Seq<Seq<char>>)
    ensures
        forall|m: int|
            0 <= m < epic_notices(os, now, ids).len() ==> exists|i: int|
                0 <= i < os.len() && notice_announces(
                    #[trigger] epic_notices(os, now, ids)[m],
                    #[trigger] os[i],
                    now,
                    ids,
                ),
    decreases os.len(),
{
    if os.len() > 0 {
        let init = os.drop_last();
        law_epic_notice_links(init, now, ids);
        let rest = epic_notices(init, now, ids);
        let all = epic_notices(os, now, ids);
        assert forall|m: int| 0 <= m < all.len() implies exists|i: int|
            0 <= i < os.len() && notice_announces(#[trigger] all[m], #[trigger] os[i], now, ids) by {
            if m < rest.len() {
                assert(all[m] == rest[m]);
                let i = choose|i: int|
                    0 <= i < init.len() && notice_announces(
                        #[trigger] rest[m],
                        #[trigger] init[i],
                        now,
                        ids,
                    );
                assert(os[i] == init[i]);
            } else {
                let i = os.len() - 1;
                let o = os[i];
                assert(o == os.last());
                let n = all[m];
                let slug = o.product_slug->0@;
                let end = free_promo_end(o, now)->0;
                let link = link_for(slug, offer_is_bundle(o));
                let pre = "**"@ + o.title@ + "** is now free on "@ + epic::SOURCE@ + "! Ends <t:"@
                    + crate::text::decimal(end.secs as int) + ":R>\n"@;
                assert(n.message == pre + link);
                assert((pre + link).subrange(
                    (pre + link).len() - link.len(),
                    (pre + link).len() as int,
                ) =~= link);
                assert(marked_bundle(o) == offer_is_bundle(o));
                assert(notice_announces(n, o, now, ids));
            }
        }
    }
}

} // verus!
