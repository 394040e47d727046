//! The fee repository: creation, deletion, enumeration and temporal lookup
//! of fee schedules, enforcing the non-overlap invariant at creation time.

use vstd::prelude::*;

use crate::datetime::{fields_of_text, is_timestamp_text, parse_timestamp, DateTime};
use crate::store::{fees_wf, Amount, Store, StoreError};

verus! {

/// A priced billing term valid over the closed date interval
/// `[date_start, date_end]`.
#[derive(Clone, Copy, PartialEq, Eq, Structural, Debug)]
pub struct Fee {
    pub id: u64,
    pub base_fee: Amount,
    pub price_per_unit: Amount,
    pub monthly_discount: Amount,
    pub date_start: DateTime,
    pub date_end: DateTime,
}

/// Caller-supplied primitives for creating a fee schedule; the timestamps
/// arrive as text in the storage pattern.
#[derive(Debug)]
pub struct CreateFeeParams {
    pub base_fee: Amount,
    pub price_per_unit: Amount,
    pub monthly_discount: Amount,
    pub date_start: String,
    pub date_end: String,
}

/// The interval-intersection test: the closed ranges `[s1, e1]` and
/// `[s2, e2]` share at least one point in time.
pub open spec fn ranges_intersect(s1: DateTime, e1: DateTime, s2: DateTime, e2: DateTime) -> bool {
    s1.key() <= e2.key() && s2.key() <= e1.key()
}

/// Some persisted fee schedule's range intersects `[s, e]`.
pub open spec fn fee_conflict(fees: Seq<Fee>, s: DateTime, e: DateTime) -> bool {
    exists|i: int|
        0 <= i < fees.len() && ranges_intersect(
            (#[trigger] fees[i]).date_start,
            fees[i].date_end,
            s,
            e,
        )
}

/// The predicate `Fee::delete` keeps rows by: every fee whose id differs.
pub open spec fn keep_other_ids(id: u64) -> spec_fn(Fee) -> bool {
    |f: Fee| f.id != id
}

impl Fee {
    /// Create a fee schedule. Rejects malformed timestamps and any date
    /// range that intersects a persisted schedule; otherwise persists a new
    /// row under the next store-assigned id and returns it.
    #[verifier::rlimit(100)]
    pub fn create(store: &mut Store, params: CreateFeeParams) -> (r: Result<Fee, StoreError>)
        requires
            old(store).wf(),
            old(store).next_fee_id < u64::MAX,
        ensures
            final(store).wf(),
            final(store).readings@ == old(store).readings@,
            final(store).next_reading_id == old(store).next_reading_id,
            r is Err ==> final(store).fees@ == old(store).fees@ && final(store).next_fee_id == old(
                store,
            ).next_fee_id,
            !is_timestamp_text(params.date_start@) <==> r == Err::<Fee, StoreError>(
                StoreError::InvalidDateStart,
            ),
            is_timestamp_text(params.date_start@) ==> (!is_timestamp_text(params.date_end@) <==> r
                == Err::<Fee, StoreError>(StoreError::InvalidDateEnd)),
            is_timestamp_text(params.date_start@) && is_timestamp_text(params.date_end@) ==> ({
                let ns = fields_of_text(params.date_start@);
                let ne = fields_of_text(params.date_end@);
                &&& (fee_conflict(old(store).fees@, ns, ne) <==> r == Err::<Fee, StoreError>(
                    StoreError::DateRangeConflict,
                ))
                &&& !fee_conflict(old(store).fees@, ns, ne) ==> {
                    &&& r is Ok
                    &&& r->Ok_0 == (Fee {
                        id: old(store).next_fee_id,
                        base_fee: params.base_fee,
                        price_per_unit: params.price_per_unit,
                        monthly_discount: params.monthly_discount,
                        date_start: ns,
                        date_end: ne,
                    })
                    &&& final(store).fees@ == old(store).fees@.push(r->Ok_0)
                    &&& final(store).next_fee_id == old(store).next_fee_id + 1
                }
            }),
    {
        let ds = match parse_timestamp(params.date_start.as_str()) {
            Ok(d) => d,
            Err(_) => {
                return Err(StoreError::InvalidDateStart);
            },
        };
        let de = match parse_timestamp(params.date_end.as_str()) {
            Ok(d) => d,
            Err(_) => {
                return Err(StoreError::InvalidDateEnd);
            },
        };
        let len = store.fees.len();
        let mut i: usize = 0;
        while i < len
            invariant
                old(store).wf(),
                *store == *old(store),
                len == store.fees@.len(),
                i <= len,
                is_timestamp_text(params.date_start@),
                is_timestamp_text(params.date_end@),
                ds == fields_of_text(params.date_start@),
                de == fields_of_text(params.date_end@),
                ds.valid(),
                de.valid(),
                forall|k: int|
                    0 <= k < i ==> !ranges_intersect(
                        (#[trigger] store.fees@[k]).date_start,
                        store.fees@[k].date_end,
                        ds,
                        de,
                    ),
            decreases len - i,
        {
            let f = store.fees[i];
            if f.date_start.le(&de) && ds.le(&f.date_end) {
                proof {
                    assert(ranges_intersect(store.fees@[i as int].date_start,
                        store.fees@[i as int].date_end, ds, de));
                    assert(fee_conflict(store.fees@, ds, de));
                }
                return Err(StoreError::DateRangeConflict);
            }
            i += 1;
        }
        proof {
            assert(!fee_conflict(store.fees@, ds, de));
        }
        let fee = Fee {
            id: store.next_fee_id,
            base_fee: params.base_fee,
            price_per_unit: params.price_per_unit,
            monthly_discount: params.monthly_discount,
            date_start: ds,
            date_end: de,
        };
        store.fees.push(fee);
        store.next_fee_id = store.next_fee_id + 1;
        proof {
            let fees1 = store.fees@;
            assert forall|a: int| 0 <= a < fees1.len() implies (
            #[trigger] fees1[a]).date_start.valid() && fees1[a].date_end.valid() && 1 <= fees1[a].id
                < store.next_fee_id by {
                if a < fees1.len() - 1 {
                    assert(fees1[a] == old(store).fees@[a]);
                }
            }
            assert forall|a: int, b: int| 0 <= a < b < fees1.len() implies (
            #[trigger] fees1[a]).id < (#[trigger] fees1[b]).id by {
                if b == fees1.len() - 1 {
                    assert(fees1[a] == old(store).fees@[a]);
                }
            }
            assert forall|a: int, b: int| 0 <= a < b < fees1.len() implies !ranges_intersect(
                (#[trigger] fees1[a]).date_start,
                fees1[a].date_end,
                (#[trigger] fees1[b]).date_start,
                fees1[b].date_end,
            ) by {
                if b == fees1.len() - 1 {
                    assert(fees1[a] == old(store).fees@[a]);
                }
            }
        }
        Ok(fee)
    }

    /// Temporal lookup with the interval-intersection test. Returns `None`
    /// on malformed timestamps or when no persisted range intersects
    /// `[date_start, date_end]`; otherwise the intersecting schedule with
    /// the largest store-assigned id.
    pub fn find_in_time_range(store: &Store, date_start: String, date_end: String) -> (r: Option<
        Fee,
    >)
        requires
            store.wf(),
        ensures
            !is_timestamp_text(date_start@) || !is_timestamp_text(date_end@) ==> r is None,
            is_timestamp_text(date_start@) && is_timestamp_text(date_end@) ==> ({
                let qs = fields_of_text(date_start@);
                let qe = fields_of_text(date_end@);
                &&& (r is Some <==> fee_conflict(store.fees@, qs, qe))
                &&& r is Some ==> exists|i: int|
                    0 <= i < store.fees@.len() && store.fees@[i] == r->0
                &&& r is Some ==> ranges_intersect(r->0.date_start, r->0.date_end, qs, qe)
                &&& r is Some ==> forall|j: int|
                    0 <= j < store.fees@.len() && ranges_intersect(
                        (#[trigger] store.fees@[j]).date_start,
                        store.fees@[j].date_end,
                        qs,
                        qe,
                    ) ==> store.fees@[j].id <= r->0.id
            }),
    {
        let qs = match parse_timestamp(date_start.as_str()) {
            Ok(d) => d,
            Err(_) => {
                return None;
            },
        };
        let qe = match parse_timestamp(date_end.as_str()) {
            Ok(d) => d,
            Err(_) => {
                return None;
            },
        };
        let len = store.fees.len();
        let mut j = len;
        while j > 0
            invariant
                store.wf(),
                len == store.fees@.len(),
                j <= len,
                is_timestamp_text(date_start@),
                is_timestamp_text(date_end@),
                qs == fields_of_text(date_start@),
                qe == fields_of_text(date_end@),
                qs.valid(),
                qe.valid(),
                forall|k: int|
                    j <= k < len ==> !ranges_intersect(
                        (#[trigger] store.fees@[k]).date_start,
                        store.fees@[k].date_end,
                        qs,
                        qe,
                    ),
            decreases j,
        {
            j -= 1;
            let f = store.fees[j];
            if f.date_start.le(&qe) && qs.le(&f.date_end) {
                proof {
                    assert(ranges_intersect(store.fees@[j as int].date_start,
                        store.fees@[j as int].date_end, qs, qe));
                    assert(fee_conflict(store.fees@, qs, qe));
                    assert forall|k: int|
                        0 <= k < len && ranges_intersect(
                            (#[trigger] store.fees@[k]).date_start,
                            store.fees@[k].date_end,
                            qs,
                            qe,
                        ) implies store.fees@[k].id <= store.fees@[j as int].id by {
                        assert(k <= j as int);
                    }
                }
                return Some(f);
            }
        }
        proof {
            assert(!fee_conflict(store.fees@, qs, qe));
        }
        None
    }

    /// Delete by id: removes the fee schedule with the given id if one is
    /// persisted, and otherwise changes nothing. Never an error.
    pub fn delete(store: &mut Store, id: u64)
        requires
            old(store).wf(),
        ensures
            final(store).wf(),
            final(store).fees@ == old(store).fees@.filter(keep_other_ids(id)),
            final(store).readings@ == old(store).readings@,
            final(store).next_fee_id == old(store).next_fee_id,
            final(store).next_reading_id == old(store).next_reading_id,
    {
        let mut out: Vec<Fee> = Vec::new();
        let len = store.fees.len();
        let mut i: usize = 0;
        while i < len
            invariant
                old(store).wf(),
                *store == *old(store),
                len == store.fees@.len(),
                i <= len,
                out@ == store.fees@.take(i as int).filter(keep_other_ids(id)),
            decreases len - i,
        {
            let f = store.fees[i];
            proof {
                reveal(Seq::filter);
                let p = keep_other_ids(id);
                let pre = store.fees@.take(i as int);
                let cur = store.fees@.take(i as int + 1);
                assert(cur.drop_last() =~= pre);
                assert(cur.last() == f);
                assert(p(f) == (f.id != id));
                if f.id != id {
                    assert(cur.filter(p) == pre.filter(p).push(f));
                } else {
                    assert(cur.filter(p) == pre.filter(p));
                }
            }
            if f.id != id {
                out.push(f);
            }
            i += 1;
        }
        proof {
            assert(store.fees@.take(len as int) =~= store.fees@);
            lemma_filter_keeps_fees_wf(store.fees@, store.next_fee_id, keep_other_ids(id));
        }
        store.fees = out;
    }

    /// Enumerate all persisted fee schedules in storage order.
    pub fn list(store: &Store) -> (r: Vec<Fee>)
        ensures
            r@ == store.fees@,
    {
        let mut out: Vec<Fee> = Vec::new();
        let len = store.fees.len();
        let mut i: usize = 0;
        while i < len
            invariant
                len == store.fees@.len(),
                i <= len,
                out@ == store.fees@.take(i as int),
            decreases len - i,
        {
            out.push(store.fees[i]);
            proof {
                assert(out@ =~= store.fees@.take(i + 1));
            }
            i += 1;
        }
        proof {
            assert(store.fees@.take(len as int) =~= store.fees@);
        }
        out
    }
}

/// Filtering the fee table preserves its invariant, and every kept row was
/// a persisted row.
pub proof fn lemma_filter_keeps_fees_wf(fees: Seq<Fee>, next: u64, p: spec_fn(Fee) -> bool)
    requires
        fees_wf(fees, next),
    ensures
        fees_wf(fees.filter(p), next),
        forall|k: int|
            0 <= k < fees.filter(p).len() ==> fees.contains(#[trigger] fees.filter(p)[k]),
    decreases fees.len(),
{
    reveal(Seq::filter);
    if fees.len() > 0 {
        let head = fees.drop_last();
        let last = fees.last();
        assert forall|a: int, b: int| 0 <= a < b < head.len() implies (#[trigger] head[a]).id < (
        #[trigger] head[b]).id && !ranges_intersect(
            head[a].date_start,
            head[a].date_end,
            head[b].date_start,
            head[b].date_end,
        ) by {
            assert(head[a] == fees[a]);
            assert(head[b] == fees[b]);
        }
        assert(fees_wf(head, next));
        lemma_filter_keeps_fees_wf(head, next, p);
        let hf = head.filter(p);
        if p(last) {
            let out = hf.push(last);
            assert(fees.filter(p) == out);
            assert forall|k: int| 0 <= k < out.len() implies fees.contains(#[trigger] out[k]) by {
                if k < hf.len() {
                    let m = choose|m: int| 0 <= m < head.len() && head[m] == hf[k];
                    assert(fees[m] == out[k]);
                } else {
                    assert(out[k] == fees[fees.len() - 1]);
                }
            }
            assert forall|a: int, b: int| 0 <= a < b < out.len() implies (#[trigger] out[a]).id < (
            #[trigger] out[b]).id && !ranges_intersect(
                out[a].date_start,
                out[a].date_end,
                out[b].date_start,
                out[b].date_end,
            ) by {
                if b == out.len() - 1 {
                    let m = choose|m: int| 0 <= m < head.len() && head[m] == out[a];
                    assert(out[b] == fees[fees.len() - 1]);
                    assert(fees[m] == out[a]);
                    assert(m < fees.len() - 1);
                } else {
                    assert(out[a] == hf[a]);
                    assert(out[b] == hf[b]);
                }
            }
            assert(fees_wf(out, next));
        } else {
            assert(fees.filter(p) == hf);
        }
    }
}

/// Law: a fee id that is not persisted deletes nothing — removal by an
/// absent id leaves the fee table exactly as it was.
pub proof fn lemma_delete_absent_is_noop(fees: Seq<Fee>, id: u64)
    requires
        forall|i: int| 0 <= i < fees.len() ==> (#[trigger] fees[i]).id != id,
    ensures
        fees.filter(keep_other_ids(id)) == fees,
    decreases fees.len(),
{
    reveal(Seq::filter);
    if fees.len() > 0 {
        let head = fees.drop_last();
        assert forall|i: int| 0 <= i < head.len() implies (#[trigger] head[i]).id != id by {
            assert(head[i] == fees[i]);
        }
        lemma_delete_absent_is_noop(head, id);
        assert(fees.filter(keep_other_ids(id)) =~= fees);
    }
}

/// Law: a range disjoint from a new fee schedule and free of conflicts
/// before its creation is still free of conflicts after it — two disjoint
/// ranges can both be created.
pub proof fn lemma_disjoint_schedules_coexist(fees: Seq<Fee>, a: Fee, s2: DateTime, e2: DateTime)
    requires
        !fee_conflict(fees, s2, e2),
        !ranges_intersect(a.date_start, a.date_end, s2, e2),
    ensures
        !fee_conflict(fees.push(a), s2, e2),
{
    let fees1 = fees.push(a);
    assert forall|i: int| 0 <= i < fees1.len() implies !ranges_intersect(
        (#[trigger] fees1[i]).date_start,
        fees1[i].date_end,
        s2,
        e2,
    ) by {
        if i < fees.len() {
            assert(fees1[i] == fees[i]);
            assert(!ranges_intersect(fees[i].date_start, fees[i].date_end, s2, e2));
        } else {
            assert(fees1[i] == a);
        }
    }
}

/// Law: a range that intersects any persisted fee schedule is in conflict,
/// so its creation is rejected and the persisted set stays as it was.
pub proof fn lemma_overlap_is_conflict(fees: Seq<Fee>, i: int, s: DateTime, e: DateTime)
    requires
        0 <= i < fees.len(),
        ranges_intersect(fees[i].date_start, fees[i].date_end, s, e),
    ensures
        fee_conflict(fees, s, e),
{
    assert(ranges_intersect((fees[i]).date_start, fees[i].date_end, s, e));
}

} // verus!
