//! The relational store, modelled as the two tables it holds.
//!
//! A `Store` is the capability handed to every repository operation: it owns
//! the fee-schedule table and the meter-reading table, together with the
//! store-assigned autoincrementing ids. Well-formedness says what the schema
//! and the repositories guarantee: ids are positive, unique and rise in
//! insertion order, every persisted timestamp names a real calendar instant,
//! and no two fee schedules have intersecting date ranges.

use vstd::prelude::*;

use crate::datetime::DateTime;
use crate::fees::{ranges_intersect, Fee};

verus! {

/// A decimal, held exactly as a signed count of thousandths.
#[derive(Clone, Copy, PartialEq, Eq, Structural, Debug)]
pub struct Amount {
    pub milli: i64,
}

/// Every failure a repository operation can surface to its caller.
#[derive(Clone, Copy, PartialEq, Eq, Structural, Debug)]
pub enum StoreError {
    /// `date_start` is not well-formed timestamp text.
    InvalidDateStart,
    /// `date_end` is not well-formed timestamp text.
    InvalidDateEnd,
    /// `reading_date` is not well-formed timestamp text.
    InvalidReadingDate,
    /// The new fee schedule's date range intersects a persisted one.
    DateRangeConflict,
    /// The inserted reading's fee reference did not resolve on re-read.
    UnknownFee,
}

impl StoreError {
    /// A caller-facing description of the failure.
    pub fn message(&self) -> (r: String)
        ensures
            self is InvalidDateStart ==> r@ == "invalid date_start timestamp"@,
            self is InvalidDateEnd ==> r@ == "invalid date_end timestamp"@,
            self is InvalidReadingDate ==> r@ == "invalid reading_date timestamp"@,
            self is DateRangeConflict ==> r@ == "Fee already exist for date range"@,
            self is UnknownFee ==> r@ == "unknown error"@,
    {
        match self {
            StoreError::InvalidDateStart => String::from_str("invalid date_start timestamp"),
            StoreError::InvalidDateEnd => String::from_str("invalid date_end timestamp"),
            StoreError::InvalidReadingDate => String::from_str("invalid reading_date timestamp"),
            StoreError::DateRangeConflict => String::from_str("Fee already exist for date range"),
            StoreError::UnknownFee => String::from_str("unknown error"),
        }
    }
}

/// A meter-reading row as persisted: the fee is referenced by id only;
/// it is inlined at read time.
#[derive(Clone, Copy, PartialEq, Eq, Structural, Debug)]
pub struct ReadingRow {
    pub id: u64,
    pub value: Amount,
    pub fee_id: u64,
    pub date: DateTime,
}

/// The fee table invariant: valid timestamps, positive unique ids rising in
/// insertion order and bounded by the next id to assign, and pairwise
/// non-intersecting date ranges.
pub open spec fn fees_wf(fees: Seq<Fee>, next_id: u64) -> bool {
    &&& forall|i: int|
        0 <= i < fees.len() ==> (#[trigger] fees[i]).date_start.valid() && fees[i].date_end.valid()
            && 1 <= fees[i].id < next_id
    &&& forall|i: int, j: int|
        0 <= i < j < fees.len() ==> (#[trigger] fees[i]).id < (#[trigger] fees[j]).id
    &&& forall|i: int, j: int|
        0 <= i < j < fees.len() ==> !ranges_intersect(
            (#[trigger] fees[i]).date_start,
            fees[i].date_end,
            (#[trigger] fees[j]).date_start,
            fees[j].date_end,
        )
}

/// The meter-reading table invariant: valid timestamps and positive unique
/// ids rising in insertion order, bounded by the next id to assign.
pub open spec fn readings_wf(rows: Seq<ReadingRow>, next_id: u64) -> bool {
    &&& forall|i: int|
        0 <= i < rows.len() ==> (#[trigger] rows[i]).date.valid() && 1 <= rows[i].id < next_id
    &&& forall|i: int, j: int|
        0 <= i < j < rows.len() ==> (#[trigger] rows[i]).id < (#[trigger] rows[j]).id
}

/// The relational store: both tables plus the next id each will assign.
pub struct Store {
    pub fees: Vec<Fee>,
    pub readings: Vec<ReadingRow>,
    pub next_fee_id: u64,
    pub next_reading_id: u64,
}

impl Store {
    /// The store invariant every repository operation preserves.
    pub open spec fn wf(&self) -> bool {
        &&& 1 <= self.next_fee_id
        &&& 1 <= self.next_reading_id
        &&& fees_wf(self.fees@, self.next_fee_id)
        &&& readings_wf(self.readings@, self.next_reading_id)
    }

    /// A fresh store in the known schema state: both tables empty, ids
    /// starting at one as the autoincrementing keys do.
    pub fn new() -> (s: Store)
        ensures
            s.wf(),
            s.fees@ == Seq::<Fee>::empty(),
            s.readings@ == Seq::<ReadingRow>::empty(),
            s.next_fee_id == 1,
            s.next_reading_id == 1,
    {
        Store { fees: Vec::new(), readings: Vec::new(), next_fee_id: 1, next_reading_id: 1 }
    }

    /// Rebuild a store from previously persisted rows. Succeeds exactly
    /// when the rows satisfy the store invariant for the given next ids;
    /// rows that an external store may hold but the invariant refuses are
    /// reported by returning nothing.
    #[verifier::rlimit(100)]
    pub fn from_rows(
        fees: Vec<Fee>,
        readings: Vec<ReadingRow>,
        next_fee_id: u64,
        next_reading_id: u64,
    ) -> (r: Option<Store>)
        ensures
            r is Some <==> (1 <= next_fee_id && 1 <= next_reading_id && fees_wf(fees@, next_fee_id)
                && readings_wf(readings@, next_reading_id)),
            r is Some ==> r->0.fees@ == fees@ && r->0.readings@ == readings@ && r->0.next_fee_id
                == next_fee_id && r->0.next_reading_id == next_reading_id && r->0.wf(),
    {
        if next_fee_id < 1 || next_reading_id < 1 {
            return None;
        }
        let n = fees.len();
        let mut i: usize = 0;
        while i < n
            invariant
                i <= n,
                n == fees@.len(),
                forall|a: int|
                    0 <= a < i ==> (#[trigger] fees@[a]).date_start.valid()
                        && fees@[a].date_end.valid() && 1 <= fees@[a].id < next_fee_id,
                forall|a: int, b: int|
                    0 <= a < b < i ==> (#[trigger] fees@[a]).id < (#[trigger] fees@[b]).id,
                forall|a: int, b: int|
                    0 <= a < b < i ==> !ranges_intersect(
                        (#[trigger] fees@[a]).date_start,
                        fees@[a].date_end,
                        (#[trigger] fees@[b]).date_start,
                        fees@[b].date_end,
                    ),
            decreases n - i,
        {
            let f = fees[i];
            if !f.date_start.check_valid() || !f.date_end.check_valid() || f.id < 1 || f.id
                >= next_fee_id {
                return None;
            }
            if i > 0 && fees[i - 1].id >= f.id {
                return None;
            }
            let mut j: usize = 0;
            while j < i
                invariant
                    j <= i < n,
                    n == fees@.len(),
                    f == fees@[i as int],
                    f.date_start.valid(),
                    f.date_end.valid(),
                    forall|a: int|
                        0 <= a < i ==> (#[trigger] fees@[a]).date_start.valid()
                            && fees@[a].date_end.valid(),
                    forall|k: int|
                        0 <= k < j ==> !ranges_intersect(
                            (#[trigger] fees@[k]).date_start,
                            fees@[k].date_end,
                            f.date_start,
                            f.date_end,
                        ),
                decreases i - j,
            {
                let g = fees[j];
                if g.date_start.le(&f.date_end) && f.date_start.le(&g.date_end) {
                    return None;
                }
                j += 1;
            }
            proof {
                assert forall|a: int, b: int| 0 <= a < b < i + 1 implies (
                #[trigger] fees@[a]).id < (#[trigger] fees@[b]).id by {
                    if b == i as int && a < i as int - 1 {
                        assert(fees@[a].id < fees@[i as int - 1].id);
                    }
                }
            }
            i += 1;
        }
        let m = readings.len();
        let mut k: usize = 0;
        while k < m
            invariant
                k <= m,
                m == readings@.len(),
                forall|a: int|
                    0 <= a < k ==> (#[trigger] readings@[a]).date.valid() && 1 <= readings@[a].id
                        < next_reading_id,
                forall|a: int, b: int|
                    0 <= a < b < k ==> (#[trigger] readings@[a]).id < (#[trigger] readings@[b]).id,
            decreases m - k,
        {
            let row = readings[k];
            if !row.date.check_valid() || row.id < 1 || row.id >= next_reading_id {
                return None;
            }
            if k > 0 && readings[k - 1].id >= row.id {
                return None;
            }
            proof {
                assert forall|a: int, b: int| 0 <= a < b < k + 1 implies (
                #[trigger] readings@[a]).id < (#[trigger] readings@[b]).id by {
                    if b == k as int && a < k as int - 1 {
                        assert(readings@[a].id < readings@[k as int - 1].id);
                    }
                }
            }
            k += 1;
        }
        Some(Store { fees, readings, next_fee_id, next_reading_id })
    }
}

} // verus!

