//! The meter-reading repository: creation and enumeration of consumption
//! measurements, each reconstructed with its fee schedule inlined at read
//! time (denormalized read model). A reading whose fee reference does not
//! resolve is dropped from the listing rather than surfaced as an error.

use vstd::prelude::*;

use crate::datetime::{fields_of_text, is_timestamp_text, parse_timestamp, DateTime};
use crate::fees::Fee;
use crate::store::{Amount, ReadingRow, Store, StoreError};

verus! {

/// A consumption measurement with its fee schedule inlined.
#[derive(Clone, Copy, PartialEq, Eq, Structural, Debug)]
pub struct MeterReading {
    pub id: u64,
    pub value: Amount,
    pub fee: Fee,
    pub date: DateTime,
}

/// Caller-supplied primitives for creating a meter reading; the timestamp
/// arrives as text in the storage pattern.
#[derive(Debug)]
pub struct CreateMeterReadingParams {
    pub value: Amount,
    pub fee_id: u64,
    pub reading_date: String,
}

/// The persisted fee schedule with the given id, if any: the match at the
/// highest table index (ids are unique in a well-formed store, so at most
/// one row can match).
pub open spec fn fee_with_id(fees: Seq<Fee>, id: u64) -> Option<Fee>
    decreases fees.len(),
{
    if fees.len() == 0 {
        None
    } else if fees.last().id == id {
        Some(fees.last())
    } else {
        fee_with_id(fees.drop_last(), id)
    }
}

/// The left-join read model: each reading row in storage order, with its
/// fee schedule inlined; rows whose fee reference does not resolve are
/// dropped.
pub open spec fn join_rows(fees: Seq<Fee>, rows: Seq<ReadingRow>) -> Seq<MeterReading>
    decreases rows.len(),
{
    if rows.len() == 0 {
        Seq::empty()
    } else {
        let rest = join_rows(fees, rows.drop_last());
        let row = rows.last();
        match fee_with_id(fees, row.fee_id) {
            Some(f) => rest.push(
                MeterReading { id: row.id, value: row.value, fee: f, date: row.date },
            ),
            None => rest,
        }
    }
}

/// Law: when every persisted reading's fee reference resolves, the read
/// model drops nothing — row `i` comes back as reading `i`, value and date
/// untouched, with its fee schedule inlined.
pub proof fn lemma_join_total_when_references_resolve(fees: Seq<Fee>, rows: Seq<ReadingRow>)
    requires
        forall|i: int|
            0 <= i < rows.len() ==> fee_with_id(fees, (#[trigger] rows[i]).fee_id) is Some,
    ensures
        join_rows(fees, rows).len() == rows.len(),
        forall|i: int|
            0 <= i < rows.len() ==> join_rows(fees, rows)[i] == (MeterReading {
                id: rows[i].id,
                value: rows[i].value,
                fee: fee_with_id(fees, (#[trigger] rows[i]).fee_id)->0,
                date: rows[i].date,
            }),
    decreases rows.len(),
{
    if rows.len() > 0 {
        let head = rows.drop_last();
        let last = rows.last();
        assert forall|i: int| 0 <= i < head.len() implies fee_with_id(
            fees,
            (#[trigger] head[i]).fee_id,
        ) is Some by {
            assert(head[i] == rows[i]);
        }
        lemma_join_total_when_references_resolve(fees, head);
        assert(fee_with_id(fees, rows[rows.len() - 1].fee_id) is Some);
        let joined = join_rows(fees, rows);
        assert(joined == join_rows(fees, head).push(
            MeterReading {
                id: last.id,
                value: last.value,
                fee: fee_with_id(fees, last.fee_id)->0,
                date: last.date,
            },
        ));
        assert forall|i: int| 0 <= i < rows.len() implies joined[i] == (MeterReading {
            id: rows[i].id,
            value: rows[i].value,
            fee: fee_with_id(fees, (#[trigger] rows[i]).fee_id)->0,
            date: rows[i].date,
        }) by {
            if i < rows.len() - 1 {
                assert(joined[i] == join_rows(fees, head)[i]);
                assert(head[i] == rows[i]);
            }
        }
    }
}

/// If no index at or above `j` holds the id, the lookup is decided by the
/// first `j` rows alone.
proof fn lemma_fee_with_id_prefix(fees: Seq<Fee>, id: u64, j: int)
    requires
        0 <= j <= fees.len(),
        forall|k: int| j <= k < fees.len() ==> (#[trigger] fees[k]).id != id,
    ensures
        fee_with_id(fees, id) == fee_with_id(fees.take(j), id),
    decreases fees.len() - j,
{
    if j < fees.len() {
        let head = fees.drop_last();
        assert(fees.last().id != id);
        assert forall|k: int| j <= k < head.len() implies (#[trigger] head[k]).id != id by {
            assert(head[k] == fees[k]);
        }
        lemma_fee_with_id_prefix(head, id, j);
        assert(head.take(j) =~= fees.take(j));
    } else {
        assert(fees.take(j) =~= fees);
    }
}

/// Find the fee schedule with the given id by scanning from the end.
fn find_fee(fees: &Vec<Fee>, id: u64) -> (r: Option<Fee>)
    ensures
        r == fee_with_id(fees@, id),
{
    let len = fees.len();
    let mut j = len;
    while j > 0
        invariant
            j <= len,
            len == fees@.len(),
            forall|k: int| j <= k < len ==> (#[trigger] fees@[k]).id != id,
        decreases j,
    {
        j -= 1;
        let f = fees[j];
        if f.id == id {
            proof {
                lemma_fee_with_id_prefix(fees@, id, j as int + 1);
                let pre = fees@.take(j as int + 1);
                assert(pre.last() == f);
            }
            return Some(f);
        }
    }
    proof {
        lemma_fee_with_id_prefix(fees@, id, 0);
        assert(fees@.take(0) =~= Seq::<Fee>::empty());
    }
    None
}

impl MeterReading {
    /// Create a meter reading. A malformed timestamp is rejected with no
    /// side effect. Otherwise the row is persisted unconditionally (the fee
    /// reference is not validated), then re-read joined with its fee
    /// schedule: if the reference does not resolve, the error of the failed
    /// re-read is returned and the row stays persisted.
    pub fn create(store: &mut Store, params: CreateMeterReadingParams) -> (r: Result<
        MeterReading,
        StoreError,
    >)
        requires
            old(store).wf(),
            old(store).next_reading_id < u64::MAX,
        ensures
            final(store).wf(),
            final(store).fees@ == old(store).fees@,
            final(store).next_fee_id == old(store).next_fee_id,
            !is_timestamp_text(params.reading_date@) ==> final(store).readings@ == old(
                store,
            ).readings@ && final(store).next_reading_id == old(store).next_reading_id,
            !is_timestamp_text(params.reading_date@) <==> r == Err::<MeterReading, StoreError>(
                StoreError::InvalidReadingDate,
            ),
            is_timestamp_text(params.reading_date@) ==> ({
                let row = (ReadingRow {
                    id: old(store).next_reading_id,
                    value: params.value,
                    fee_id: params.fee_id,
                    date: fields_of_text(params.reading_date@),
                });
                &&& final(store).readings@ == old(store).readings@.push(row)
                &&& final(store).next_reading_id == old(store).next_reading_id + 1
                &&& (fee_with_id(old(store).fees@, params.fee_id) is Some ==> r
                    == Ok::<MeterReading, StoreError>(
                    MeterReading {
                        id: row.id,
                        value: params.value,
                        fee: fee_with_id(old(store).fees@, params.fee_id)->0,
                        date: row.date,
                    },
                ))
                &&& (fee_with_id(old(store).fees@, params.fee_id) is None ==> r == Err::<
                    MeterReading,
                    StoreError,
                >(StoreError::UnknownFee))
            }),
    {
        let date = match parse_timestamp(params.reading_date.as_str()) {
            Ok(d) => d,
            Err(_) => {
                return Err(StoreError::InvalidReadingDate);
            },
        };
        let row = ReadingRow {
            id: store.next_reading_id,
            value: params.value,
            fee_id: params.fee_id,
            date,
        };
        store.readings.push(row);
        store.next_reading_id = store.next_reading_id + 1;
        proof {
            let rows1 = store.readings@;
            assert forall|a: int| 0 <= a < rows1.len() implies (
            #[trigger] rows1[a]).date.valid() && 1 <= rows1[a].id < store.next_reading_id by {
                if a < rows1.len() - 1 {
                    assert(rows1[a] == old(store).readings@[a]);
                }
            }
            assert forall|a: int, b: int| 0 <= a < b < rows1.len() implies (
            #[trigger] rows1[a]).id < (#[trigger] rows1[b]).id by {
                if b == rows1.len() - 1 {
                    assert(rows1[a] == old(store).readings@[a]);
                }
            }
        }
        match find_fee(&store.fees, params.fee_id) {
            Some(fee) => Ok(MeterReading { id: row.id, value: row.value, fee, date: row.date }),
            None => Err(StoreError::UnknownFee),
        }
    }

    /// Enumerate all meter readings in storage order, each joined with its
    /// fee schedule; rows whose fee reference does not resolve are dropped.
    pub fn list(store: &Store) -> (r: Vec<MeterReading>)
        ensures
            r@ == join_rows(store.fees@, store.readings@),
    {
        let mut out: Vec<MeterReading> = Vec::new();
        let len = store.readings.len();
        let mut i: usize = 0;
        while i < len
            invariant
                len == store.readings@.len(),
                i <= len,
                out@ == join_rows(store.fees@, store.readings@.take(i as int)),
            decreases len - i,
        {
            let row = store.readings[i];
            proof {
                let pre = store.readings@.take(i as int);
                let cur = store.readings@.take(i as int + 1);
                assert(cur.drop_last() =~= pre);
                assert(cur.last() == row);
            }
            match find_fee(&store.fees, row.fee_id) {
                Some(fee) => {
                    out.push(MeterReading { id: row.id, value: row.value, fee, date: row.date });
                },
                None => {},
            }
            i += 1;
        }
        proof {
            assert(store.readings@.take(len as int) =~= store.readings@);
        }
        out
    }
}

} // verus!
