use qum::datetime::parse_timestamp;
use qum::fees::{CreateFeeParams, Fee};
use qum::meter_reading::{CreateMeterReadingParams, MeterReading};
use qum::store::{Amount, Store, StoreError};

fn fee_params(base: i64, price: i64, discount: i64, start: &str, end: &str) -> CreateFeeParams {
    CreateFeeParams {
        base_fee: Amount { milli: base },
        price_per_unit: Amount { milli: price },
        monthly_discount: Amount { milli: discount },
        date_start: String::from(start),
        date_end: String::from(end),
    }
}

#[test]
fn list_is_empty() {
    let store = Store::new();
    let fees = Fee::list(&store);
    assert_eq!(fees.len(), 0);
}

#[test]
fn list_has_data() {
    let mut store = Store::new();
    let params = fee_params(
        10_000,
        500,
        45_000,
        "2022-12-01T05:00:00.000Z",
        "2022-12-01T05:00:00.000Z",
    );
    Fee::create(&mut store, params).expect("failed to save fee");

    let fees = Fee::list(&store);
    assert_eq!(fees.len(), 1);
    let fee = fees.get(0).expect("failed to retrieve fee");
    assert_eq!(fee.base_fee, Amount { milli: 10_000 });
    assert_eq!(fee.price_per_unit, Amount { milli: 500 });
    assert_eq!(fee.monthly_discount, Amount { milli: 45_000 });
}

#[test]
fn create() {
    let mut store = Store::new();
    let params = fee_params(
        10_000,
        500,
        45_000,
        "2022-12-01T05:00:00.000Z",
        "2022-12-01T05:00:00.000Z",
    );
    let fee = Fee::create(&mut store, params).expect("failed to create fee");
    assert_eq!(fee.id, 1);
}

#[test]
fn find_in_time_range() {
    let mut store = Store::new();
    let params = fee_params(
        10_000,
        500,
        45_000,
        "2022-01-01T05:00:00.000Z",
        "2022-12-01T05:00:00.000Z",
    );
    Fee::create(&mut store, params).expect("failed to save fee");

    let fee = Fee::find_in_time_range(
        &store,
        String::from("2022-03-01T05:00:00.000Z"),
        String::from("2022-06-01T05:00:00.000Z"),
    );
    assert!(fee.is_some());
}

#[test]
fn disjoint_ranges_coexist_overlap_is_rejected() {
    let mut store = Store::new();
    let a = fee_params(1_000, 100, 0, "2022-01-01T00:00:00.000Z", "2022-03-31T00:00:00.000Z");
    let b = fee_params(2_000, 200, 0, "2022-06-01T00:00:00.000Z", "2022-08-31T00:00:00.000Z");
    Fee::create(&mut store, a).expect("first disjoint range");
    Fee::create(&mut store, b).expect("second disjoint range");

    let before = Fee::list(&store);
    let c = fee_params(3_000, 300, 0, "2022-03-01T00:00:00.000Z", "2022-07-01T00:00:00.000Z");
    let r = Fee::create(&mut store, c);
    assert_eq!(r, Err(StoreError::DateRangeConflict));
    assert_eq!(Fee::list(&store), before);
}

#[test]
fn touching_boundaries_conflict() {
    let mut store = Store::new();
    let a = fee_params(1_000, 100, 0, "2022-01-01T00:00:00.000Z", "2022-06-01T00:00:00.000Z");
    Fee::create(&mut store, a).expect("first range");
    let b = fee_params(2_000, 200, 0, "2022-06-01T00:00:00.000Z", "2022-09-01T00:00:00.000Z");
    assert_eq!(Fee::create(&mut store, b), Err(StoreError::DateRangeConflict));
}

#[test]
fn containment_without_shared_boundary_conflicts() {
    let mut store = Store::new();
    let outer = fee_params(1_000, 100, 0, "2022-01-01T00:00:00.000Z", "2022-12-31T00:00:00.000Z");
    Fee::create(&mut store, outer).expect("outer range");
    let inner = fee_params(2_000, 200, 0, "2022-05-01T00:00:00.000Z", "2022-06-01T00:00:00.000Z");
    assert_eq!(Fee::create(&mut store, inner), Err(StoreError::DateRangeConflict));

    let mut store2 = Store::new();
    let inner2 = fee_params(1_000, 100, 0, "2022-05-01T00:00:00.000Z", "2022-06-01T00:00:00.000Z");
    Fee::create(&mut store2, inner2).expect("inner range");
    let outer2 = fee_params(2_000, 200, 0, "2022-01-01T00:00:00.000Z", "2022-12-31T00:00:00.000Z");
    assert_eq!(Fee::create(&mut store2, outer2), Err(StoreError::DateRangeConflict));
}

#[test]
fn create_rejects_malformed_timestamps() {
    let mut store = Store::new();
    let bad_start = fee_params(1_000, 100, 0, "not a date", "2022-06-01T00:00:00.000Z");
    assert_eq!(Fee::create(&mut store, bad_start), Err(StoreError::InvalidDateStart));
    let bad_end = fee_params(1_000, 100, 0, "2022-06-01T00:00:00.000Z", "2022-06-32T00:00:00.000Z");
    assert_eq!(Fee::create(&mut store, bad_end), Err(StoreError::InvalidDateEnd));
    assert_eq!(Fee::list(&store).len(), 0);
}

#[test]
fn find_prefers_highest_id_and_reports_no_match() {
    let mut store = Store::new();
    let a = fee_params(1_000, 100, 0, "2022-01-01T00:00:00.000Z", "2022-02-01T00:00:00.000Z");
    let b = fee_params(2_000, 200, 0, "2022-05-01T00:00:00.000Z", "2022-06-01T00:00:00.000Z");
    let fee_a = Fee::create(&mut store, a).expect("range a");
    let fee_b = Fee::create(&mut store, b).expect("range b");
    assert!(fee_a.id < fee_b.id);

    let both = Fee::find_in_time_range(
        &store,
        String::from("2022-01-15T00:00:00.000Z"),
        String::from("2022-05-15T00:00:00.000Z"),
    );
    assert_eq!(both, Some(fee_b));

    let none = Fee::find_in_time_range(
        &store,
        String::from("2022-03-01T00:00:00.000Z"),
        String::from("2022-04-01T00:00:00.000Z"),
    );
    assert_eq!(none, None);

    let malformed = Fee::find_in_time_range(
        &store,
        String::from("garbage"),
        String::from("2022-05-15T00:00:00.000Z"),
    );
    assert_eq!(malformed, None);
}

#[test]
fn delete_nonexistent_id_is_noop() {
    let mut store = Store::new();
    let a = fee_params(1_000, 100, 0, "2022-01-01T00:00:00.000Z", "2022-02-01T00:00:00.000Z");
    Fee::create(&mut store, a).expect("range a");
    let before = Fee::list(&store);
    Fee::delete(&mut store, 99);
    assert_eq!(Fee::list(&store), before);
}

#[test]
fn delete_removes_only_the_given_id() {
    let mut store = Store::new();
    let a = fee_params(1_000, 100, 0, "2022-01-01T00:00:00.000Z", "2022-02-01T00:00:00.000Z");
    let b = fee_params(2_000, 200, 0, "2022-05-01T00:00:00.000Z", "2022-06-01T00:00:00.000Z");
    let fee_a = Fee::create(&mut store, a).expect("range a");
    let fee_b = Fee::create(&mut store, b).expect("range b");
    Fee::delete(&mut store, fee_a.id);
    assert_eq!(Fee::list(&store), vec![fee_b]);

    let freed = fee_params(3_000, 300, 0, "2022-01-01T00:00:00.000Z", "2022-02-01T00:00:00.000Z");
    let fee_c = Fee::create(&mut store, freed).expect("freed range is usable again");
    assert_eq!(fee_c.id, 3);
}

#[test]
fn overlapping_second_fee_fails() {
    let mut store = Store::new();
    let a = fee_params(10_000, 500, 45_000, "2022-01-01T00:00:00.000Z", "2022-12-01T00:00:00.000Z");
    Fee::create(&mut store, a).expect("fee A");
    let b = fee_params(10_000, 500, 45_000, "2022-06-01T00:00:00.000Z", "2023-01-01T00:00:00.000Z");
    assert_eq!(Fee::create(&mut store, b), Err(StoreError::DateRangeConflict));
}

#[test]
fn meter_reading_embeds_its_fee() {
    let mut store = Store::new();
    let params = fee_params(
        10_000,
        500,
        45_000,
        "2023-01-01T00:00:00.000Z",
        "2023-12-01T00:00:00.000Z",
    );
    let fee = Fee::create(&mut store, params).expect("fee");

    let reading = MeterReading::create(
        &mut store,
        CreateMeterReadingParams {
            value: Amount { milli: 42_000 },
            fee_id: fee.id,
            reading_date: String::from("2023-01-15T00:00:00.000Z"),
        },
    )
    .expect("reading");
    assert_eq!(reading.value, Amount { milli: 42_000 });
    assert_eq!(reading.fee, fee);
    assert_eq!(reading.date, parse_timestamp("2023-01-15T00:00:00.000Z").unwrap());

    let listed = MeterReading::list(&store);
    assert_eq!(listed, vec![reading]);
}

#[test]
fn meter_reading_with_dangling_fee_is_an_error_and_dropped() {
    let mut store = Store::new();
    let r = MeterReading::create(
        &mut store,
        CreateMeterReadingParams {
            value: Amount { milli: 1_000 },
            fee_id: 7,
            reading_date: String::from("2023-01-15T00:00:00.000Z"),
        },
    );
    assert_eq!(r, Err(StoreError::UnknownFee));
    assert_eq!(MeterReading::list(&store).len(), 0);
}

#[test]
fn meter_reading_rejects_malformed_date() {
    let mut store = Store::new();
    let r = MeterReading::create(
        &mut store,
        CreateMeterReadingParams {
            value: Amount { milli: 1_000 },
            fee_id: 1,
            reading_date: String::from("2023/01/15"),
        },
    );
    assert_eq!(r, Err(StoreError::InvalidReadingDate));
}

#[test]
fn deleting_a_referenced_fee_orphans_its_readings() {
    let mut store = Store::new();
    let params = fee_params(
        10_000,
        500,
        45_000,
        "2023-01-01T00:00:00.000Z",
        "2023-12-01T00:00:00.000Z",
    );
    let fee = Fee::create(&mut store, params).expect("fee");
    MeterReading::create(
        &mut store,
        CreateMeterReadingParams {
            value: Amount { milli: 5_000 },
            fee_id: fee.id,
            reading_date: String::from("2023-06-15T00:00:00.000Z"),
        },
    )
    .expect("reading");
    assert_eq!(MeterReading::list(&store).len(), 1);

    Fee::delete(&mut store, fee.id);
    assert_eq!(MeterReading::list(&store).len(), 0);
}

#[test]
fn error_messages_match_the_store_wording() {
    assert_eq!(StoreError::DateRangeConflict.message(), "Fee already exist for date range");
    assert_eq!(StoreError::UnknownFee.message(), "unknown error");
    assert_eq!(StoreError::InvalidDateStart.message(), "invalid date_start timestamp");
    assert_eq!(StoreError::InvalidDateEnd.message(), "invalid date_end timestamp");
    assert_eq!(StoreError::InvalidReadingDate.message(), "invalid reading_date timestamp");
}

#[test]
fn from_rows_validates_the_invariant() {
    let mut store = Store::new();
    let a = fee_params(1_000, 100, 0, "2022-01-01T00:00:00.000Z", "2022-02-01T00:00:00.000Z");
    let b = fee_params(2_000, 200, 0, "2022-05-01T00:00:00.000Z", "2022-06-01T00:00:00.000Z");
    Fee::create(&mut store, a).expect("range a");
    Fee::create(&mut store, b).expect("range b");
    let fees = Fee::list(&store);

    let rebuilt = Store::from_rows(fees.clone(), Vec::new(), 3, 1).expect("valid rows");
    assert_eq!(Fee::list(&rebuilt), fees);

    // ids must stay below the next id to assign
    assert!(Store::from_rows(fees.clone(), Vec::new(), 2, 1).is_none());

    // insertion order must rise with the ids
    let mut reversed = fees.clone();
    reversed.reverse();
    assert!(Store::from_rows(reversed, Vec::new(), 3, 1).is_none());

    // intersecting ranges violate the fee-table invariant
    let mut overlapping = fees.clone();
    let mut third = overlapping[1];
    third.id = 5;
    overlapping.push(third);
    assert!(Store::from_rows(overlapping, Vec::new(), 9, 1).is_none());
}

#[test]
fn migration_steps_define_both_tables() {
    let steps = qum::schema::migration_steps();
    assert_eq!(steps.len(), 2);
    assert!(steps[0].starts_with("CREATE TABLE fees "));
    assert!(steps[1].starts_with("CREATE TABLE meter_readings "));
}
