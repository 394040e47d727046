//! The two-table relational schema, as an ordered sequence of forward-only
//! migration steps. The deployment layer hands these, in order, to its
//! migration runner; a step that has already run must not run again, and
//! any migration failure is fatal at startup.

use vstd::prelude::*;

verus! {

/// The ordered forward-only migration steps: first the fee-schedule table,
/// then the meter-reading table with its foreign key to the fees.
pub fn migration_steps() -> (r: Vec<String>)
    ensures
        r@.len() == 2,
        r@[0]@
            == "CREATE TABLE fees (id INTEGER NOT NULL PRIMARY KEY AUTOINCREMENT, base_fee REAL NOT NULL, price_per_unit REAL NOT NULL, monthly_discount REAL NOT NULL, date_start DATETIME NOT NULL, date_end DATETIME NOT NULL)"@,
        r@[1]@
            == "CREATE TABLE meter_readings (id INTEGER NOT NULL PRIMARY KEY AUTOINCREMENT, value REAL NOT NULL, fee_id INTEGER NOT NULL, reading_date DATETIME NOT NULL, FOREIGN KEY (fee_id) REFERENCES fees (id))"@,
{
    let mut steps: Vec<String> = Vec::new();
    steps.push(
        String::from_str(
            "CREATE TABLE fees (id INTEGER NOT NULL PRIMARY KEY AUTOINCREMENT, base_fee REAL NOT NULL, price_per_unit REAL NOT NULL, monthly_discount REAL NOT NULL, date_start DATETIME NOT NULL, date_end DATETIME NOT NULL)",
        ),
    );
    steps.push(
        String::from_str(
            "CREATE TABLE meter_readings (id INTEGER NOT NULL PRIMARY KEY AUTOINCREMENT, value REAL NOT NULL, fee_id INTEGER NOT NULL, reading_date DATETIME NOT NULL, FOREIGN KEY (fee_id) REFERENCES fees (id))",
        ),
    );
    steps
}

} // verus!
