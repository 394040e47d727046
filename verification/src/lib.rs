//! A utility-billing store: non-overlapping fee schedules, meter readings
//! billed under the schedule active on their date, and the canonical
//! timestamp codec shared by both repositories.

pub mod datetime;
pub mod fees;
pub mod meter_reading;
pub mod schema;
pub mod store;
