//! A receipt-points library: a pure scoring engine over purchase receipts,
//! boundary validation of the textual wire fields, and an in-memory store
//! that hands out opaque identifiers for later lookup.

pub mod calendar;
pub mod money;
pub mod receipt;
pub mod scoring;
pub mod store;
pub mod text;
