//! The transaction record.

pub mod transaction;
