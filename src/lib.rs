//! Encoding and compression of fixed-schema ternary transactions.
//!
//! A transaction is fifteen contiguous fields of balanced-ternary digits
//! ("trits"), grouped in threes into base-27 digits ("trytes") that are written
//! with the alphabet `9ABCDEFGHIJKLMNOPQRSTUVWXYZ`, and sent as bytes in which
//! every three trytes take two bytes.

pub mod constants;
pub mod convert;
pub mod error;
pub mod model;
pub mod algos;
pub mod time;
