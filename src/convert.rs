//! Conversions between trits, trytes, tryte strings, packed bytes, integers
//! and ASCII text.

pub mod alphabet;
pub mod packing;
pub mod bytes;
pub mod trytes;
pub mod number;
pub mod tryte_string;
pub mod trits;
pub mod ascii;
