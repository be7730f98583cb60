//! Common utilities: word-case conversion for identifiers and phrases,
//! a normalized edit-distance metric with candidate ranking, packed bit
//! sets, and assorted small helpers for vectors, options and iterators.

pub mod bit_set;
pub mod boo;
pub mod chars;
pub mod collections;
pub mod convert;
pub mod duration_ext;
pub mod inputs;
pub mod io_err;
pub mod iter;
pub mod filter;
pub mod option_ext;
pub mod splitting;
pub mod vec_ext;
