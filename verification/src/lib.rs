//! Median selection for samples of IEEE 754 binary64 values, carried out and
//! verified on the values' 64-bit patterns.
//!
//! A sample is a vector of bit patterns. The `order` module gives the numeric
//! order of two patterns and an order-preserving integer key; the `select`
//! module sorts a copy of a sample and picks the lower-middle element, which
//! is the median under the convention that an even count yields the lower of
//! the two central values. Callers that hold actual binary64 values move
//! between value and pattern at the boundary; every step in between is
//! verified.

pub mod order;
pub mod select;
