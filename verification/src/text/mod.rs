//! Text as sequences of characters: classification, trimming, splitting,
//! numbers and ordering.

pub mod chars;
pub mod join;
pub mod list;
pub mod number;
pub mod order;
pub mod split;
