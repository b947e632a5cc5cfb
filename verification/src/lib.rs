//! Verified core of a browser voice gateway.
pub mod network;
pub mod text;
pub mod voice;
