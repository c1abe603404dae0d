//! Resolution of the local network endpoint that a small discovery-style
//! server advertises: enumerating host interfaces, a bounds-checked numbered
//! selection protocol, and address-family-aware socket and URL synthesis.

pub mod numerals;
pub mod parse;
pub mod selection;
pub mod address;
pub mod order;
pub mod catalog;
pub mod resolver;
pub mod endpoint;
pub mod qr;
