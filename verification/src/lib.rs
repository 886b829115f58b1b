//! Orchestration of quoted, paid, committed writes to a pay-per-chunk,
//! content-addressed storage network.
//!
//! The library models network values (content addresses, quote hashes,
//! beneficiary addresses, key derivation indices) as plain integers and
//! amounts as `u128`; the surrounding application converts between these
//! models and the wire types of the network client.

pub mod app_data;
pub mod cache;
pub mod local;
pub mod orders;
pub mod quote;
pub mod random;
pub mod receipt;
pub mod staging;
pub mod structure;
pub mod types;
pub mod upload;
pub mod userdata;
pub mod vault;
