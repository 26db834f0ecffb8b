//! Interface-schema meta-model for declaring asset standards as data.
//!
//! A schema describes, for one asset standard, the global facts a contract
//! publishes, the transferable value slots it owns, and the issuance and
//! transition operations that are legal, together with precise multiplicity
//! rules. Every schema carries a stable content-derived identity, and a typed
//! wrapper binds a pre-validated contract state to exactly one such identity
//! before exposing strongly-typed accessors.

pub mod armor;
pub mod builder;
pub mod codec;
pub mod contract;
pub mod ident;
pub mod identity;
pub mod iface;
pub mod occurrence;
pub mod rgb25;
pub mod validate;
