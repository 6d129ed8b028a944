//! Nullifier tracking over an authenticated sparse map, and the decoding and
//! validation of the store's answers about transaction inputs.
pub mod account;
pub mod digest;
pub mod errors;
pub mod nullifier_tree;
pub mod smt;
pub mod store;
pub mod text;
