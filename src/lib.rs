//! An employee record store: an authoritative in-memory collection of
//! records keyed by store-generated identifiers, with the rules for
//! rebuilding it from a decoded snapshot.
pub mod employee;
pub mod ids;
pub mod laws;
pub mod store;
