//! Membership commitments for anonymous signalling: field elements, a sparse
//! Merkle tree of identity commitments, identities and the proof round trip.
pub mod error;
pub mod field;
pub mod identity;
pub mod laws;
pub mod protocol;
pub mod registry;
pub mod round;
pub mod secret;
pub mod tree;
