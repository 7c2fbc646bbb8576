//! An identification-protocol (RFC 1413) responder, as a library of verified
//! pieces: the query parser, the lookup target builder, the owner matcher and
//! the per-connection session machine.

pub mod ascii;
pub mod error;
pub mod number;
pub mod owner;
pub mod query;
pub mod session;
pub mod target;
pub mod text;
