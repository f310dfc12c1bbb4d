//! A possession-token service for a small data-recording server.
//!
//! A client first requests a token bound to its account on a third-party
//! identity platform; the token is held in an in-process cache until the
//! identity authority confirms the exchange, at which point it is promoted
//! to a durable verified token.  The crate also carries the service's
//! record-keeping helpers: a compact base-62 token codec and a bit-packed
//! 3-D position code.

pub mod auth;
pub mod codec;
pub mod token;
pub mod position;
pub mod records;
pub mod store;

pub use position::Position;
