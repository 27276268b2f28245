//! Feldman verifiable secret sharing over prime-order subgroups.
//!
//! - `field`: the modular inverse, by the extended Euclidean algorithm.
//! - `vss`: share generation, commitments, share verification and Lagrange
//!   reconstruction, with the laws that tie them together.
//! - `dealer`: the group parameters and one dealing of a secret.
//! - `registry` and `player`: a participant's protocol state machine.
//! - `rpc`: the messages that participants exchange.
mod arith;
mod bignum;
pub mod dealer;
pub mod field;
pub mod player;
pub mod registry;
pub mod rpc;
pub mod vss;
