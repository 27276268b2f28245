//! The messages that players exchange, and the values they carry.
use vstd::prelude::*;

verus! {

/// A share `(x, P(x) mod q)`.
pub type Share = (u64, u64);

/// What a player needs to check any share: its own share, the generator `g`,
/// the commitments `c`, the moduli `p` and `q` and the threshold `t`.
#[derive(Debug)]
pub struct ShareInfo {
    pub share: Share,
    pub g: u64,
    pub c: Vec<u64>,
    pub p: u64,
    pub q: u64,
    pub t: usize,
}

/// A message to a player. `H` is the handle by which a peer is reached and
/// `R` the reply address on which a reconstructed secret is delivered.
#[derive(Debug)]
pub enum RPC<H, R> {
    /// A diagnostic echo from the given peer.
    Ping(usize),
    /// Registers the handle of the given peer.
    RegSender(usize, H),
    /// Hands the player its share and the public values to check it.
    RegShare(ShareInfo),
    /// A peer's share, sent for a reconstruction round.
    ReconstructShare(usize, Share),
    /// Asks the player to start a reconstruction round and to reply on `R`.
    Reconstruct(R),
}

} // verus!
