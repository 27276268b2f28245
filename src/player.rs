//! A participant's protocol state machine. Each message updates the state and
//! yields the one effect that the surrounding runtime must carry out.
use crate::registry::{assoc_insert, Registry};
use crate::rpc::{Share, ShareInfo, RPC};
use crate::vss::{lagrange_at_zero, reconstruct, share_verifies, verify_share};
use vstd::prelude::*;

verus! {

/// What the runtime does after a message has been handled.
#[derive(Debug)]
pub enum Effect<R> {
    /// Nothing.
    Idle,
    /// Answers a ping from the given peer.
    Pong(usize),
    /// The player's own share failed its check: it stops handling messages.
    Halt,
    /// Sends `ReconstructShare(id, share)` to every registered peer.
    Broadcast(Share),
    /// A share from the given peer failed its check and was dropped.
    Reject(usize),
    /// Sends the reconstructed secret on the reply address.
    Deliver(R, u64),
}

/// `s` passes the Feldman check against the public values of `info`.
pub open spec fn info_accepts(info: ShareInfo, s: Share) -> bool {
    info.p > 1 && share_verifies(s.0, s.1, info.g, info.c@, info.p)
}

/// The moduli of `info` are usable and its own share passes its check.
pub open spec fn info_valid(info: ShareInfo) -> bool {
    info.q > 0 && info_accepts(info, info.share)
}

/// The shares of a round, in order of arrival of their senders.
pub open spec fn round_shares(acc: Seq<(usize, Share)>) -> Seq<Share> {
    acc.map_values(|e: (usize, Share)| e.1)
}

/// One participant: its id, its peers' handles, its verified share, the reply
/// address of a pending reconstruction and the shares of the current round.
pub struct Player<H, R> {
    pub id: usize,
    pub senders: Registry<H>,
    pub share_info: Option<ShareInfo>,
    pub reconstruct_send: Option<R>,
    pub senders_shares: Registry<Share>,
}

impl<H, R> Player<H, R> {
    pub open spec fn wf(&self) -> bool {
        &&& self.senders.wf()
        &&& self.senders_shares.wf()
        &&& self.share_info matches Some(info) ==> info_valid(info)
    }

    /// A player with no peers, no share and an empty round.
    pub fn new(id: usize) -> (r: Player<H, R>)
        ensures
            r.wf(),
            r.id == id,
            r.senders@ == Seq::<(usize, H)>::empty(),
            r.share_info is None,
            r.reconstruct_send is None,
            r.senders_shares@ == Seq::<(usize, Share)>::empty(),
    {
        Player {
            id,
            senders: Registry::new(),
            share_info: None,
            reconstruct_send: None,
            senders_shares: Registry::new(),
        }
    }

    /// Handles one message.
    ///
    /// A peer's handle is registered, replacing an earlier one. The player's
    /// own share is kept only if it passes its check; otherwise the player
    /// halts. A reconstruction request, once a share is held, is recorded,
    /// opens a fresh round with no shares and is answered by broadcasting the
    /// own share. A peer's share is checked
    /// against the commitments and added to the round, one per sender; when
    /// the round holds `t` shares the secret is interpolated, delivered to the
    /// pending request if there is one, and the round starts afresh.
    pub fn handle(&mut self, msg: RPC<H, R>) -> (e: Effect<R>)
        requires
            old(self).wf(),
        ensures
            final(self).wf(),
            final(self).id == old(self).id,
            match msg {
                RPC::Ping(from) => e == Effect::<R>::Pong(from) && *final(self) == *old(self),
                RPC::RegSender(from, h) => {
                    &&& e == Effect::<R>::Idle
                    &&& final(self).senders@ == assoc_insert(old(self).senders@, from, h)
                    &&& final(self).share_info == old(self).share_info
                    &&& final(self).reconstruct_send == old(self).reconstruct_send
                    &&& final(self).senders_shares == old(self).senders_shares
                },
                RPC::RegShare(info) => if info_valid(info) {
                    &&& e == Effect::<R>::Idle
                    &&& final(self).share_info == Some(info)
                    &&& final(self).senders == old(self).senders
                    &&& final(self).reconstruct_send == old(self).reconstruct_send
                    &&& final(self).senders_shares == old(self).senders_shares
                } else {
                    e == Effect::<R>::Halt && *final(self) == *old(self)
                },
                RPC::Reconstruct(reply) => match old(self).share_info {
                    Some(info) => {
                        &&& e == Effect::<R>::Broadcast(info.share)
                        &&& final(self).reconstruct_send == Some(reply)
                        &&& final(self).senders == old(self).senders
                        &&& final(self).share_info == old(self).share_info
                        &&& final(self).senders_shares@ == Seq::<(usize, Share)>::empty()
                    },
                    None => e == Effect::<R>::Idle && *final(self) == *old(self),
                },
                RPC::ReconstructShare(from, s) => match old(self).share_info {
                    None => e == Effect::<R>::Idle && *final(self) == *old(self),
                    Some(info) => if !info_accepts(info, s) {
                        e == Effect::<R>::Reject(from) && *final(self) == *old(self)
                    } else {
                        let acc = assoc_insert(old(self).senders_shares@, from, s);
                        &&& final(self).senders == old(self).senders
                        &&& final(self).share_info == old(self).share_info
                        &&& if acc.len() >= info.t {
                            let secret = lagrange_at_zero(round_shares(acc), info.q);
                            &&& final(self).senders_shares@ == Seq::<(usize, Share)>::empty()
                            &&& final(self).reconstruct_send is None
                            &&& e == match old(self).reconstruct_send {
                                Some(reply) => Effect::<R>::Deliver(reply, secret as u64),
                                None => Effect::<R>::Idle,
                            }
                        } else {
                            &&& final(self).senders_shares@ == acc
                            &&& final(self).reconstruct_send == old(self).reconstruct_send
                            &&& e == Effect::<R>::Idle
                        }
                    },
                },
            },
    {
        match msg {
            RPC::Ping(from) => Effect::Pong(from),
            RPC::RegSender(from, h) => {
                self.senders.insert(from, h);
                Effect::Idle
            },
            RPC::RegShare(info) => {
                if info.p > 1 && info.q > 0 && verify_share(info.share.0, info.share.1, info.g, &info.c, info.p) {
                    self.share_info = Some(info);
                    Effect::Idle
                } else {
                    Effect::Halt
                }
            },
            RPC::Reconstruct(reply) => {
                match &self.share_info {
                    Some(info) => {
                        let share = info.share;
                        self.reconstruct_send = Some(reply);
                        self.senders_shares.clear();
                        Effect::Broadcast(share)
                    },
                    None => Effect::Idle,
                }
            },
            RPC::ReconstructShare(from, s) => {
                let (t, q, accepted) = match &self.share_info {
                    Some(info) => (info.t, info.q, verify_share(s.0, s.1, info.g, &info.c, info.p)),
                    None => return Effect::Idle,
                };
                if !accepted {
                    return Effect::Reject(from);
                }
                self.senders_shares.insert(from, s);
                if self.senders_shares.len() < t {
                    return Effect::Idle;
                }
                let shares = self.round_values();
                let secret = reconstruct(&shares, q);
                self.senders_shares.clear();
                match self.reconstruct_send.take() {
                    Some(reply) => Effect::Deliver(reply, secret),
                    None => Effect::Idle,
                }
            },
        }
    }

    /// The shares of the current round, in order of arrival of their senders.
    fn round_values(&self) -> (r: Vec<Share>)
        ensures
            r@ == round_shares(self.senders_shares@),
    {
        let entries = self.senders_shares.entries();
        let mut r: Vec<Share> = Vec::new();
        let mut i: usize = 0;
        while i < entries.len()
            invariant
                entries@ == self.senders_shares@,
                i <= entries.len(),
                r@ == round_shares(entries@.subrange(0, i as int)),
            decreases entries.len() - i,
        {
            r.push(entries[i].1);
            proof {
                assert(entries@.subrange(0, i + 1) =~= entries@.subrange(0, i as int).push(entries@[i as int]));
                assert(round_shares(entries@.subrange(0, i + 1)) =~= round_shares(entries@.subrange(0, i as int)).push(entries@[i as int].1));
            }
            i = i + 1;
        }
        proof {
            assert(entries@.subrange(0, entries@.len() as int) =~= entries@);
        }
        r
    }
}

} // verus!
