//! The slot driver: a node's clock of slots and what it does with the
//! messages that reach it.
//!
//! The caller waits for whichever comes first, a message or the deadline
//! of the slot, and reports it here.

use crate::chain_state::{signature_checks, ChainState};
use crate::encoding::text_equal;
use crate::peer_manager::{peer_added, PeerManager};
use crate::types::{text_views, Block, PeerInfoView};
use vstd::prelude::*;

verus! {

/// Milliseconds from one slot to the next.
pub const SLOT_INTERVAL_MS: u64 = 10_000;

/// Seconds by which a peer's genesis may lie in the past to be adopted.
pub const GENESIS_ADOPTION_WINDOW_SECS: u64 = 86_400;

/// Seconds by which a peer's genesis may lie in the future to be adopted.
pub const GENESIS_FUTURE_TOLERANCE_SECS: u64 = 300;

/// Seconds between two rounds of dialing peers and sweeping stale ones.
pub const PEER_CONNECT_INTERVAL_SECS: u64 = 30;

/// Whether a peer's genesis timestamp is adopted at `now`: it must be
/// earlier than ours, at most 24 hours old, and at most 5 minutes ahead.
pub open spec fn adopts_genesis(ours: u64, theirs: u64, now: u64) -> bool {
    theirs < ours && theirs + 86_400 >= now && theirs <= now + 300
}

/// The genesis timestamp after hearing a peer's: the earlier of the two if
/// the peer's is plausible, else ours.
pub open spec fn negotiated_genesis(ours: u64, theirs: u64, now: u64) -> u64 {
    if adopts_genesis(ours, theirs, now) {
        theirs
    } else {
        ours
    }
}

/// Settles the genesis timestamp with a peer's, at `now` in seconds.
pub fn negotiate_genesis(ours: u64, theirs: u64, now: u64) -> (r: u64)
    ensures
        r == negotiated_genesis(ours, theirs, now),
        r <= ours,
{
    let recent: bool = theirs >= now || now - theirs <= GENESIS_ADOPTION_WINDOW_SECS;
    let not_ahead: bool = theirs <= now || theirs - now <= GENESIS_FUTURE_TOLERANCE_SECS;
    if theirs < ours && recent && not_ahead {
        theirs
    } else {
        ours
    }
}

/// Negotiation never moves the genesis later, and hearing the same peer
/// again changes nothing more.
pub proof fn lemma_genesis_converges(ours: u64, theirs: u64, now: u64)
    ensures
        negotiated_genesis(ours, theirs, now) <= ours,
        negotiated_genesis(negotiated_genesis(ours, theirs, now), theirs, now) == negotiated_genesis(
            ours,
            theirs,
            now,
        ),
{
}

/// The table after the peers of a handshake were recorded at `now`, all
/// but our own address.
pub open spec fn peers_learned(
    peers: Seq<PeerInfoView>,
    known: Seq<Seq<char>>,
    my_addr: Seq<char>,
    now: u64,
) -> Seq<PeerInfoView>
    decreases known.len(),
{
    if known.len() == 0 {
        peers
    } else {
        let before = peers_learned(peers, known.drop_last(), my_addr, now);
        if known.last() == my_addr {
            before
        } else {
            peer_added(before, known.last(), now)
        }
    }
}

/// A node's clock of slots.
#[derive(Debug, Clone, Copy, PartialEq, Eq)]
pub struct SlotDriver {
    /// The slot to produce next.
    pub current_slot: u64,
    /// When the current slot is due, in milliseconds since the Unix epoch.
    pub slot_deadline: u64,
    /// The shared reference time of the network, in seconds.
    pub genesis_timestamp: u64,
}

/// `now + 10 s` in milliseconds, or the largest number if that is beyond it.
pub open spec fn next_deadline(now_ms: u64) -> u64 {
    if now_ms + 10_000 > u64::MAX {
        u64::MAX
    } else {
        (now_ms + 10_000) as u64
    }
}

impl SlotDriver {
    /// A driver at slot 0, due ten seconds from `now_ms`.
    pub fn new(genesis_timestamp: u64, now_ms: u64) -> (r: SlotDriver)
        ensures
            r == (SlotDriver {
                current_slot: 0,
                slot_deadline: next_deadline(now_ms),
                genesis_timestamp,
            }),
    {
        SlotDriver {
            current_slot: 0,
            slot_deadline: now_ms.saturating_add(SLOT_INTERVAL_MS),
            genesis_timestamp,
        }
    }

    /// The genesis time in milliseconds, from which block timestamps count.
    pub open spec fn spec_genesis_ms(&self) -> int {
        self.genesis_timestamp * 1000
    }

    /// The genesis time in milliseconds, if it fits 64 bits.
    pub fn genesis_ms(&self) -> (r: Option<u64>)
        ensures
            match r {
                Some(ms) => ms == self.spec_genesis_ms(),
                None => self.spec_genesis_ms() > u64::MAX,
            },
    {
        self.genesis_timestamp.checked_mul(1000)
    }

    /// Milliseconds to wait at `now_ms` until the slot is due.
    pub fn time_to_deadline(&self, now_ms: u64) -> (r: u64)
        ensures
            r == if now_ms >= self.slot_deadline {
                0
            } else {
                self.slot_deadline - now_ms
            },
    {
        self.slot_deadline.saturating_sub(now_ms)
    }

    /// Handles a handshake received at `now` (seconds): records the peers it
    /// names, except ourselves, and settles the genesis timestamp.
    pub fn on_handshake(
        &mut self,
        peers: &mut PeerManager,
        my_addr: &str,
        known_peers: &Vec<String>,
        genesis_timestamp: u64,
        now: u64,
    )
        ensures
            final(peers).peers() == peers_learned(old(peers).peers(), text_views(known_peers@), my_addr@, now),
            final(peers).bootstrap() == old(peers).bootstrap(),
            final(self).genesis_timestamp == negotiated_genesis(
                old(self).genesis_timestamp,
                genesis_timestamp,
                now,
            ),
            final(self).current_slot == old(self).current_slot,
            final(self).slot_deadline == old(self).slot_deadline,
    {
        let ghost known = text_views(known_peers@);
        let mut i: usize = 0;
        assert(known.take(0) =~= Seq::<Seq<char>>::empty());
        while i < known_peers.len()
            invariant
                i <= known_peers.len(),
                known == text_views(known_peers@),
                peers.peers() == peers_learned(old(peers).peers(), known.take(i as int), my_addr@, now),
                peers.bootstrap() == old(peers).bootstrap(),
            decreases known_peers.len() - i,
        {
            proof {
                assert(known.take(i + 1).drop_last() =~= known.take(i as int));
                assert(known.take(i + 1).last() == known_peers[i as int]@);
            }
            if !text_equal(known_peers[i].as_str(), my_addr) {
                peers.add_peer_at(known_peers[i].clone(), now);
            }
            i = i + 1;
        }
        assert(known.take(i as int) =~= known);
        self.genesis_timestamp = negotiate_genesis(self.genesis_timestamp, genesis_timestamp, now);
    }

    /// Handles a block received at `now_ms`: commits it if it is valid and
    /// its slot is free. A committed block is handed back for gossip, and
    /// the slot's deadline moves to ten seconds from now.
    pub fn on_new_block(&mut self, chain: &mut ChainState, block: Block, now_ms: u64) -> (r: Option<Block>)
        ensures
            match old(chain)@.after_block(block, signature_checks(block@.transactions)) {
                Some(after) => {
                    &&& final(chain)@ == after
                    &&& r is Some
                    &&& r->0@ == block@
                    &&& final(self).slot_deadline == next_deadline(now_ms)
                },
                None => {
                    &&& final(chain)@ == old(chain)@
                    &&& r is None
                    &&& final(self).slot_deadline == old(self).slot_deadline
                },
            },
            final(self).current_slot == old(self).current_slot,
            final(self).genesis_timestamp == old(self).genesis_timestamp,
    {
        let copy = block.clone();
        if chain.add_block(block) {
            self.slot_deadline = now_ms.saturating_add(SLOT_INTERVAL_MS);
            Some(copy)
        } else {
            None
        }
    }

    /// Ends the current slot at `now_ms` with the block that this node's
    /// round produced, if any: the block is committed if it is valid and
    /// its slot is free, and then handed back for gossip. The driver moves
    /// to the next slot, due ten seconds from now.
    pub fn finish_slot(&mut self, chain: &mut ChainState, produced: Option<Block>, now_ms: u64) -> (r:
        Option<Block>)
        ensures
            match produced {
                Some(block) => match old(chain)@.after_block(
                    block,
                    signature_checks(block@.transactions),
                ) {
                    Some(after) => final(chain)@ == after && r is Some && r->0@ == block@,
                    None => final(chain)@ == old(chain)@ && r is None,
                },
                None => final(chain)@ == old(chain)@ && r is None,
            },
            final(self).current_slot == if old(self).current_slot < u64::MAX {
                (old(self).current_slot + 1) as u64
            } else {
                old(self).current_slot
            },
            final(self).current_slot >= old(self).current_slot,
            final(self).slot_deadline == next_deadline(now_ms),
            final(self).genesis_timestamp == old(self).genesis_timestamp,
    {
        let gossip: Option<Block> = match produced {
            Some(block) => {
                let copy = block.clone();
                if chain.add_block(block) {
                    Some(copy)
                } else {
                    None
                }
            },
            None => None,
        };
        self.current_slot = self.current_slot.saturating_add(1);
        self.slot_deadline = now_ms.saturating_add(SLOT_INTERVAL_MS);
        gossip
    }
}

} // verus!
