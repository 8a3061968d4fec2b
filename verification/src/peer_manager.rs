//! The table of known peers: at most fifty, in order of first contact.

use crate::clock::current_timestamp;
use crate::encoding::text_equal;
use crate::types::{clone_texts, text_views, PeerInfo, PeerInfoView};
use rand::seq::SliceRandom;
use vstd::prelude::*;

verus! {

/// Seconds after which a peer that was not heard of is stale.
pub const PEER_TIMEOUT: u64 = 300;

/// The most peers that the table holds.
pub const MAX_PEERS: usize = 50;

/// The most peers that are dialed in one round.
pub const MAX_DIALS: usize = 10;

pub open spec fn peer_views(peers: Seq<PeerInfo>) -> Seq<PeerInfoView> {
    Seq::new(peers.len(), |i: int| peers[i]@)
}

/// Whether a peer last seen at `last_seen` was heard of within the last 300
/// seconds before `now`.
pub open spec fn is_fresh(last_seen: u64, now: u64) -> bool {
    now <= last_seen || now - last_seen < 300
}

/// Position of the peer of address `addr`, or the number of peers if there
/// is none.
pub open spec fn peer_position(peers: Seq<PeerInfoView>, addr: Seq<char>) -> int
    decreases peers.len(),
{
    if peers.len() == 0 {
        0
    } else if peers[0].addr == addr {
        0
    } else {
        1 + peer_position(peers.drop_first(), addr)
    }
}

pub open spec fn knows_peer(peers: Seq<PeerInfoView>, addr: Seq<char>) -> bool {
    peer_position(peers, addr) < peers.len()
}

/// Whether no two peers share an address.
pub open spec fn distinct_peers(peers: Seq<PeerInfoView>) -> bool {
    forall|i: int, j: int|
        #![trigger peers[i], peers[j]]
        0 <= i < j < peers.len() ==> peers[i].addr != peers[j].addr
}

/// The table after `addr` was first heard of at `now`: unchanged if it is
/// known already or the table is full, else with a new disconnected peer
/// at the end.
pub open spec fn peer_added(peers: Seq<PeerInfoView>, addr: Seq<char>, now: u64) -> Seq<PeerInfoView> {
    if peers.len() >= 50 || knows_peer(peers, addr) {
        peers
    } else {
        peers.push(PeerInfoView { addr, last_seen: now, connected: false })
    }
}

/// The table with the peer of address `addr`, if known, replaced by
/// `change` of it.
pub open spec fn peer_changed(
    peers: Seq<PeerInfoView>,
    addr: Seq<char>,
    change: spec_fn(PeerInfoView) -> PeerInfoView,
) -> Seq<PeerInfoView> {
    let p = peer_position(peers, addr);
    if p < peers.len() {
        peers.update(p, change(peers[p]))
    } else {
        peers
    }
}

pub open spec fn connected_at(now: u64) -> spec_fn(PeerInfoView) -> PeerInfoView {
    |peer: PeerInfoView| PeerInfoView { addr: peer.addr, last_seen: now, connected: true }
}

pub open spec fn disconnected() -> spec_fn(PeerInfoView) -> PeerInfoView {
    |peer: PeerInfoView| PeerInfoView { addr: peer.addr, last_seen: peer.last_seen, connected: false }
}

pub open spec fn seen_at(now: u64) -> spec_fn(PeerInfoView) -> PeerInfoView {
    |peer: PeerInfoView| PeerInfoView { addr: peer.addr, last_seen: now, connected: peer.connected }
}

/// The addresses of the connected peers, in the table's order.
pub open spec fn connected_addresses(peers: Seq<PeerInfoView>) -> Seq<Seq<char>>
    decreases peers.len(),
{
    if peers.len() == 0 {
        Seq::empty()
    } else if peers.last().connected {
        connected_addresses(peers.drop_last()).push(peers.last().addr)
    } else {
        connected_addresses(peers.drop_last())
    }
}

/// The addresses of the peers that may be dialed at `now`: those that are
/// disconnected and fresh, in the table's order.
pub open spec fn dialable_addresses(peers: Seq<PeerInfoView>, now: u64) -> Seq<Seq<char>>
    decreases peers.len(),
{
    if peers.len() == 0 {
        Seq::empty()
    } else if !peers.last().connected && is_fresh(peers.last().last_seen, now) {
        dialable_addresses(peers.drop_last(), now).push(peers.last().addr)
    } else {
        dialable_addresses(peers.drop_last(), now)
    }
}

/// The addresses of all peers, in the table's order.
pub open spec fn all_addresses(peers: Seq<PeerInfoView>) -> Seq<Seq<char>> {
    Seq::new(peers.len(), |i: int| peers[i].addr)
}

/// The table without its stale peers: those that are disconnected and were
/// not heard of in the last 300 seconds before `now`.
pub open spec fn without_stale(peers: Seq<PeerInfoView>, now: u64) -> Seq<PeerInfoView>
    decreases peers.len(),
{
    if peers.len() == 0 {
        Seq::empty()
    } else if peers.last().connected || is_fresh(peers.last().last_seen, now) {
        without_stale(peers.drop_last(), now).push(peers.last())
    } else {
        without_stale(peers.drop_last(), now)
    }
}

/// Whether `dials` is what a shuffle of `candidates` begins with: its first
/// ten, or all of it if there are fewer.
pub open spec fn is_dial_list(candidates: Seq<Seq<char>>, dials: Seq<Seq<char>>) -> bool {
    exists|shuffled: Seq<Seq<char>>|
        {
            &&& #[trigger] shuffled.to_multiset() == candidates.to_multiset()
            &&& shuffled.len() == candidates.len()
            &&& dials == shuffled.take(if shuffled.len() < 10 {
                shuffled.len() as int
            } else {
                10
            })
        }
}

pub proof fn lemma_peer_position(peers: Seq<PeerInfoView>, addr: Seq<char>)
    ensures
        0 <= peer_position(peers, addr) <= peers.len(),
        peer_position(peers, addr) < peers.len() ==> peers[peer_position(peers, addr)].addr == addr,
        forall|j: int| 0 <= j < peer_position(peers, addr) ==> (#[trigger] peers[j]).addr != addr,
    decreases peers.len(),
{
    if peers.len() > 0 && peers[0].addr != addr {
        let rest = peers.drop_first();
        lemma_peer_position(rest, addr);
        assert forall|j: int| 0 <= j < peer_position(peers, addr) implies (#[trigger] peers[j]).addr
            != addr by {
            if j > 0 {
                assert(rest[j - 1] == peers[j]);
            }
        }
    }
}

pub proof fn lemma_peer_position_found(peers: Seq<PeerInfoView>, addr: Seq<char>, p: int)
    requires
        0 <= p <= peers.len(),
        p < peers.len() ==> peers[p].addr == addr,
        forall|j: int| 0 <= j < p ==> (#[trigger] peers[j]).addr != addr,
    ensures
        peer_position(peers, addr) == p,
{
    lemma_peer_position(peers, addr);
    let q = peer_position(peers, addr);
    if q < p {
        assert(peers[q].addr != addr);
    }
}

/// Sweeping keeps the peers that it keeps in order, and adds none.
pub proof fn lemma_without_stale(peers: Seq<PeerInfoView>, now: u64)
    requires
        distinct_peers(peers),
    ensures
        distinct_peers(without_stale(peers, now)),
        without_stale(peers, now).len() <= peers.len(),
        forall|k: int|
            0 <= k < without_stale(peers, now).len() ==> exists|j: int|
                0 <= j < peers.len() && peers[j] == #[trigger] without_stale(peers, now)[k],
    decreases peers.len(),
{
    if peers.len() > 0 {
        let init = peers.drop_last();
        let last = peers.last();
        assert(distinct_peers(init)) by {
            assert forall|i: int, j: int|
                #![trigger init[i], init[j]]
                0 <= i < j < init.len() implies init[i].addr != init[j].addr by {
                assert(init[i] == peers[i] && init[j] == peers[j]);
            }
        }
        lemma_without_stale(init, now);
        let kept = without_stale(init, now);
        let after = without_stale(peers, now);
        assert forall|k: int| 0 <= k < after.len() implies exists|j: int|
            0 <= j < peers.len() && peers[j] == #[trigger] after[k] by {
            if k < kept.len() {
                assert(after[k] == kept[k]);
                let j = choose|j: int| 0 <= j < init.len() && init[j] == kept[k];
                assert(peers[j] == init[j]);
            } else {
                assert(peers[peers.len() - 1] == after[k]);
            }
        }
        assert forall|a: int, b: int|
            #![trigger after[a], after[b]]
            0 <= a < b < after.len() implies after[a].addr != after[b].addr by {
            assert(after[a] == kept[a]);
            if b < kept.len() {
                assert(after[b] == kept[b]);
            } else {
                let j = choose|j: int| 0 <= j < init.len() && init[j] == kept[a];
                assert(peers[j] == init[j]);
                assert(peers[peers.len() - 1] == last);
            }
        }
    }
}

/// Calls `rand::seq::SliceRandom::shuffle` with `rand::thread_rng()`.
/// Trusted: the list holds afterwards what it held before, in some order.
/// Which order is not said, and two calls may differ.
#[verifier::external_body]
pub(crate) fn shuffle_texts(items: &mut Vec<String>)
    ensures
        text_views(final(items)@).to_multiset() == text_views(old(items)@).to_multiset(),
        final(items)@.len() == old(items)@.len(),
{
    let mut rng = rand::thread_rng();
    items.shuffle(&mut rng);
}

/// The first `limit` of a list, or all of it if it has fewer.
pub fn take_first(items: Vec<String>, limit: usize) -> (r: Vec<String>)
    ensures
        text_views(r@) == text_views(items@).take(
            if items.len() < limit {
                items.len() as int
            } else {
                limit as int
            },
        ),
{
    let mut items = items;
    let ghost before = text_views(items@);
    if items.len() > limit {
        items.truncate(limit);
    }
    assert(text_views(items@) =~= before.take(
        if before.len() < limit {
            before.len() as int
        } else {
            limit as int
        },
    ));
    items
}

/// The table of known peers, with the nodes to contact first.
pub struct PeerManager {
    peers: Vec<PeerInfo>,
    bootstrap_nodes: Vec<String>,
}

impl PeerManager {
    #[verifier::type_invariant]
    spec fn well_formed(self) -> bool {
        &&& self.peers@.len() <= MAX_PEERS
        &&& distinct_peers(peer_views(self.peers@))
    }

    /// The known peers, in order of first contact.
    pub closed spec fn peers(&self) -> Seq<PeerInfoView> {
        peer_views(self.peers@)
    }

    pub closed spec fn bootstrap(&self) -> Seq<Seq<char>> {
        text_views(self.bootstrap_nodes@)
    }

    /// An empty table.
    pub fn new(bootstrap_nodes: Vec<String>) -> (r: PeerManager)
        ensures
            r.peers() == Seq::<PeerInfoView>::empty(),
            r.bootstrap() == text_views(bootstrap_nodes@),
    {
        let peers: Vec<PeerInfo> = Vec::new();
        assert(peer_views(peers@) =~= Seq::<PeerInfoView>::empty());
        PeerManager { peers, bootstrap_nodes }
    }

    /// Number of known peers: never above fifty, and no address twice.
    pub fn len(&self) -> (r: usize)
        ensures
            r == self.peers().len(),
            r <= MAX_PEERS,
            distinct_peers(self.peers()),
    {
        proof {
            use_type_invariant(self);
        }
        self.peers.len()
    }

    fn find(&self, addr: &str) -> (p: usize)
        ensures
            p == peer_position(self.peers(), addr@),
            p <= self.peers@.len(),
    {
        let mut i: usize = 0;
        while i < self.peers.len()
            invariant
                i <= self.peers.len(),
                forall|j: int| 0 <= j < i ==> (#[trigger] self.peers()[j]).addr != addr@,
            decreases self.peers.len() - i,
        {
            if text_equal(self.peers[i].addr.as_str(), addr) {
                proof {
                    lemma_peer_position_found(self.peers(), addr@, i as int);
                }
                return i;
            }
            i = i + 1;
        }
        proof {
            lemma_peer_position_found(self.peers(), addr@, i as int);
        }
        i
    }

    /// Records a peer first heard of at `now`, unless it is known or the
    /// table is full.
    pub fn add_peer_at(&mut self, addr: String, now: u64)
        ensures
            final(self).peers() == peer_added(old(self).peers(), addr@, now),
            final(self).bootstrap() == old(self).bootstrap(),
            final(self).peers().len() <= MAX_PEERS,
    {
        proof {
            use_type_invariant(&*self);
        }
        if self.peers.len() >= MAX_PEERS {
            return ;
        }
        let p = self.find(addr.as_str());
        if p < self.peers.len() {
            return ;
        }
        let mut peers: Vec<PeerInfo> = Vec::new();
        assert(peer_views(peers@) =~= Seq::<PeerInfoView>::empty());
        core::mem::swap(&mut self.peers, &mut peers);
        let ghost before = peer_views(peers@);
        let ghost added = PeerInfoView { addr: addr@, last_seen: now, connected: false };
        peers.push(PeerInfo { addr, last_seen: now, connected: false });
        proof {
            let after = peer_views(peers@);
            assert(after =~= before.push(added));
            lemma_peer_position(before, added.addr);
            assert forall|i: int, j: int|
                #![trigger after[i], after[j]]
                0 <= i < j < after.len() implies after[i].addr != after[j].addr by {
                assert(after[i] == before[i]);
                if j < before.len() {
                    assert(after[j] == before[j]);
                }
            }
        }
        core::mem::swap(&mut self.peers, &mut peers);
    }

    fn change_at(&mut self, addr: &str, connected: Option<bool>, seen: Option<u64>)
        ensures
            final(self).peers() == peer_changed(
                old(self).peers(),
                addr@,
                |peer: PeerInfoView|
                    PeerInfoView {
                        addr: peer.addr,
                        last_seen: match seen {
                            Some(now) => now,
                            None => peer.last_seen,
                        },
                        connected: match connected {
                            Some(flag) => flag,
                            None => peer.connected,
                        },
                    },
            ),
            final(self).bootstrap() == old(self).bootstrap(),
    {
        proof {
            use_type_invariant(&*self);
        }
        let p = self.find(addr);
        if p >= self.peers.len() {
            return ;
        }
        let mut peers: Vec<PeerInfo> = Vec::new();
        assert(peer_views(peers@) =~= Seq::<PeerInfoView>::empty());
        core::mem::swap(&mut self.peers, &mut peers);
        let ghost before = peer_views(peers@);
        let last_seen: u64 = match seen {
            Some(now) => now,
            None => peers[p].last_seen,
        };
        let flag: bool = match connected {
            Some(flag) => flag,
            None => peers[p].connected,
        };
        let changed = PeerInfo { addr: peers[p].addr.clone(), last_seen, connected: flag };
        peers[p] = changed;
        proof {
            let after = peer_views(peers@);
            assert(after =~= before.update(p as int, after[p as int]));
            assert forall|i: int, j: int|
                #![trigger after[i], after[j]]
                0 <= i < j < after.len() implies after[i].addr != after[j].addr by {
                assert(after[i].addr == before[i].addr && after[j].addr == before[j].addr);
            }
        }
        core::mem::swap(&mut self.peers, &mut peers);
    }

    /// Marks a known peer as connected and as heard of at `now`.
    pub fn mark_connected_at(&mut self, addr: &str, now: u64)
        ensures
            final(self).peers() == peer_changed(old(self).peers(), addr@, connected_at(now)),
            final(self).bootstrap() == old(self).bootstrap(),
    {
        self.change_at(addr, Some(true), Some(now));
        proof {
            let p = peer_position(old(self).peers(), addr@);
            lemma_peer_position(old(self).peers(), addr@);
            assert(self.peers() =~= peer_changed(old(self).peers(), addr@, connected_at(now)));
        }
    }

    /// Marks a known peer as disconnected.
    pub fn mark_disconnected(&mut self, addr: &str)
        ensures
            final(self).peers() == peer_changed(old(self).peers(), addr@, disconnected()),
            final(self).bootstrap() == old(self).bootstrap(),
    {
        self.change_at(addr, Some(false), None);
        proof {
            lemma_peer_position(old(self).peers(), addr@);
            assert(self.peers() =~= peer_changed(old(self).peers(), addr@, disconnected()));
        }
    }

    /// Marks a known peer as heard of at `now`.
    pub fn update_seen_at(&mut self, addr: &str, now: u64)
        ensures
            final(self).peers() == peer_changed(old(self).peers(), addr@, seen_at(now)),
            final(self).bootstrap() == old(self).bootstrap(),
    {
        self.change_at(addr, None, Some(now));
        proof {
            lemma_peer_position(old(self).peers(), addr@);
            assert(self.peers() =~= peer_changed(old(self).peers(), addr@, seen_at(now)));
        }
    }

    /// Records a peer first heard of now, unless it is known or the table
    /// is full.
    pub fn add_peer(&mut self, addr: String)
        ensures
            exists|now: u64| final(self).peers() == peer_added(old(self).peers(), addr@, now),
            final(self).bootstrap() == old(self).bootstrap(),
    {
        let now = current_timestamp();
        self.add_peer_at(addr, now);
        assert(self.peers() == peer_added(old(self).peers(), addr@, now));
    }

    /// Marks a known peer as connected and as heard of now.
    pub fn mark_connected(&mut self, addr: &str)
        ensures
            exists|now: u64|
                final(self).peers() == peer_changed(old(self).peers(), addr@, connected_at(now)),
            final(self).bootstrap() == old(self).bootstrap(),
    {
        let now = current_timestamp();
        self.mark_connected_at(addr, now);
        assert(self.peers() == peer_changed(old(self).peers(), addr@, connected_at(now)));
    }

    /// Marks a known peer as heard of now.
    pub fn update_seen(&mut self, addr: &str)
        ensures
            exists|now: u64| final(self).peers() == peer_changed(old(self).peers(), addr@, seen_at(now)),
            final(self).bootstrap() == old(self).bootstrap(),
    {
        let now = current_timestamp();
        self.update_seen_at(addr, now);
        assert(self.peers() == peer_changed(old(self).peers(), addr@, seen_at(now)));
    }

    /// The addresses of the connected peers.
    pub fn get_connected_peers(&self) -> (r: Vec<String>)
        ensures
            text_views(r@) == connected_addresses(self.peers()),
    {
        let ghost views = self.peers();
        let mut out: Vec<String> = Vec::new();
        let mut i: usize = 0;
        assert(views.take(0) =~= Seq::<PeerInfoView>::empty());
        assert(text_views(out@) =~= Seq::<Seq<char>>::empty());
        while i < self.peers.len()
            invariant
                i <= self.peers.len(),
                views == self.peers(),
                text_views(out@) == connected_addresses(views.take(i as int)),
            decreases self.peers.len() - i,
        {
            proof {
                assert(views.take(i + 1).drop_last() =~= views.take(i as int));
                assert(views.take(i + 1).last() == self.peers[i as int]@);
            }
            if self.peers[i].connected {
                let ghost before = text_views(out@);
                out.push(self.peers[i].addr.clone());
                assert(text_views(out@) =~= before.push(self.peers[i as int].addr@));
            }
            i = i + 1;
        }
        assert(views.take(i as int) =~= views);
        out
    }

    /// The addresses of all known peers.
    pub fn get_all_known_peers(&self) -> (r: Vec<String>)
        ensures
            text_views(r@) == all_addresses(self.peers()),
    {
        let mut out: Vec<String> = Vec::new();
        let mut i: usize = 0;
        while i < self.peers.len()
            invariant
                i <= self.peers.len(),
                out.len() == i,
                forall|j: int| 0 <= j < i ==> (#[trigger] out[j])@ == self.peers[j].addr@,
            decreases self.peers.len() - i,
        {
            out.push(self.peers[i].addr.clone());
            i = i + 1;
        }
        assert(text_views(out@) =~= all_addresses(self.peers()));
        out
    }

    /// The addresses of the peers that may be dialed at `now`: disconnected
    /// and heard of within the last 300 seconds.
    pub fn dialable_peers_at(&self, now: u64) -> (r: Vec<String>)
        ensures
            text_views(r@) == dialable_addresses(self.peers(), now),
    {
        let ghost views = self.peers();
        let mut out: Vec<String> = Vec::new();
        let mut i: usize = 0;
        assert(views.take(0) =~= Seq::<PeerInfoView>::empty());
        assert(text_views(out@) =~= Seq::<Seq<char>>::empty());
        while i < self.peers.len()
            invariant
                i <= self.peers.len(),
                views == self.peers(),
                text_views(out@) == dialable_addresses(views.take(i as int), now),
            decreases self.peers.len() - i,
        {
            proof {
                assert(views.take(i + 1).drop_last() =~= views.take(i as int));
                assert(views.take(i + 1).last() == self.peers[i as int]@);
            }
            let peer = &self.peers[i];
            if !peer.connected && (now <= peer.last_seen || now - peer.last_seen < PEER_TIMEOUT) {
                let ghost before = text_views(out@);
                out.push(peer.addr.clone());
                assert(text_views(out@) =~= before.push(peer.addr@));
            }
            i = i + 1;
        }
        assert(views.take(i as int) =~= views);
        out
    }

    /// Up to ten peers to dial now, drawn at random from those that are
    /// disconnected and were heard of within the last 300 seconds.
    pub fn get_peers_to_connect(&self) -> (r: Vec<String>)
        ensures
            exists|now: u64| is_dial_list(dialable_addresses(self.peers(), now), text_views(r@)),
            r.len() <= MAX_DIALS,
    {
        let now = current_timestamp();
        let mut candidates = self.dialable_peers_at(now);
        let ghost listed = text_views(candidates@);
        shuffle_texts(&mut candidates);
        let ghost shuffled = text_views(candidates@);
        let dials = take_first(candidates, MAX_DIALS);
        proof {
            assert(shuffled.len() == listed.len());
            assert(is_dial_list(dialable_addresses(self.peers(), now), text_views(dials@)));
            assert(text_views(dials@).len() == dials@.len());
        }
        dials
    }

    /// Drops the peers that are stale at `now`: disconnected, and not heard
    /// of in the last 300 seconds.
    pub fn cleanup_stale_peers_at(&mut self, now: u64)
        ensures
            final(self).peers() == without_stale(old(self).peers(), now),
            final(self).bootstrap() == old(self).bootstrap(),
    {
        proof {
            use_type_invariant(&*self);
        }
        let mut peers: Vec<PeerInfo> = Vec::new();
        assert(peer_views(peers@) =~= Seq::<PeerInfoView>::empty());
        core::mem::swap(&mut self.peers, &mut peers);
        let ghost before = peer_views(peers@);
        let mut kept: Vec<PeerInfo> = Vec::new();
        let mut i: usize = 0;
        assert(before.take(0) =~= Seq::<PeerInfoView>::empty());
        assert(peer_views(kept@) =~= Seq::<PeerInfoView>::empty());
        while i < peers.len()
            invariant
                i <= peers.len(),
                before == peer_views(peers@),
                peer_views(kept@) == without_stale(before.take(i as int), now),
            decreases peers.len() - i,
        {
            proof {
                assert(before.take(i + 1).drop_last() =~= before.take(i as int));
                assert(before.take(i + 1).last() == peers[i as int]@);
            }
            let peer = &peers[i];
            if peer.connected || now <= peer.last_seen || now - peer.last_seen < PEER_TIMEOUT {
                let ghost so_far = peer_views(kept@);
                kept.push(peer.clone());
                assert(peer_views(kept@) =~= so_far.push(peer@));
            }
            i = i + 1;
        }
        proof {
            assert(before.take(i as int) =~= before);
            lemma_without_stale(before, now);
            assert(peer_views(kept@).len() == kept@.len());
        }
        core::mem::swap(&mut self.peers, &mut kept);
    }

    /// Drops the peers that are stale now.
    pub fn cleanup_stale_peers(&mut self)
        ensures
            exists|now: u64| final(self).peers() == without_stale(old(self).peers(), now),
            final(self).bootstrap() == old(self).bootstrap(),
    {
        let now = current_timestamp();
        self.cleanup_stale_peers_at(now);
        assert(self.peers() == without_stale(old(self).peers(), now));
    }

    /// The nodes to contact first.
    pub fn get_bootstrap_nodes(&self) -> (r: Vec<String>)
        ensures
            text_views(r@) == self.bootstrap(),
    {
        clone_texts(&self.bootstrap_nodes)
    }
}

} // verus!
