//! Operational history for the dashboard: the latest blocks, transactions
//! and log lines, the connected peers, and running counters. The three
//! histories are bounded; what is oldest leaves first.

use crate::clock::current_timestamp;
use crate::encoding::text_equal;
use vstd::prelude::*;

verus! {

pub const MAX_BLOCK_HISTORY: usize = 100;

pub const MAX_TX_HISTORY: usize = 50;

pub const MAX_LOG_ENTRIES: usize = 500;

/// Average time of a block, in milliseconds, before any block was recorded.
pub const DEFAULT_BLOCK_TIME_MS: u64 = 10_000;

#[derive(Debug)]
pub struct BlockMetric {
    pub slot: u64,
    pub hash: String,
    pub producer: String,
    pub tx_count: usize,
    pub time_ms: u64,
    pub timestamp: u64,
}

pub struct BlockMetricView {
    pub slot: u64,
    pub hash: Seq<char>,
    pub producer: Seq<char>,
    pub tx_count: usize,
    pub time_ms: u64,
    pub timestamp: u64,
}

impl View for BlockMetric {
    type V = BlockMetricView;

    open spec fn view(&self) -> BlockMetricView {
        BlockMetricView {
            slot: self.slot,
            hash: self.hash@,
            producer: self.producer@,
            tx_count: self.tx_count,
            time_ms: self.time_ms,
            timestamp: self.timestamp,
        }
    }
}

impl Clone for BlockMetric {
    fn clone(&self) -> (r: Self)
        ensures
            r@ == self@,
    {
        BlockMetric {
            slot: self.slot,
            hash: self.hash.clone(),
            producer: self.producer.clone(),
            tx_count: self.tx_count,
            time_ms: self.time_ms,
            timestamp: self.timestamp,
        }
    }
}

#[derive(Debug)]
pub struct TxMetric {
    pub from: String,
    pub to: String,
    pub amount: u64,
    pub hash: String,
    pub timestamp: u64,
}

pub struct TxMetricView {
    pub from: Seq<char>,
    pub to: Seq<char>,
    pub amount: u64,
    pub hash: Seq<char>,
    pub timestamp: u64,
}

impl View for TxMetric {
    type V = TxMetricView;

    open spec fn view(&self) -> TxMetricView {
        TxMetricView {
            from: self.from@,
            to: self.to@,
            amount: self.amount,
            hash: self.hash@,
            timestamp: self.timestamp,
        }
    }
}

impl Clone for TxMetric {
    fn clone(&self) -> (r: Self)
        ensures
            r@ == self@,
    {
        TxMetric {
            from: self.from.clone(),
            to: self.to.clone(),
            amount: self.amount,
            hash: self.hash.clone(),
            timestamp: self.timestamp,
        }
    }
}

#[derive(Debug)]
pub struct PeerMetric {
    pub peer_id: String,
    pub address: String,
    pub latency_ms: u64,
    pub connected_at: u64,
}

pub struct PeerMetricView {
    pub peer_id: Seq<char>,
    pub address: Seq<char>,
    pub latency_ms: u64,
    pub connected_at: u64,
}

impl View for PeerMetric {
    type V = PeerMetricView;

    open spec fn view(&self) -> PeerMetricView {
        PeerMetricView {
            peer_id: self.peer_id@,
            address: self.address@,
            latency_ms: self.latency_ms,
            connected_at: self.connected_at,
        }
    }
}

impl Clone for PeerMetric {
    fn clone(&self) -> (r: Self)
        ensures
            r@ == self@,
    {
        PeerMetric {
            peer_id: self.peer_id.clone(),
            address: self.address.clone(),
            latency_ms: self.latency_ms,
            connected_at: self.connected_at,
        }
    }
}

#[derive(Debug)]
pub struct LogEntry {
    pub timestamp: u64,
    pub level: String,
    pub message: String,
}

pub struct LogEntryView {
    pub timestamp: u64,
    pub level: Seq<char>,
    pub message: Seq<char>,
}

impl View for LogEntry {
    type V = LogEntryView;

    open spec fn view(&self) -> LogEntryView {
        LogEntryView { timestamp: self.timestamp, level: self.level@, message: self.message@ }
    }
}

impl Clone for LogEntry {
    fn clone(&self) -> (r: Self)
        ensures
            r@ == self@,
    {
        LogEntry { timestamp: self.timestamp, level: self.level.clone(), message: self.message.clone() }
    }
}

/// The counters of a node at one moment.
#[derive(Debug, Clone, Copy, PartialEq, Eq)]
pub struct StatusSummary {
    pub current_slot: u64,
    pub blocks_produced: u64,
    pub mempool_size: usize,
    pub connected_peers: usize,
    pub uptime_seconds: u64,
    /// Mean time of the recorded blocks, in milliseconds.
    pub avg_block_time: u64,
    /// Transactions in the latest recorded block, and its time.
    pub latest_tx_count: usize,
    pub latest_block_time_ms: u64,
    /// Transactions in all blocks still in the history.
    pub history_tx_count: u64,
    pub total_block_time_ms: u64,
    pub memory_mb: u64,
}

/// A history with one more item, without its oldest if it then exceeds
/// `cap`.
pub open spec fn pushed_within<T>(history: Seq<T>, item: T, cap: int) -> Seq<T> {
    if history.len() + 1 > cap {
        history.push(item).drop_first()
    } else {
        history.push(item)
    }
}

/// The sum of two counters, or the largest number where that is beyond it.
pub open spec fn capped_sum(a: u64, b: u64) -> u64 {
    if a + b > u64::MAX {
        u64::MAX
    } else {
        (a + b) as u64
    }
}

pub open spec fn block_metric_views(items: Seq<BlockMetric>) -> Seq<BlockMetricView> {
    Seq::new(items.len(), |i: int| items[i]@)
}

pub open spec fn tx_metric_views(items: Seq<TxMetric>) -> Seq<TxMetricView> {
    Seq::new(items.len(), |i: int| items[i]@)
}

pub open spec fn peer_metric_views(items: Seq<PeerMetric>) -> Seq<PeerMetricView> {
    Seq::new(items.len(), |i: int| items[i]@)
}

pub open spec fn log_entry_views(items: Seq<LogEntry>) -> Seq<LogEntryView> {
    Seq::new(items.len(), |i: int| items[i]@)
}

/// Whether some peer has the id.
pub open spec fn has_peer_id(peers: Seq<PeerMetricView>, peer_id: Seq<char>) -> bool {
    exists|i: int| 0 <= i < peers.len() && (#[trigger] peers[i]).peer_id == peer_id
}

/// The peers without those of the id.
pub open spec fn without_peer_id(peers: Seq<PeerMetricView>, peer_id: Seq<char>) -> Seq<PeerMetricView>
    decreases peers.len(),
{
    if peers.len() == 0 {
        Seq::empty()
    } else if peers.last().peer_id == peer_id {
        without_peer_id(peers.drop_last(), peer_id)
    } else {
        without_peer_id(peers.drop_last(), peer_id).push(peers.last())
    }
}

/// Index of the first peer of the id, or the number of peers.
pub open spec fn first_peer_id(peers: Seq<PeerMetricView>, peer_id: Seq<char>) -> int
    decreases peers.len(),
{
    if peers.len() == 0 {
        0
    } else if peers[0].peer_id == peer_id {
        0
    } else {
        1 + first_peer_id(peers.drop_first(), peer_id)
    }
}

/// The transactions in all blocks of a history, capped at the largest
/// number.
pub open spec fn history_transactions(blocks: Seq<BlockMetricView>) -> u64
    decreases blocks.len(),
{
    if blocks.len() == 0 {
        0
    } else {
        capped_sum(history_transactions(blocks.drop_last()), blocks.last().tx_count as u64)
    }
}

pub struct MetricsView {
    pub blocks: Seq<BlockMetricView>,
    pub transactions: Seq<TxMetricView>,
    pub peers: Seq<PeerMetricView>,
    pub logs: Seq<LogEntryView>,
    pub start_time: u64,
    pub blocks_produced: u64,
    pub current_slot: u64,
    pub mempool_size: usize,
    pub total_block_time_ms: u64,
    pub block_count: u64,
    pub memory_mb: u64,
}

/// The status that a set of metrics amounts to at `now`.
pub open spec fn status_of(m: MetricsView, now: u64) -> StatusSummary {
    StatusSummary {
        current_slot: m.current_slot,
        blocks_produced: m.blocks_produced,
        mempool_size: m.mempool_size,
        connected_peers: m.peers.len() as usize,
        uptime_seconds: if now >= m.start_time {
            (now - m.start_time) as u64
        } else {
            0
        },
        avg_block_time: if m.block_count > 0 {
            m.total_block_time_ms / m.block_count
        } else {
            10_000
        },
        latest_tx_count: if m.blocks.len() > 0 {
            m.blocks.last().tx_count
        } else {
            0
        },
        latest_block_time_ms: if m.blocks.len() > 0 {
            m.blocks.last().time_ms
        } else {
            0
        },
        history_tx_count: history_transactions(m.blocks),
        total_block_time_ms: m.total_block_time_ms,
        memory_mb: m.memory_mb,
    }
}

/// The metrics with one more log line, written at `now`.
pub open spec fn with_log(m: MetricsView, level: Seq<char>, message: Seq<char>, now: u64) -> MetricsView {
    MetricsView {
        logs: pushed_within(m.logs, LogEntryView { timestamp: now, level, message }, 500),
        ..m
    }
}

/// A node's operational metrics.
pub struct Metrics {
    blocks: Vec<BlockMetric>,
    transactions: Vec<TxMetric>,
    peers: Vec<PeerMetric>,
    logs: Vec<LogEntry>,
    start_time: u64,
    blocks_produced: u64,
    current_slot: u64,
    mempool_size: usize,
    total_block_time_ms: u64,
    block_count: u64,
    memory_mb: u64,
}

fn push_within<T>(history: &mut Vec<T>, item: T, cap: usize)
    requires
        old(history).len() <= cap,
        cap >= 1,
    ensures
        final(history)@ == pushed_within(old(history)@, item, cap as int),
        final(history).len() <= cap,
{
    history.push(item);
    if history.len() > cap {
        let _ = history.remove(0);
        assert(history@ =~= old(history)@.push(item).drop_first());
    }
}

impl Metrics {
    #[verifier::type_invariant]
    spec fn well_formed(self) -> bool {
        &&& self.blocks@.len() <= MAX_BLOCK_HISTORY
        &&& self.transactions@.len() <= MAX_TX_HISTORY
        &&& self.logs@.len() <= MAX_LOG_ENTRIES
    }

    pub closed spec fn view(&self) -> MetricsView {
        MetricsView {
            blocks: block_metric_views(self.blocks@),
            transactions: tx_metric_views(self.transactions@),
            peers: peer_metric_views(self.peers@),
            logs: log_entry_views(self.logs@),
            start_time: self.start_time,
            blocks_produced: self.blocks_produced,
            current_slot: self.current_slot,
            mempool_size: self.mempool_size,
            total_block_time_ms: self.total_block_time_ms,
            block_count: self.block_count,
            memory_mb: self.memory_mb,
        }
    }

    /// Empty metrics of a node started at `now`.
    pub fn new_at(now: u64) -> (r: Metrics)
        ensures
            r@ == (MetricsView {
                blocks: Seq::empty(),
                transactions: Seq::empty(),
                peers: Seq::empty(),
                logs: Seq::empty(),
                start_time: now,
                blocks_produced: 0,
                current_slot: 0,
                mempool_size: 0,
                total_block_time_ms: 0,
                block_count: 0,
                memory_mb: 0,
            }),
    {
        let r = Metrics {
            blocks: Vec::new(),
            transactions: Vec::new(),
            peers: Vec::new(),
            logs: Vec::new(),
            start_time: now,
            blocks_produced: 0,
            current_slot: 0,
            mempool_size: 0,
            total_block_time_ms: 0,
            block_count: 0,
            memory_mb: 0,
        };
        assert(r@.blocks =~= Seq::empty());
        assert(r@.transactions =~= Seq::empty());
        assert(r@.peers =~= Seq::empty());
        assert(r@.logs =~= Seq::empty());
        r
    }

    /// Empty metrics of a node started now: nothing recorded, every counter at zero.
    pub fn new() -> (r: Metrics)
        ensures
            exists|now: u64| r@ == #[trigger] empty_metrics(now),
    {
        let now = current_timestamp();
        let r = Self::new_at(now);
        assert(r@ == empty_metrics(now));
        r
    }

    /// How much history is held: never more than 100 blocks, 50
    /// transactions and 500 log lines.
    pub fn history_sizes(&self) -> (r: (usize, usize, usize))
        ensures
            r.0 == self@.blocks.len() && r.0 <= MAX_BLOCK_HISTORY,
            r.1 == self@.transactions.len() && r.1 <= MAX_TX_HISTORY,
            r.2 == self@.logs.len() && r.2 <= MAX_LOG_ENTRIES,
    {
        proof {
            use_type_invariant(self);
        }
        (self.blocks.len(), self.transactions.len(), self.logs.len())
    }

    /// Records a block: it becomes the current slot, and its time counts
    /// towards the average.
    pub fn record_block(&mut self, block: BlockMetric)
        ensures
            final(self)@ == (MetricsView {
                blocks: pushed_within(old(self)@.blocks, block@, 100),
                blocks_produced: capped_sum(old(self)@.blocks_produced, 1),
                current_slot: block.slot,
                total_block_time_ms: capped_sum(old(self)@.total_block_time_ms, block.time_ms),
                block_count: capped_sum(old(self)@.block_count, 1),
                ..old(self)@
            }),
    {
        proof {
            use_type_invariant(&*self);
        }
        self.blocks_produced = self.blocks_produced.saturating_add(1);
        self.current_slot = block.slot;
        self.total_block_time_ms = self.total_block_time_ms.saturating_add(block.time_ms);
        self.block_count = self.block_count.saturating_add(1);
        let mut blocks: Vec<BlockMetric> = Vec::new();
        core::mem::swap(&mut self.blocks, &mut blocks);
        let ghost before = block_metric_views(blocks@);
        let ghost added = block@;
        push_within(&mut blocks, block, MAX_BLOCK_HISTORY);
        assert(block_metric_views(blocks@) =~= pushed_within(before, added, 100));
        core::mem::swap(&mut self.blocks, &mut blocks);
    }

    /// Records a transaction.
    pub fn record_transaction(&mut self, tx: TxMetric)
        ensures
            final(self)@ == (MetricsView {
                transactions: pushed_within(old(self)@.transactions, tx@, 50),
                ..old(self)@
            }),
    {
        proof {
            use_type_invariant(&*self);
        }
        let mut transactions: Vec<TxMetric> = Vec::new();
        core::mem::swap(&mut self.transactions, &mut transactions);
        let ghost before = tx_metric_views(transactions@);
        let ghost added = tx@;
        push_within(&mut transactions, tx, MAX_TX_HISTORY);
        assert(tx_metric_views(transactions@) =~= pushed_within(before, added, 50));
        core::mem::swap(&mut self.transactions, &mut transactions);
    }

    /// Records a log line written at `now`.
    pub fn add_log_at(&mut self, level: String, message: String, now: u64)
        ensures
            final(self)@ == with_log(old(self)@, level@, message@, now),
    {
        proof {
            use_type_invariant(&*self);
        }
        let mut logs: Vec<LogEntry> = Vec::new();
        core::mem::swap(&mut self.logs, &mut logs);
        let ghost before = log_entry_views(logs@);
        let ghost added = LogEntryView { timestamp: now, level: level@, message: message@ };
        push_within(&mut logs, LogEntry { timestamp: now, level, message }, MAX_LOG_ENTRIES);
        assert(log_entry_views(logs@) =~= pushed_within(before, added, 500));
        core::mem::swap(&mut self.logs, &mut logs);
    }

    /// Records a log line written now.
    pub fn add_log(&mut self, level: String, message: String)
        ensures
            exists|now: u64| final(self)@ == #[trigger] with_log(old(self)@, level@, message@, now),
    {
        let now = current_timestamp();
        let ghost level_view = level@;
        let ghost message_view = message@;
        self.add_log_at(level, message, now);
        assert(self@ == with_log(old(self)@, level_view, message_view, now));
    }

    fn find_peer(&self, peer_id: &str) -> (p: usize)
        ensures
            p == first_peer_id(self@.peers, peer_id@),
            p <= self.peers@.len(),
            (p < self.peers@.len()) == has_peer_id(self@.peers, peer_id@),
    {
        let ghost peers = self@.peers;
        let mut i: usize = 0;
        assert(peers.skip(0) =~= peers);
        while i < self.peers.len()
            invariant
                i <= self.peers.len(),
                peers == self@.peers,
                first_peer_id(peers, peer_id@) == i + first_peer_id(peers.skip(i as int), peer_id@),
                forall|j: int| 0 <= j < i ==> (#[trigger] peers[j]).peer_id != peer_id@,
            decreases self.peers.len() - i,
        {
            proof {
                assert(peers.skip(i as int)[0] == peers[i as int]);
                assert(peers.skip(i as int).drop_first() =~= peers.skip(i + 1));
            }
            if text_equal(self.peers[i].peer_id.as_str(), peer_id) {
                assert(peers[i as int].peer_id == peer_id@);
                return i;
            }
            i = i + 1;
        }
        i
    }

    /// Lists a peer, unless one of its id is listed.
    pub fn add_peer(&mut self, peer: PeerMetric)
        ensures
            final(self)@ == (MetricsView {
                peers: if has_peer_id(old(self)@.peers, peer@.peer_id) {
                    old(self)@.peers
                } else {
                    old(self)@.peers.push(peer@)
                },
                ..old(self)@
            }),
    {
        proof {
            use_type_invariant(&*self);
        }
        let p = self.find_peer(peer.peer_id.as_str());
        if p >= self.peers.len() {
            let ghost before = self@.peers;
            let ghost added = peer@;
            let mut peers: Vec<PeerMetric> = Vec::new();
            core::mem::swap(&mut self.peers, &mut peers);
            peers.push(peer);
            assert(peer_metric_views(peers@) =~= before.push(added));
            core::mem::swap(&mut self.peers, &mut peers);
        }
    }

    /// Unlists the peers of an id.
    pub fn remove_peer(&mut self, peer_id: &str)
        ensures
            final(self)@ == (MetricsView {
                peers: without_peer_id(old(self)@.peers, peer_id@),
                ..old(self)@
            }),
    {
        proof {
            use_type_invariant(&*self);
        }
        let ghost before = self@.peers;
        let mut peers: Vec<PeerMetric> = Vec::new();
        core::mem::swap(&mut self.peers, &mut peers);
        let mut kept: Vec<PeerMetric> = Vec::new();
        let mut i: usize = 0;
        assert(before.take(0) =~= Seq::<PeerMetricView>::empty());
        assert(peer_metric_views(kept@) =~= Seq::<PeerMetricView>::empty());
        while i < peers.len()
            invariant
                i <= peers.len(),
                before == peer_metric_views(peers@),
                peer_metric_views(kept@) == without_peer_id(before.take(i as int), peer_id@),
            decreases peers.len() - i,
        {
            proof {
                assert(before.take(i + 1).drop_last() =~= before.take(i as int));
                assert(before.take(i + 1).last() == peers[i as int]@);
            }
            if !text_equal(peers[i].peer_id.as_str(), peer_id) {
                let ghost so_far = peer_metric_views(kept@);
                kept.push(peers[i].clone());
                assert(peer_metric_views(kept@) =~= so_far.push(peers[i as int]@));
            }
            i = i + 1;
        }
        assert(before.take(i as int) =~= before);
        core::mem::swap(&mut self.peers, &mut kept);
    }

    /// Sets the latency of the first peer of an id, if there is one.
    pub fn update_peer_latency(&mut self, peer_id: &str, latency_ms: u64)
        ensures
            final(self)@ == (MetricsView {
                peers: {
                    let p = first_peer_id(old(self)@.peers, peer_id@);
                    if p < old(self)@.peers.len() {
                        old(self)@.peers.update(
                            p,
                            PeerMetricView { latency_ms, ..old(self)@.peers[p] },
                        )
                    } else {
                        old(self)@.peers
                    }
                },
                ..old(self)@
            }),
    {
        proof {
            use_type_invariant(&*self);
        }
        let p = self.find_peer(peer_id);
        if p < self.peers.len() {
            let ghost before = self@.peers;
            let mut peers: Vec<PeerMetric> = Vec::new();
            core::mem::swap(&mut self.peers, &mut peers);
            let changed = PeerMetric {
                peer_id: peers[p].peer_id.clone(),
                address: peers[p].address.clone(),
                latency_ms,
                connected_at: peers[p].connected_at,
            };
            peers[p] = changed;
            assert(peer_metric_views(peers@) =~= before.update(
                p as int,
                PeerMetricView { latency_ms, ..before[p as int] },
            ));
            core::mem::swap(&mut self.peers, &mut peers);
        }
    }

    pub fn set_mempool_size(&mut self, size: usize)
        ensures
            final(self)@ == (MetricsView { mempool_size: size, ..old(self)@ }),
    {
        proof {
            use_type_invariant(&*self);
        }
        self.mempool_size = size;
    }

    pub fn set_memory_mb(&mut self, memory_mb: u64)
        ensures
            final(self)@ == (MetricsView { memory_mb, ..old(self)@ }),
    {
        proof {
            use_type_invariant(&*self);
        }
        self.memory_mb = memory_mb;
    }

    /// The node's counters at `now`.
    pub fn get_status_at(&self, now: u64) -> (r: StatusSummary)
        ensures
            r == status_of(self@, now),
    {
        let ghost blocks = self@.blocks;
        let mut history_tx_count: u64 = 0;
        let mut i: usize = 0;
        assert(blocks.take(0) =~= Seq::<BlockMetricView>::empty());
        while i < self.blocks.len()
            invariant
                i <= self.blocks.len(),
                blocks == self@.blocks,
                history_tx_count == history_transactions(blocks.take(i as int)),
            decreases self.blocks.len() - i,
        {
            proof {
                assert(blocks.take(i + 1).drop_last() =~= blocks.take(i as int));
                assert(blocks.take(i + 1).last() == self.blocks[i as int]@);
            }
            history_tx_count = history_tx_count.saturating_add(self.blocks[i].tx_count as u64);
            i = i + 1;
        }
        assert(blocks.take(i as int) =~= blocks);
        let n = self.blocks.len();
        StatusSummary {
            current_slot: self.current_slot,
            blocks_produced: self.blocks_produced,
            mempool_size: self.mempool_size,
            connected_peers: self.peers.len(),
            uptime_seconds: now.saturating_sub(self.start_time),
            avg_block_time: if self.block_count > 0 {
                self.total_block_time_ms / self.block_count
            } else {
                DEFAULT_BLOCK_TIME_MS
            },
            latest_tx_count: if n > 0 {
                self.blocks[n - 1].tx_count
            } else {
                0
            },
            latest_block_time_ms: if n > 0 {
                self.blocks[n - 1].time_ms
            } else {
                0
            },
            history_tx_count,
            total_block_time_ms: self.total_block_time_ms,
            memory_mb: self.memory_mb,
        }
    }

    /// The node's counters now.
    pub fn get_status(&self) -> (r: StatusSummary)
        ensures
            exists|now: u64| r == status_of(self@, now),
    {
        let now = current_timestamp();
        let r = self.get_status_at(now);
        assert(r == status_of(self@, now));
        r
    }

    pub fn get_blocks(&self) -> (r: Vec<BlockMetric>)
        ensures
            block_metric_views(r@) == self@.blocks,
    {
        let mut out: Vec<BlockMetric> = Vec::new();
        let mut i: usize = 0;
        while i < self.blocks.len()
            invariant
                i <= self.blocks.len(),
                out.len() == i,
                forall|j: int| 0 <= j < i ==> (#[trigger] out[j])@ == self.blocks[j]@,
            decreases self.blocks.len() - i,
        {
            out.push(self.blocks[i].clone());
            i = i + 1;
        }
        assert(block_metric_views(out@) =~= self@.blocks);
        out
    }

    pub fn get_peers(&self) -> (r: Vec<PeerMetric>)
        ensures
            peer_metric_views(r@) == self@.peers,
    {
        let mut out: Vec<PeerMetric> = Vec::new();
        let mut i: usize = 0;
        while i < self.peers.len()
            invariant
                i <= self.peers.len(),
                out.len() == i,
                forall|j: int| 0 <= j < i ==> (#[trigger] out[j])@ == self.peers[j]@,
            decreases self.peers.len() - i,
        {
            out.push(self.peers[i].clone());
            i = i + 1;
        }
        assert(peer_metric_views(out@) =~= self@.peers);
        out
    }

    pub fn get_transactions(&self) -> (r: Vec<TxMetric>)
        ensures
            tx_metric_views(r@) == self@.transactions,
    {
        let mut out: Vec<TxMetric> = Vec::new();
        let mut i: usize = 0;
        while i < self.transactions.len()
            invariant
                i <= self.transactions.len(),
                out.len() == i,
                forall|j: int| 0 <= j < i ==> (#[trigger] out[j])@ == self.transactions[j]@,
            decreases self.transactions.len() - i,
        {
            out.push(self.transactions[i].clone());
            i = i + 1;
        }
        assert(tx_metric_views(out@) =~= self@.transactions);
        out
    }

    pub fn get_logs(&self) -> (r: Vec<LogEntry>)
        ensures
            log_entry_views(r@) == self@.logs,
    {
        let mut out: Vec<LogEntry> = Vec::new();
        let mut i: usize = 0;
        while i < self.logs.len()
            invariant
                i <= self.logs.len(),
                out.len() == i,
                forall|j: int| 0 <= j < i ==> (#[trigger] out[j])@ == self.logs[j]@,
            decreases self.logs.len() - i,
        {
            out.push(self.logs[i].clone());
            i = i + 1;
        }
        assert(log_entry_views(out@) =~= self@.logs);
        out
    }
}

/// The metrics of a node that started at `now` and has recorded nothing.
pub open spec fn empty_metrics(now: u64) -> MetricsView {
    MetricsView {
        blocks: Seq::empty(),
        transactions: Seq::empty(),
        peers: Seq::empty(),
        logs: Seq::empty(),
        start_time: now,
        blocks_produced: 0,
        current_slot: 0,
        mempool_size: 0,
        total_block_time_ms: 0,
        block_count: 0,
        memory_mb: 0,
    }
}

} // verus!
