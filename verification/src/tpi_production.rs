//! One node's part in producing the block of a slot.
//!
//! The round is a state machine. The caller does what each action asks
//! (gossip, wait for a message, sleep, look up the chain) and hands back
//! what happened as the next event; every decision is taken here.

use crate::chain_state::ChainState;
use crate::encoding::text_equal;
use crate::mempool::{is_ordered_batch, order_ranks, Mempool};
use crate::racer::{is_racer, select_racer};
use crate::tpi::{
    block_hash, check_tpi_consensus, classify_hashes, compute_block_hash, first_highest,
    hash_message_views, is_committee, scores_of, select_broadcaster_by_merit, select_tpi_validators,
    TpiConsensusView, TpiHashMessage, TpiHashMessageView, TPI_HASH_TIMEOUT_MS,
};
use crate::types::{scored_views, text_views, Block, BlockView};
use vstd::prelude::*;

verus! {

broadcast use vstd::std_specs::hash::group_hash_axioms;

/// How often a node looks for the slot's block before the racer takes over.
pub const MAX_BLOCK_WAIT_ATTEMPTS: u64 = 80;

/// Milliseconds between two looks.
pub const BLOCK_POLL_INTERVAL_MS: u64 = 100;

/// Milliseconds from one slot to the next.
pub const SLOT_DURATION_MS: u64 = 10_000;

/// Most transactions in one block.
pub const MAX_BLOCK_TRANSACTIONS: usize = 100;

/// What is fixed for a node throughout the round of one slot.
#[derive(Debug)]
pub struct TpiContext {
    pub slot: u64,
    /// This node's validator id.
    pub validator_id: String,
    /// The committee of the slot; empty if there are no validators.
    pub committee: Vec<String>,
    /// The committee member that broadcasts if the committee agrees.
    pub broadcaster: String,
    /// The validator that produces the block if the committee fails.
    pub racer: String,
}

pub struct TpiContextView {
    pub slot: u64,
    pub validator_id: Seq<char>,
    pub committee: Seq<Seq<char>>,
    pub broadcaster: Seq<char>,
    pub racer: Seq<char>,
}

impl View for TpiContext {
    type V = TpiContextView;

    open spec fn view(&self) -> TpiContextView {
        TpiContextView {
            slot: self.slot,
            validator_id: self.validator_id@,
            committee: text_views(self.committee@),
            broadcaster: self.broadcaster@,
            racer: self.racer@,
        }
    }
}

/// Where a node stands in the round.
#[derive(Debug)]
pub enum TpiState {
    /// A committee member that has yet to build its candidate block.
    Compute,
    /// A committee member collecting the others' hashes.
    Collect { candidate: Block, received: Vec<TpiHashMessage> },
    /// Looking for the slot's block on the chain; `polls` looks were in vain.
    Wait { polls: u64 },
    /// The round is over.
    Finished,
}

pub enum TpiStateView {
    Compute,
    Collect { candidate: BlockView, received: Seq<TpiHashMessageView> },
    Wait { polls: u64 },
    Finished,
}

impl View for TpiState {
    type V = TpiStateView;

    open spec fn view(&self) -> TpiStateView {
        match self {
            TpiState::Compute => TpiStateView::Compute,
            TpiState::Collect { candidate, received } => TpiStateView::Collect {
                candidate: candidate@,
                received: hash_message_views(received@),
            },
            TpiState::Wait { polls } => TpiStateView::Wait { polls: *polls },
            TpiState::Finished => TpiStateView::Finished,
        }
    }
}

/// What happened since the last action.
#[derive(Debug)]
pub enum TpiEvent {
    /// The candidate block was built.
    Candidate(Block),
    /// A hash announcement arrived, so many milliseconds into the slot.
    Hash { message: TpiHashMessage, elapsed_ms: u64 },
    /// No announcement arrived; so many milliseconds of the slot have passed.
    Elapsed { elapsed_ms: u64 },
    /// The chain was looked up for the slot's block.
    Polled(Option<Block>),
}

pub enum TpiEventView {
    Candidate(BlockView),
    Hash { message: TpiHashMessageView, elapsed_ms: u64 },
    Elapsed { elapsed_ms: u64 },
    Polled(Option<BlockView>),
}

impl View for TpiEvent {
    type V = TpiEventView;

    open spec fn view(&self) -> TpiEventView {
        match self {
            TpiEvent::Candidate(block) => TpiEventView::Candidate(block@),
            TpiEvent::Hash { message, elapsed_ms } => TpiEventView::Hash {
                message: message@,
                elapsed_ms: *elapsed_ms,
            },
            TpiEvent::Elapsed { elapsed_ms } => TpiEventView::Elapsed { elapsed_ms: *elapsed_ms },
            TpiEvent::Polled(found) => TpiEventView::Polled(
                match found {
                    Some(block) => Some(block@),
                    None => None,
                },
            ),
        }
    }
}

/// What the caller is to do next.
#[derive(Debug)]
pub enum TpiAction {
    /// Build the candidate block and report it.
    BuildCandidate,
    /// Gossip the announcement, then wait up to `wait_ms` for another's.
    Announce { message: TpiHashMessage, wait_ms: u64 },
    /// Wait up to `wait_ms` for an announcement.
    AwaitHash { wait_ms: u64 },
    /// The round ends with this node's block: commit and gossip it.
    Broadcast(Block),
    /// Sleep `after_ms`, then look up the slot's block.
    PollBlock { after_ms: u64 },
    /// The round ends with the block that arrived over the network.
    Adopt(Block),
    /// The round ends with this node as racer: build a block and gossip it.
    ProduceAsRacer,
    /// The round ends without a block from this node.
    Skip,
}

pub enum TpiActionView {
    BuildCandidate,
    Announce { message: TpiHashMessageView, wait_ms: u64 },
    AwaitHash { wait_ms: u64 },
    Broadcast(BlockView),
    PollBlock { after_ms: u64 },
    Adopt(BlockView),
    ProduceAsRacer,
    Skip,
}

impl View for TpiAction {
    type V = TpiActionView;

    open spec fn view(&self) -> TpiActionView {
        match self {
            TpiAction::BuildCandidate => TpiActionView::BuildCandidate,
            TpiAction::Announce { message, wait_ms } => TpiActionView::Announce {
                message: message@,
                wait_ms: *wait_ms,
            },
            TpiAction::AwaitHash { wait_ms } => TpiActionView::AwaitHash { wait_ms: *wait_ms },
            TpiAction::Broadcast(block) => TpiActionView::Broadcast(block@),
            TpiAction::PollBlock { after_ms } => TpiActionView::PollBlock { after_ms: *after_ms },
            TpiAction::Adopt(block) => TpiActionView::Adopt(block@),
            TpiAction::ProduceAsRacer => TpiActionView::ProduceAsRacer,
            TpiAction::Skip => TpiActionView::Skip,
        }
    }
}

/// Whether a classification lets the committee proceed to its broadcaster.
pub open spec fn is_agreement(consensus: TpiConsensusView) -> bool {
    consensus is Perfect || consensus is TwoOfThree || consensus is TwoOfTwo
}

/// Whether `id` is among `ids`.
pub open spec fn is_member(ids: Seq<Seq<char>>, id: Seq<char>) -> bool {
    exists|i: int| 0 <= i < ids.len() && #[trigger] ids[i] == id
}

/// The score of an id: what `scores` lists for it first, or `default` if
/// it is not listed.
pub open spec fn score_of(scores: Seq<(Seq<char>, u64)>, id: Seq<char>, default: u64) -> u64
    decreases scores.len(),
{
    if scores.len() == 0 {
        default
    } else if scores[0].0 == id {
        scores[0].1
    } else {
        score_of(scores.drop_first(), id, default)
    }
}

/// Each id paired with its score.
pub open spec fn with_scores(ids: Seq<Seq<char>>, scores: Seq<(Seq<char>, u64)>, default: u64) -> Seq<
    (Seq<char>, u64),
> {
    Seq::new(ids.len(), |i: int| (ids[i], score_of(scores, ids[i], default)))
}

/// The announcement that a member makes of its candidate.
pub open spec fn own_announcement(ctx: TpiContextView, candidate: BlockView) -> TpiHashMessageView {
    TpiHashMessageView {
        slot: ctx.slot,
        validator_id: ctx.validator_id,
        block_hash: block_hash(candidate),
        signature: Seq::empty(),
    }
}

/// How a round begins: without a committee there is nothing to do; a
/// member builds its candidate; any other node waits for the block.
pub open spec fn tpi_start(ctx: TpiContextView) -> (TpiStateView, TpiActionView) {
    if ctx.committee.len() == 0 {
        (TpiStateView::Finished, TpiActionView::Skip)
    } else if is_member(ctx.committee, ctx.validator_id) {
        (TpiStateView::Compute, TpiActionView::BuildCandidate)
    } else {
        (TpiStateView::Wait { polls: 0 }, TpiActionView::PollBlock { after_ms: 100 })
    }
}

/// What a member does once collection has ended: if the hashes amount to an
/// agreement and it is the broadcaster, it broadcasts its candidate;
/// otherwise it waits for the block.
pub open spec fn tpi_decide(
    ctx: TpiContextView,
    candidate: BlockView,
    received: Seq<TpiHashMessageView>,
) -> (TpiStateView, TpiActionView) {
    if is_agreement(classify_hashes(received)) && ctx.broadcaster == ctx.validator_id {
        (TpiStateView::Finished, TpiActionView::Broadcast(candidate))
    } else {
        (TpiStateView::Wait { polls: 0 }, TpiActionView::PollBlock { after_ms: 100 })
    }
}

/// While collecting: with three hashes, or six seconds into the slot,
/// collection ends; until then the member waits for the time that is left.
pub open spec fn tpi_collect(
    ctx: TpiContextView,
    candidate: BlockView,
    received: Seq<TpiHashMessageView>,
    elapsed_ms: u64,
) -> (TpiStateView, TpiActionView) {
    if received.len() >= 3 || elapsed_ms >= 6000 {
        tpi_decide(ctx, candidate, received)
    } else {
        (
            TpiStateView::Collect { candidate, received },
            TpiActionView::AwaitHash { wait_ms: (6000 - elapsed_ms) as u64 },
        )
    }
}

/// The next state and action of a round.
///
/// An event that the state does not expect ends the round without a block.
pub open spec fn tpi_step(ctx: TpiContextView, state: TpiStateView, event: TpiEventView) -> (
    TpiStateView,
    TpiActionView,
) {
    match (state, event) {
        (TpiStateView::Compute, TpiEventView::Candidate(candidate)) => {
            let message = own_announcement(ctx, candidate);
            (
                TpiStateView::Collect { candidate, received: seq![message] },
                TpiActionView::Announce { message, wait_ms: 6000 },
            )
        },
        (TpiStateView::Collect { candidate, received }, TpiEventView::Hash { message, elapsed_ms }) => {
            let received = if message.slot == ctx.slot {
                received.push(message)
            } else {
                received
            };
            tpi_collect(ctx, candidate, received, elapsed_ms)
        },
        (TpiStateView::Collect { candidate, received }, TpiEventView::Elapsed { elapsed_ms }) => {
            tpi_collect(ctx, candidate, received, elapsed_ms)
        },
        (TpiStateView::Wait { polls }, TpiEventView::Polled(Some(block))) => {
            (TpiStateView::Finished, TpiActionView::Adopt(block))
        },
        (TpiStateView::Wait { polls }, TpiEventView::Polled(None)) => {
            if polls + 1 < 80 {
                (
                    TpiStateView::Wait { polls: (polls + 1) as u64 },
                    TpiActionView::PollBlock { after_ms: 100 },
                )
            } else if ctx.racer == ctx.validator_id {
                (TpiStateView::Finished, TpiActionView::ProduceAsRacer)
            } else {
                (TpiStateView::Finished, TpiActionView::Skip)
            }
        },
        _ => (TpiStateView::Finished, TpiActionView::Skip),
    }
}

/// Looks up the score listed first for `id`.
pub fn find_score(scores: &[(String, u64)], id: &str, default: u64) -> (r: u64)
    ensures
        r == score_of(scored_views(scores@), id@, default),
{
    let ghost views = scored_views(scores@);
    let mut i: usize = 0;
    assert(views.skip(0) =~= views);
    while i < scores.len()
        invariant
            i <= scores.len(),
            views == scored_views(scores@),
            score_of(views, id@, default) == score_of(views.skip(i as int), id@, default),
        decreases scores.len() - i,
    {
        proof {
            assert(views.skip(i as int)[0] == views[i as int]);
            assert(views.skip(i as int).drop_first() =~= views.skip(i + 1));
        }
        if text_equal(scores[i].0.as_str(), id) {
            return scores[i].1;
        }
        i = i + 1;
    }
    default
}

/// Pairs each id with its score.
pub fn attach_scores(ids: &[String], scores: &[(String, u64)], default: u64) -> (r: Vec<(String, u64)>)
    ensures
        scored_views(r@) == with_scores(text_views(ids@), scored_views(scores@), default),
{
    let mut out: Vec<(String, u64)> = Vec::new();
    let mut i: usize = 0;
    while i < ids.len()
        invariant
            i <= ids.len(),
            out.len() == i,
            forall|j: int|
                0 <= j < i ==> (#[trigger] out[j]).0@ == ids[j]@ && out[j].1 == score_of(
                    scored_views(scores@),
                    ids[j]@,
                    default,
                ),
        decreases ids.len() - i,
    {
        let score = find_score(scores, ids[i].as_str(), default);
        out.push((ids[i].clone(), score));
        i = i + 1;
    }
    assert(scored_views(out@) =~= with_scores(text_views(ids@), scored_views(scores@), default));
    out
}

/// Whether `id` is among `ids`.
pub fn contains_id(ids: &[String], id: &str) -> (r: bool)
    ensures
        r == is_member(text_views(ids@), id@),
{
    let mut i: usize = 0;
    while i < ids.len()
        invariant
            i <= ids.len(),
            forall|j: int| 0 <= j < i ==> (#[trigger] text_views(ids@)[j]) != id@,
        decreases ids.len() - i,
    {
        if text_equal(ids[i].as_str(), id) {
            assert(text_views(ids@)[i as int] == id@);
            return true;
        }
        i = i + 1;
    }
    false
}

/// The broadcaster of a committee: its member of highest merit, the first
/// of them among equals; the empty id for an empty committee.
pub open spec fn broadcaster_of(committee: Seq<(Seq<char>, u64)>) -> Seq<char> {
    if committee.len() == 0 {
        Seq::empty()
    } else {
        committee[first_highest(Seq::new(committee.len(), |i: int| committee[i].1))].0
    }
}

impl TpiContext {
    /// Fixes the committee, the broadcaster and the racer of a slot.
    ///
    /// `merit_scores` lists validators with their merit, which also serves
    /// as the speed metric. A committee member that is not listed has
    /// merit 0; a validator that is not listed has the slowest speed.
    pub fn new(slot: u64, validator_id: String, all_validator_ids: &[String], merit_scores: &[(String, u64)]) -> (r:
        TpiContext)
        ensures
            r.slot == slot,
            r.validator_id@ == validator_id@,
            is_committee(slot, text_views(all_validator_ids@), r@.committee),
            r@.broadcaster == broadcaster_of(with_scores(r@.committee, scored_views(merit_scores@), 0)),
            all_validator_ids.len() == 0 ==> r@.racer == Seq::<char>::empty(),
            all_validator_ids.len() > 0 ==> is_racer(
                slot,
                with_scores(text_views(all_validator_ids@), scored_views(merit_scores@), u64::MAX),
                r@.racer,
            ),
    {
        let committee = select_tpi_validators(slot, all_validator_ids);
        let with_merit = attach_scores(committee.as_slice(), merit_scores, 0);
        let broadcaster = select_broadcaster_by_merit(with_merit.as_slice());
        let with_speed = attach_scores(all_validator_ids, merit_scores, u64::MAX);
        proof {
            assert(scored_views(with_speed@).len() == with_speed@.len());
            assert(with_scores(text_views(all_validator_ids@), scored_views(merit_scores@), u64::MAX).len()
                == all_validator_ids@.len());
        }
        let racer = select_racer(slot, with_speed.as_slice());
        proof {
            let merits = with_scores(text_views(committee@), scored_views(merit_scores@), 0);
            assert(scores_of(with_merit@) =~= Seq::new(merits.len(), |i: int| merits[i].1));
            if committee.len() > 0 {
                let best = first_highest(scores_of(with_merit@));
                crate::tpi::lemma_first_highest(scores_of(with_merit@));
                assert(scored_views(with_merit@)[best] == merits[best]);
            }
        }
        TpiContext { slot, validator_id, committee, broadcaster, racer }
    }

    /// Begins the round.
    pub fn start(&self) -> (r: (TpiState, TpiAction))
        ensures
            (r.0@, r.1@) == tpi_start(self@),
    {
        if self.committee.len() == 0 {
            (TpiState::Finished, TpiAction::Skip)
        } else if contains_id(self.committee.as_slice(), self.validator_id.as_str()) {
            (TpiState::Compute, TpiAction::BuildCandidate)
        } else {
            (TpiState::Wait { polls: 0 }, TpiAction::PollBlock { after_ms: BLOCK_POLL_INTERVAL_MS })
        }
    }

    fn decide(&self, candidate: Block, received: Vec<TpiHashMessage>) -> (r: (TpiState, TpiAction))
        ensures
            (r.0@, r.1@) == tpi_decide(self@, candidate@, hash_message_views(received@)),
    {
        let consensus = check_tpi_consensus(received);
        if consensus.is_agreement() && text_equal(self.broadcaster.as_str(), self.validator_id.as_str()) {
            (TpiState::Finished, TpiAction::Broadcast(candidate))
        } else {
            (TpiState::Wait { polls: 0 }, TpiAction::PollBlock { after_ms: BLOCK_POLL_INTERVAL_MS })
        }
    }

    fn collect(&self, candidate: Block, received: Vec<TpiHashMessage>, elapsed_ms: u64) -> (r: (
        TpiState,
        TpiAction,
    ))
        ensures
            (r.0@, r.1@) == tpi_collect(self@, candidate@, hash_message_views(received@), elapsed_ms),
    {
        if received.len() >= 3 || elapsed_ms >= TPI_HASH_TIMEOUT_MS {
            self.decide(candidate, received)
        } else {
            (
                TpiState::Collect { candidate, received },
                TpiAction::AwaitHash { wait_ms: TPI_HASH_TIMEOUT_MS - elapsed_ms },
            )
        }
    }
}

/// Takes the next decision of a round: given where the node stands and what
/// happened, where it stands now and what it is to do.
pub fn produce_block_with_tpi(ctx: &TpiContext, state: TpiState, event: TpiEvent) -> (r: (TpiState, TpiAction))
    ensures
        (r.0@, r.1@) == tpi_step(ctx@, state@, event@),
{
    match state {
        TpiState::Compute => match event {
            TpiEvent::Candidate(candidate) => {
                let block_hash = compute_block_hash(&candidate);
                let message = TpiHashMessage {
                    slot: ctx.slot,
                    validator_id: ctx.validator_id.clone(),
                    block_hash,
                    signature: Vec::new(),
                };
                let mut received: Vec<TpiHashMessage> = Vec::new();
                received.push(message.clone());
                assert(hash_message_views(received@) =~= seq![own_announcement(ctx@, candidate@)]);
                (
                    TpiState::Collect { candidate, received },
                    TpiAction::Announce { message, wait_ms: TPI_HASH_TIMEOUT_MS },
                )
            },
            _ => (TpiState::Finished, TpiAction::Skip),
        },
        TpiState::Collect { candidate, received } => match event {
            TpiEvent::Hash { message, elapsed_ms } => {
                let mut received = received;
                let ghost before = hash_message_views(received@);
                if message.slot == ctx.slot {
                    let ghost added = message@;
                    received.push(message);
                    assert(hash_message_views(received@) =~= before.push(added));
                }
                ctx.collect(candidate, received, elapsed_ms)
            },
            TpiEvent::Elapsed { elapsed_ms } => ctx.collect(candidate, received, elapsed_ms),
            _ => (TpiState::Finished, TpiAction::Skip),
        },
        TpiState::Wait { polls } => match event {
            TpiEvent::Polled(Some(block)) => (TpiState::Finished, TpiAction::Adopt(block)),
            TpiEvent::Polled(None) => {
                if polls < MAX_BLOCK_WAIT_ATTEMPTS - 1 {
                    (
                        TpiState::Wait { polls: polls + 1 },
                        TpiAction::PollBlock { after_ms: BLOCK_POLL_INTERVAL_MS },
                    )
                } else if text_equal(ctx.racer.as_str(), ctx.validator_id.as_str()) {
                    (TpiState::Finished, TpiAction::ProduceAsRacer)
                } else {
                    (TpiState::Finished, TpiAction::Skip)
                }
            },
            _ => (TpiState::Finished, TpiAction::Skip),
        },
        TpiState::Finished => (TpiState::Finished, TpiAction::Skip),
    }
}

/// The hash that a block of `slot` names as its parent: that of the block
/// committed for the slot before, or `genesis` if there is none.
pub open spec fn parent_hash_of(blocks: Map<u64, Block>, slot: u64) -> Seq<char> {
    if slot > 0 && blocks.contains_key((slot - 1) as u64) {
        blocks[(slot - 1) as u64].hash@
    } else {
        "genesis"@
    }
}

/// The timestamp of the block of a slot, in milliseconds.
pub open spec fn slot_timestamp(genesis_ms: u64, slot: u64) -> int {
    genesis_ms + slot * 10_000
}

/// Builds this node's block for a slot from up to a hundred pending
/// transactions, which leave the pool.
pub fn create_block(slot: u64, producer: &str, state: &ChainState, mempool: &mut Mempool, genesis_ms: u64) -> (block:
    Block)
    requires
        slot_timestamp(genesis_ms, slot) <= u64::MAX,
    ensures
        ({
            let count = if 100 < old(mempool).pool().len() {
                100
            } else {
                old(mempool).pool().len() as int
            };
            &&& final(mempool).pool() == old(mempool).pool().skip(count)
            &&& block@.transactions.len() == count
            &&& is_ordered_batch(
                old(mempool)@.take(count),
                order_ranks(old(mempool)@.take(count)),
                block@.transactions,
            )
        }),
        block@.slot == slot,
        block@.producer == producer@,
        block@.parent_hash == parent_hash_of(state@.blocks, slot),
        block@.timestamp == slot_timestamp(genesis_ms, slot),
        block@.hash == block_hash(block@),
{
    let transactions = mempool.get_pending(MAX_BLOCK_TRANSACTIONS);
    let parent_hash: String = if slot > 0 {
        match state.blocks.get(&(slot - 1)) {
            Some(parent) => parent.hash.clone(),
            None => "genesis".to_owned(),
        }
    } else {
        "genesis".to_owned()
    };
    assert(slot * 10_000 <= u64::MAX) by (nonlinear_arith)
        requires
            genesis_ms + slot * 10_000 <= u64::MAX,
            genesis_ms >= 0,
    ;
    let timestamp: u64 = genesis_ms + slot * SLOT_DURATION_MS;
    let mut block = Block {
        slot,
        parent_hash,
        hash: String::new(),
        producer: producer.to_owned(),
        timestamp,
        transactions,
    };
    let hash = compute_block_hash(&block);
    proof {
        crate::tpi::lemma_block_hash_is_of_content(
            block@,
            BlockView {
                slot: block@.slot,
                parent_hash: block@.parent_hash,
                hash: hash@,
                producer: block@.producer,
                timestamp: block@.timestamp,
                transactions: block@.transactions,
            },
        );
    }
    block.hash = hash;
    block
}

} // verus!
