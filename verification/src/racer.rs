//! The fallback producer of a slot, chosen when the committee fails and no
//! block arrives: one validator drawn from the fastest ten.

use crate::encoding::{append_le, le_bytes, le_value, text_equal};
use crate::hashing::{sha256, sha256_digest};
use crate::sorting::{is_stable_order, ranks_of, stable_order};
use crate::types::{block_views, scored_views, Block, BlockView};
use vstd::prelude::*;

verus! {

/// How many of the fastest validators the racer is drawn from.
pub const RACER_POOL_SIZE: usize = 10;

/// Longest gap between two blocks, in milliseconds, that counts in full
/// towards a validator's speed.
pub const MAX_BLOCK_GAP_MS: u64 = 15000;

/// The bytes of the word `racer`.
pub open spec fn racer_tag() -> Seq<u8> {
    seq![114u8, 97u8, 99u8, 101u8, 114u8]
}

/// The number drawn for a slot: the first eight bytes, little-endian, of
/// SHA-256 over the slot's little-endian bytes followed by `racer`.
pub open spec fn racer_draw(slot: u64) -> u64 {
    le_value(sha256_digest(le_bytes(slot) + racer_tag()).subrange(0, 8))
}

/// Size of the pool drawn from `n` validators.
pub open spec fn racer_pool_size(n: int) -> int {
    if n < 10 {
        n
    } else {
        10
    }
}

pub open spec fn speeds_of(validators: Seq<(Seq<char>, u64)>) -> Seq<int> {
    Seq::new(validators.len(), |i: int| validators[i].1 as int)
}

/// Whether `racer` is the fallback producer of `slot`: the validators are
/// ordered by ascending speed metric (earlier listed first among equals),
/// the first ten form the pool, and the slot's draw modulo the pool's size
/// picks one.
pub open spec fn is_racer(slot: u64, validators: Seq<(Seq<char>, u64)>, racer: Seq<char>) -> bool {
    exists|order: Seq<usize>|
        {
            &&& #[trigger] is_stable_order(order, speeds_of(validators))
            &&& racer == validators[order[racer_draw(slot) as int % racer_pool_size(
                validators.len() as int,
            )] as int].0
        }
}

/// A slot has one racer: whatever qualifies as it is the same validator, on
/// every node that knows the same validators and speeds.
pub proof fn lemma_racer_is_determined(
    slot: u64,
    validators: Seq<(Seq<char>, u64)>,
    first: Seq<char>,
    second: Seq<char>,
)
    requires
        is_racer(slot, validators, first),
        is_racer(slot, validators, second),
    ensures
        first == second,
{
    let speeds = speeds_of(validators);
    let index = racer_draw(slot) as int % racer_pool_size(validators.len() as int);
    let a = choose|order: Seq<usize>|
        #[trigger] is_stable_order(order, speeds) && first == validators[order[index] as int].0;
    let b = choose|order: Seq<usize>|
        #[trigger] is_stable_order(order, speeds) && second == validators[order[index] as int].0;
    crate::sorting::lemma_stable_order_unique(a, b, speeds);
}

/// Picks the fallback producer of a slot from validators with their speed
/// metric (lower is faster). An empty list gives the empty id.
pub fn select_racer(slot: u64, validators: &[(String, u64)]) -> (r: String)
    ensures
        validators.len() == 0 ==> r@ == Seq::<char>::empty(),
        validators.len() > 0 ==> is_racer(slot, scored_views(validators@), r@),
{
    if validators.len() == 0 {
        return String::new();
    }
    let ghost views = scored_views(validators@);
    let mut speeds: Vec<u64> = Vec::new();
    let mut i: usize = 0;
    while i < validators.len()
        invariant
            i <= validators.len(),
            speeds.len() == i,
            forall|j: int| 0 <= j < i ==> (#[trigger] speeds[j]) == validators[j].1,
        decreases validators.len() - i,
    {
        speeds.push(validators[i].1);
        i = i + 1;
    }
    assert(ranks_of(speeds@) =~= speeds_of(views));
    let order = stable_order(&speeds);
    let pool: usize = if validators.len() < RACER_POOL_SIZE {
        validators.len()
    } else {
        RACER_POOL_SIZE
    };
    let mut input: Vec<u8> = Vec::new();
    append_le(&mut input, slot);
    input.push(114u8);
    input.push(97u8);
    input.push(99u8);
    input.push(101u8);
    input.push(114u8);
    assert(input@ =~= le_bytes(slot) + racer_tag());
    let digest = sha256(input.as_slice());
    let head = vstd::slice::slice_subrange(digest.as_slice(), 0, 8);
    let draw: u64 = vstd::bytes::u64_from_le_bytes(head);
    let index: usize = (draw % (pool as u64)) as usize;
    let chosen: usize = order[index];
    validators[chosen].0.clone()
}

/// The timestamps of the blocks that `producer` built, in order.
pub open spec fn timestamps_of(blocks: Seq<BlockView>, producer: Seq<char>) -> Seq<u64>
    decreases blocks.len(),
{
    if blocks.len() == 0 {
        Seq::empty()
    } else if blocks.last().producer == producer {
        timestamps_of(blocks.drop_last(), producer).push(blocks.last().timestamp)
    } else {
        timestamps_of(blocks.drop_last(), producer)
    }
}

/// The time from one block to the next that counts towards speed: never
/// negative, and at most fifteen seconds.
pub open spec fn counted_gap(earlier: u64, later: u64) -> int {
    if later <= earlier {
        0
    } else if later - earlier > 15000 {
        15000
    } else {
        later - earlier
    }
}

/// The sum of the counted gaps between consecutive timestamps.
pub open spec fn counted_gaps(timestamps: Seq<u64>) -> int
    decreases timestamps.len(),
{
    if timestamps.len() < 2 {
        0
    } else {
        counted_gaps(timestamps.drop_last()) + counted_gap(
            timestamps[timestamps.len() - 2],
            timestamps.last(),
        )
    }
}

/// A validator's speed metric over recent blocks: the counted gaps between
/// its consecutive blocks, divided by the number of its blocks; the largest
/// number if it built none.
pub open spec fn validator_speed(blocks: Seq<BlockView>, producer: Seq<char>) -> int {
    let timestamps = timestamps_of(blocks, producer);
    if timestamps.len() == 0 {
        u64::MAX as int
    } else {
        counted_gaps(timestamps) / (timestamps.len() as int)
    }
}

/// Computes a validator's speed metric over recent blocks (lower is faster).
pub fn calculate_validator_speed(validator_id: &str, recent_blocks: &[Block]) -> (r: u64)
    ensures
        r == validator_speed(block_views(recent_blocks@), validator_id@),
{
    let ghost blocks = block_views(recent_blocks@);
    let ghost id = validator_id@;
    let mut count: usize = 0;
    let mut previous: u64 = 0;
    let mut total: u128 = 0;
    let mut i: usize = 0;
    assert(blocks.take(0) =~= Seq::empty());
    while i < recent_blocks.len()
        invariant
            i <= recent_blocks.len(),
            blocks == block_views(recent_blocks@),
            id == validator_id@,
            count <= i,
            count == timestamps_of(blocks.take(i as int), id).len(),
            count > 0 ==> previous == timestamps_of(blocks.take(i as int), id).last(),
            total == counted_gaps(timestamps_of(blocks.take(i as int), id)),
            0 <= total <= 15000 * count,
        decreases recent_blocks.len() - i,
    {
        let block = &recent_blocks[i];
        proof {
            assert(blocks.take(i + 1).drop_last() =~= blocks.take(i as int));
            assert(blocks.take(i + 1).last() == block@);
        }
        if text_equal(block.producer.as_str(), validator_id) {
            let ghost before = timestamps_of(blocks.take(i as int), id);
            let ghost after = timestamps_of(blocks.take(i + 1), id);
            assert(after == before.push(block.timestamp));
            assert(after.drop_last() =~= before);
            if count > 0 {
                let gap: u64 = if block.timestamp <= previous {
                    0
                } else if block.timestamp - previous > MAX_BLOCK_GAP_MS {
                    MAX_BLOCK_GAP_MS
                } else {
                    block.timestamp - previous
                };
                assert(after[after.len() - 2] == before.last());
                total = total + gap as u128;
            }
            previous = block.timestamp;
            count = count + 1;
        }
        i = i + 1;
    }
    assert(blocks.take(i as int) =~= blocks);
    if count == 0 {
        return u64::MAX;
    }
    let average: u128 = total / (count as u128);
    assert(average <= 15000) by (nonlinear_arith)
        requires
            0 <= total <= 15000 * count,
            count > 0,
            average == total / (count as u128),
    ;
    average as u64
}

} // verus!
