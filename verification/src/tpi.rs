//! The three-member committee protocol: who sits on the committee of a
//! slot, how a block is hashed, how the members' hashes are classified, and
//! which member broadcasts.

use crate::crypto::{hex_encode, hex_encoded};
use crate::encoding::{append_le, append_text, ascii_text, le_bytes, utf8};
use crate::hashing::{sha256, sha256_digest};
use crate::sorting::{be_value, is_stable_order, ranks_of, stable_order};
use crate::types::{text_views, Block, BlockView, TransactionView};
use vstd::prelude::*;

verus! {

/// How long a member collects the others' hashes, from the start of the slot.
pub const TPI_HASH_TIMEOUT_MS: u64 = 6000;

/// Target size of a committee.
pub const TPI_GROUP_SIZE: usize = 3;

/// One member's announcement of the hash of its candidate block.
#[derive(Debug)]
pub struct TpiHashMessage {
    pub slot: u64,
    pub validator_id: String,
    pub block_hash: String,
    pub signature: Vec<u8>,
}

pub struct TpiHashMessageView {
    pub slot: u64,
    pub validator_id: Seq<char>,
    pub block_hash: Seq<char>,
    pub signature: Seq<u8>,
}

impl View for TpiHashMessage {
    type V = TpiHashMessageView;

    open spec fn view(&self) -> TpiHashMessageView {
        TpiHashMessageView {
            slot: self.slot,
            validator_id: self.validator_id@,
            block_hash: self.block_hash@,
            signature: self.signature@,
        }
    }
}

impl Clone for TpiHashMessage {
    fn clone(&self) -> (r: Self)
        ensures
            r@ == self@,
    {
        let mut signature: Vec<u8> = Vec::new();
        crate::encoding::append_bytes(&mut signature, self.signature.as_slice());
        assert(signature@ =~= self.signature@);
        TpiHashMessage {
            slot: self.slot,
            validator_id: self.validator_id.clone(),
            block_hash: self.block_hash.clone(),
            signature,
        }
    }
}

/// The views of a list of announcements, in order.
pub open spec fn hash_message_views(messages: Seq<TpiHashMessage>) -> Seq<TpiHashMessageView> {
    Seq::new(messages.len(), |i: int| messages[i]@)
}

/// What a set of announcements amounts to.
#[derive(Debug)]
pub enum TpiConsensus {
    /// Three announcements, one hash.
    Perfect(String),
    /// Three announcements, two agree: the hash, and who disagreed.
    TwoOfThree(String, String),
    /// Two announcements that agree: the hash, and a placeholder for the
    /// member that was not heard.
    TwoOfTwo(String, String),
    NoConsensus,
    InsufficientData,
}

pub enum TpiConsensusView {
    Perfect(Seq<char>),
    TwoOfThree(Seq<char>, Seq<char>),
    TwoOfTwo(Seq<char>, Seq<char>),
    NoConsensus,
    InsufficientData,
}

impl View for TpiConsensus {
    type V = TpiConsensusView;

    open spec fn view(&self) -> TpiConsensusView {
        match self {
            TpiConsensus::Perfect(h) => TpiConsensusView::Perfect(h@),
            TpiConsensus::TwoOfThree(h, o) => TpiConsensusView::TwoOfThree(h@, o@),
            TpiConsensus::TwoOfTwo(h, o) => TpiConsensusView::TwoOfTwo(h@, o@),
            TpiConsensus::NoConsensus => TpiConsensusView::NoConsensus,
            TpiConsensus::InsufficientData => TpiConsensusView::InsufficientData,
        }
    }
}

impl TpiConsensus {
    /// Whether the committee agreed well enough to pick a broadcaster.
    pub open spec fn spec_is_agreement(&self) -> bool {
        self is Perfect || self is TwoOfThree || self is TwoOfTwo
    }

    #[verifier::when_used_as_spec(spec_is_agreement)]
    pub fn is_agreement(&self) -> (r: bool)
        ensures
            r == self.spec_is_agreement(),
    {
        match self {
            TpiConsensus::Perfect(_) => true,
            TpiConsensus::TwoOfThree(_, _) => true,
            TpiConsensus::TwoOfTwo(_, _) => true,
            _ => false,
        }
    }
}

/// Name given in place of the member that was not heard when two of two agree.
pub open spec fn missing_member() -> Seq<char> {
    "missing"@
}

/// The classification of the announcements received for a slot.
///
/// Three: all equal is perfect; two equal names the third as the outlier;
/// all different is no consensus. Two: equal is two of two, different is no
/// consensus. Any other number is insufficient.
pub open spec fn classify_hashes(received: Seq<TpiHashMessageView>) -> TpiConsensusView {
    if received.len() == 3 {
        let a = received[0].block_hash;
        let b = received[1].block_hash;
        let c = received[2].block_hash;
        if a == b && b == c {
            TpiConsensusView::Perfect(a)
        } else if a == b {
            TpiConsensusView::TwoOfThree(a, received[2].validator_id)
        } else if a == c {
            TpiConsensusView::TwoOfThree(a, received[1].validator_id)
        } else if b == c {
            TpiConsensusView::TwoOfThree(b, received[0].validator_id)
        } else {
            TpiConsensusView::NoConsensus
        }
    } else if received.len() == 2 {
        if received[0].block_hash == received[1].block_hash {
            TpiConsensusView::TwoOfTwo(received[0].block_hash, missing_member())
        } else {
            TpiConsensusView::NoConsensus
        }
    } else {
        TpiConsensusView::InsufficientData
    }
}

/// Classifies the announcements received for a slot.
pub fn check_tpi_consensus(responses: Vec<TpiHashMessage>) -> (r: TpiConsensus)
    ensures
        r@ == classify_hashes(hash_message_views(responses@)),
{
    if responses.len() == 3 {
        let ab = responses[0].block_hash == responses[1].block_hash;
        let ac = responses[0].block_hash == responses[2].block_hash;
        let bc = responses[1].block_hash == responses[2].block_hash;
        if ab && bc {
            TpiConsensus::Perfect(responses[0].block_hash.clone())
        } else if ab {
            TpiConsensus::TwoOfThree(responses[0].block_hash.clone(), responses[2].validator_id.clone())
        } else if ac {
            TpiConsensus::TwoOfThree(responses[0].block_hash.clone(), responses[1].validator_id.clone())
        } else if bc {
            TpiConsensus::TwoOfThree(responses[1].block_hash.clone(), responses[0].validator_id.clone())
        } else {
            TpiConsensus::NoConsensus
        }
    } else if responses.len() == 2 {
        if responses[0].block_hash == responses[1].block_hash {
            TpiConsensus::TwoOfTwo(responses[0].block_hash.clone(), "missing".to_owned())
        } else {
            TpiConsensus::NoConsensus
        }
    } else {
        TpiConsensus::InsufficientData
    }
}

/// The seed from which the committee of a slot is drawn.
pub open spec fn committee_seed(slot: u64) -> Seq<u8> {
    sha256_digest(le_bytes(slot))
}

/// A validator's place in the draw for a slot: the big-endian value of
/// SHA-256 over the seed followed by the validator's id. Lower comes first.
pub open spec fn committee_rank(slot: u64, validator: Seq<char>) -> int {
    be_value(sha256_digest(committee_seed(slot) + utf8(validator))) as int
}

pub open spec fn committee_ranks(slot: u64, validators: Seq<Seq<char>>) -> Seq<int> {
    Seq::new(validators.len(), |i: int| committee_rank(slot, validators[i]))
}

/// Size of the committee drawn from `n` validators.
pub open spec fn committee_size(n: int) -> int {
    if n < 3 {
        n
    } else {
        3
    }
}

/// Whether `committee` is the committee of `slot` among `validators`: the
/// first three (or all, if fewer) in the stable order of their ranks.
pub open spec fn is_committee(slot: u64, validators: Seq<Seq<char>>, committee: Seq<Seq<char>>) -> bool {
    exists|order: Seq<usize>|
        {
            &&& #[trigger] is_stable_order(order, committee_ranks(slot, validators))
            &&& committee == Seq::new(
                committee_size(validators.len() as int) as nat,
                |j: int| validators[order[j] as int],
            )
        }
}

/// A slot has one committee: whatever qualifies as it is the same list, on
/// every node that knows the same validators.
pub proof fn lemma_committee_is_determined(
    slot: u64,
    validators: Seq<Seq<char>>,
    first: Seq<Seq<char>>,
    second: Seq<Seq<char>>,
)
    requires
        is_committee(slot, validators, first),
        is_committee(slot, validators, second),
    ensures
        first == second,
{
    let ranks = committee_ranks(slot, validators);
    let size = committee_size(validators.len() as int) as nat;
    let a = choose|order: Seq<usize>|
        #[trigger] is_stable_order(order, ranks) && first == Seq::new(
            size,
            |j: int| validators[order[j] as int],
        );
    let b = choose|order: Seq<usize>|
        #[trigger] is_stable_order(order, ranks) && second == Seq::new(
            size,
            |j: int| validators[order[j] as int],
        );
    crate::sorting::lemma_stable_order_unique(a, b, ranks);
}

/// Draws the committee of a slot from the validator set.
pub fn select_tpi_validators(slot: u64, validators: &[String]) -> (r: Vec<String>)
    ensures
        is_committee(slot, text_views(validators@), text_views(r@)),
        r.len() == committee_size(validators.len() as int),
{
    let ghost names = text_views(validators@);
    let mut seed_input: Vec<u8> = Vec::new();
    append_le(&mut seed_input, slot);
    assert(seed_input@ =~= le_bytes(slot));
    let seed = sha256(seed_input.as_slice());
    let mut keys: Vec<Vec<u8>> = Vec::new();
    let mut i: usize = 0;
    while i < validators.len()
        invariant
            i <= validators.len(),
            keys.len() == i,
            seed@ == committee_seed(slot),
            forall|j: int|
                0 <= j < i ==> (#[trigger] keys[j])@ == sha256_digest(
                    committee_seed(slot) + utf8(validators[j]@),
                ) && keys[j]@.len() == 32,
        decreases validators.len() - i,
    {
        let mut input: Vec<u8> = Vec::new();
        crate::encoding::append_bytes(&mut input, seed.as_slice());
        append_text(&mut input, validators[i].as_str());
        assert(input@ =~= committee_seed(slot) + utf8(validators[i as int]@));
        keys.push(sha256(input.as_slice()));
        i = i + 1;
    }
    assert(ranks_of(keys@) =~= committee_ranks(slot, names));
    let order = stable_order(&keys);
    let size: usize = if validators.len() < TPI_GROUP_SIZE {
        validators.len()
    } else {
        TPI_GROUP_SIZE
    };
    let mut out: Vec<String> = Vec::new();
    let mut j: usize = 0;
    while j < size
        invariant
            j <= size,
            size <= validators.len(),
            out.len() == j,
            is_stable_order(order@, committee_ranks(slot, names)),
            names == text_views(validators@),
            forall|k: int| 0 <= k < j ==> (#[trigger] out[k])@ == validators[order[k] as int]@,
        decreases size - j,
    {
        let index: usize = order[j];
        out.push(validators[index].clone());
        j = j + 1;
    }
    assert(text_views(out@) =~= Seq::new(
        committee_size(names.len() as int) as nat,
        |j: int| names[order@[j] as int],
    ));
    out
}

/// The bytes of one transaction that enter the block hash.
pub open spec fn transaction_hash_input(tx: TransactionView) -> Seq<u8> {
    utf8(tx.from) + utf8(tx.from_pubkey) + utf8(tx.to) + le_bytes(tx.amount) + utf8(tx.signature)
}

/// The bytes of a list of transactions that enter the block hash.
pub open spec fn transactions_hash_input(txs: Seq<TransactionView>) -> Seq<u8>
    decreases txs.len(),
{
    if txs.len() == 0 {
        Seq::empty()
    } else {
        transactions_hash_input(txs.drop_last()) + transaction_hash_input(txs.last())
    }
}

/// The bytes that are hashed for a block: slot, parent hash, producer and
/// timestamp, then every transaction in order. The block's own `hash` field
/// is no part of it.
pub open spec fn block_hash_input(block: BlockView) -> Seq<u8> {
    le_bytes(block.slot) + utf8(block.parent_hash) + utf8(block.producer) + le_bytes(block.timestamp)
        + transactions_hash_input(block.transactions)
}

/// The hash of a block: SHA-256 of its content, as 64 lower-case
/// hexadecimal digits.
pub open spec fn block_hash(block: BlockView) -> Seq<char> {
    ascii_text(hex_encoded(sha256_digest(block_hash_input(block))))
}

/// Computes the hash of a block from its content.
pub fn compute_block_hash(block: &Block) -> (r: String)
    ensures
        r@ == block_hash(block@),
{
    let mut input: Vec<u8> = Vec::new();
    append_le(&mut input, block.slot);
    append_text(&mut input, block.parent_hash.as_str());
    append_text(&mut input, block.producer.as_str());
    append_le(&mut input, block.timestamp);
    let ghost header = input@;
    let ghost txs = block@.transactions;
    assert(header =~= le_bytes(block.slot) + utf8(block.parent_hash@) + utf8(block.producer@)
        + le_bytes(block.timestamp));
    let mut i: usize = 0;
    while i < block.transactions.len()
        invariant
            i <= block.transactions.len(),
            txs == block@.transactions,
            input@ == header + transactions_hash_input(txs.take(i as int)),
        decreases block.transactions.len() - i,
    {
        let tx = &block.transactions[i];
        let ghost before = input@;
        append_text(&mut input, tx.from.as_str());
        append_text(&mut input, tx.from_pubkey.as_str());
        append_text(&mut input, tx.to.as_str());
        append_le(&mut input, tx.amount);
        append_text(&mut input, tx.signature.as_str());
        proof {
            assert(txs[i as int] == tx@);
            assert(input@ =~= before + transaction_hash_input(tx@));
            assert(txs.take(i + 1).drop_last() =~= txs.take(i as int));
            assert(txs.take(i + 1).last() == txs[i as int]);
            assert(header + transactions_hash_input(txs.take(i as int)) + transaction_hash_input(tx@)
                =~= header + (transactions_hash_input(txs.take(i as int)) + transaction_hash_input(
                tx@,
            )));
        }
        i = i + 1;
    }
    assert(txs.take(i as int) =~= txs);
    let digest = sha256(input.as_slice());
    hex_encode(digest.as_slice())
}

/// Two blocks of the same content have the same hash, whatever their `hash`
/// fields hold: members that built the same block announce the same hash.
pub proof fn lemma_block_hash_is_of_content(a: BlockView, b: BlockView)
    requires
        a.slot == b.slot,
        a.parent_hash == b.parent_hash,
        a.producer == b.producer,
        a.timestamp == b.timestamp,
        a.transactions == b.transactions,
    ensures
        block_hash(a) == block_hash(b),
{
}

/// Index of the first entry with the highest merit (0 for an empty list).
pub open spec fn first_highest(merits: Seq<u64>) -> int
    decreases merits.len(),
{
    if merits.len() <= 1 {
        0
    } else {
        let best = first_highest(merits.drop_last());
        if merits.last() > merits[best] {
            merits.len() - 1
        } else {
            best
        }
    }
}

/// `first_highest` names an entry that no entry exceeds and no earlier entry
/// equals.
pub proof fn lemma_first_highest(merits: Seq<u64>)
    requires
        merits.len() > 0,
    ensures
        0 <= first_highest(merits) < merits.len(),
        forall|j: int| 0 <= j < merits.len() ==> (#[trigger] merits[j]) <= merits[first_highest(merits)],
        forall|j: int| 0 <= j < first_highest(merits) ==> (#[trigger] merits[j]) < merits[first_highest(merits)],
    decreases merits.len(),
{
    if merits.len() > 1 {
        let init = merits.drop_last();
        lemma_first_highest(init);
        assert forall|j: int| 0 <= j < merits.len() implies (#[trigger] merits[j]) <= merits[first_highest(
            merits,
        )] by {
            if j < init.len() {
                assert(init[j] == merits[j]);
            }
        }
        assert forall|j: int| 0 <= j < first_highest(merits) implies (#[trigger] merits[j]) < merits[first_highest(
            merits,
        )] by {
            if j < init.len() {
                assert(init[j] == merits[j]);
            }
        }
    }
}

/// The merits of a list of scored validators, in order.
pub open spec fn scores_of(validators: Seq<(String, u64)>) -> Seq<u64> {
    Seq::new(validators.len(), |i: int| validators[i].1)
}

/// Picks the committee member that broadcasts: the one of highest merit,
/// and among equals the one listed first. An empty list gives the empty id.
pub fn select_broadcaster_by_merit(validators: &[(String, u64)]) -> (r: String)
    ensures
        validators.len() == 0 ==> r@ == Seq::<char>::empty(),
        validators.len() > 0 ==> r@ == validators[first_highest(scores_of(validators@))].0@,
{
    if validators.len() == 0 {
        return String::new();
    }
    let ghost scores = scores_of(validators@);
    let mut best: usize = 0;
    let mut i: usize = 1;
    assert(scores.take(1).len() == 1);
    while i < validators.len()
        invariant
            1 <= i <= validators.len(),
            scores == scores_of(validators@),
            best as int == first_highest(scores.take(i as int)),
            best < i,
        decreases validators.len() - i,
    {
        proof {
            assert(scores.take(i + 1).drop_last() =~= scores.take(i as int));
            assert(scores.take(i + 1).last() == validators[i as int].1);
            assert(scores.take(i + 1)[best as int] == validators[best as int].1);
        }
        if validators[i].1 > validators[best].1 {
            best = i;
        }
        i = i + 1;
    }
    assert(scores.take(i as int) =~= scores);
    validators[best].0.clone()
}

} // verus!
