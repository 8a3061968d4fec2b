//! The state of the chain and its one transition: committing a block.
//!
//! A block is committed whole or not at all. Its transactions are applied
//! in order to a copy of the balances and nonces; if any of them fails, the
//! state stays as it was.

use crate::crypto::{transaction_verifies, verify_transaction};
use crate::encoding::text_equal;
use crate::ledger::{
    amount_of, lemma_amount_after_write, lemma_total_after_write, total_of, with_amount, Ledger, Line,
};
use crate::tokenomics::{calculate_epoch_rewards, epoch_rewards, BLOCKS_PER_EPOCH, EPOCH_COUNT, TOTAL_SUPPLY};
use crate::types::{Block, Transaction, TransactionView};
use std::collections::HashMap;
use vstd::prelude::*;

verus! {

broadcast use vstd::std_specs::hash::group_hash_axioms;

/// One delegation: an address, and the validator that receives its fees.
pub type Delegation = (Seq<char>, Seq<char>);

/// The validator to which `delegator` has delegated: that of its latest
/// delegation, if it made one.
pub open spec fn delegate_of(delegations: Seq<Delegation>, delegator: Seq<char>) -> Option<Seq<char>>
    decreases delegations.len(),
{
    if delegations.len() == 0 {
        None
    } else if delegations.last().0 == delegator {
        Some(delegations.last().1)
    } else {
        delegate_of(delegations.drop_last(), delegator)
    }
}

/// Who receives the fee of a transaction from `sender` in a block built by
/// `producer`: the sender's delegated validator if it has one, else the
/// producer.
pub open spec fn fee_recipient(delegations: Seq<Delegation>, sender: Seq<char>, producer: Seq<char>) -> Seq<
    char,
> {
    match delegate_of(delegations, sender) {
        Some(validator) => validator,
        None => producer,
    }
}

/// The record of which address has delegated its fees to which validator.
pub struct Delegations {
    pairs: Vec<(String, String)>,
}

impl Delegations {
    /// The delegations made, oldest first.
    pub closed spec fn view(&self) -> Seq<Delegation> {
        Seq::new(self.pairs@.len(), |i: int| (self.pairs@[i].0@, self.pairs@[i].1@))
    }

    pub fn new() -> (r: Delegations)
        ensures
            r@ == Seq::<Delegation>::empty(),
    {
        let r = Delegations { pairs: Vec::new() };
        assert(r@ =~= Seq::<Delegation>::empty());
        r
    }

    /// Records that `delegator`'s fees go to `validator` from now on.
    pub fn delegate(&mut self, delegator: &str, validator: &str)
        ensures
            final(self)@ == old(self)@.push((delegator@, validator@)),
    {
        self.pairs.push((delegator.to_owned(), validator.to_owned()));
        assert(self@ =~= old(self)@.push((delegator@, validator@)));
    }

    /// The validator to which `delegator` has delegated, if any.
    pub fn delegate_of(&self, delegator: &str) -> (r: Option<String>)
        ensures
            match r {
                Some(validator) => delegate_of(self@, delegator@) == Some(validator@),
                None => delegate_of(self@, delegator@) is None,
            },
    {
        let mut i: usize = self.pairs.len();
        assert(self@.take(i as int) =~= self@);
        while i > 0
            invariant
                i <= self.pairs.len(),
                delegate_of(self@, delegator@) == delegate_of(self@.take(i as int), delegator@),
            decreases i,
        {
            proof {
                assert(self@.take(i as int).last() == self@[i - 1]);
                assert(self@.take(i as int).drop_last() =~= self@.take(i - 1));
            }
            if text_equal(self.pairs[i - 1].0.as_str(), delegator) {
                return Some(self.pairs[i - 1].1.clone());
            }
            i = i - 1;
        }
        None
    }
}

/// The balances and nonces of all accounts.
pub struct Books {
    pub balances: Seq<Line>,
    pub nonces: Seq<Line>,
}

/// The books after one transaction, or `None` if it is refused.
///
/// It is refused if its signature is invalid, if its nonce is not the
/// sender's next, or if the sender's balance does not cover amount plus fee.
/// Otherwise the sender pays both, the recipient receives the amount, the
/// fee goes to `fee_to`, and the sender's next nonce is one higher. It is
/// also refused where a balance or the nonce would leave the 64-bit range.
pub open spec fn transaction_applied(
    books: Books,
    tx: TransactionView,
    fee_to: Seq<char>,
    signature_valid: bool,
) -> Option<Books> {
    let balance = amount_of(books.balances, tx.from);
    if !signature_valid || amount_of(books.nonces, tx.from) != tx.nonce || balance < tx.amount + tx.fee
        || tx.nonce == u64::MAX {
        None
    } else {
        let debited = with_amount(books.balances, tx.from, (balance - tx.amount - tx.fee) as u64);
        let to_balance = amount_of(debited, tx.to);
        if to_balance + tx.amount > u64::MAX {
            None
        } else {
            let credited = with_amount(debited, tx.to, (to_balance + tx.amount) as u64);
            let fee_balance = amount_of(credited, fee_to);
            if fee_balance + tx.fee > u64::MAX {
                None
            } else {
                Some(
                    Books {
                        balances: with_amount(credited, fee_to, (fee_balance + tx.fee) as u64),
                        nonces: with_amount(books.nonces, tx.from, (tx.nonce + 1) as u64),
                    },
                )
            }
        }
    }
}

/// The books after a list of transactions applied in order, or `None` if
/// any of them is refused. `checks[i]` says whether the signature of the
/// transaction at `i` is valid; one without a check counts as invalid.
pub open spec fn transactions_applied(
    books: Books,
    txs: Seq<TransactionView>,
    checks: Seq<bool>,
    delegations: Seq<Delegation>,
    producer: Seq<char>,
) -> Option<Books>
    decreases txs.len(),
{
    if txs.len() == 0 {
        Some(books)
    } else {
        match transactions_applied(books, txs.drop_last(), checks, delegations, producer) {
            None => None,
            Some(before) => transaction_applied(
                before,
                txs.last(),
                fee_recipient(delegations, txs.last().from, producer),
                txs.len() - 1 < checks.len() && checks[txs.len() - 1],
            ),
        }
    }
}

/// Whether each transaction's signature verifies under the public key it
/// carries.
pub open spec fn signature_checks(txs: Seq<TransactionView>) -> Seq<bool> {
    Seq::new(
        txs.len(),
        |i: int|
            transaction_verifies(
                txs[i].from_pubkey,
                txs[i].from,
                txs[i].to,
                txs[i].amount,
                txs[i].nonce,
                txs[i].fee,
                txs[i].signature,
            ),
    )
}

/// The reward for the block of a slot: the block reward of the slot's epoch.
pub open spec fn block_reward_at(slot: u64) -> u64 {
    epoch_rewards(slot as int / BLOCKS_PER_EPOCH as int).block_reward
}

/// Whether the reward of a block is minted: only if the supply stays within
/// its cap (and the producer's balance within the 64-bit range).
pub open spec fn reward_is_minted(total_supply: u64, producer_balance: u64, reward: u64) -> bool {
    total_supply + reward <= TOTAL_SUPPLY && producer_balance + reward <= u64::MAX
}

/// The chain as plain values.
pub struct ChainView {
    pub blocks: Map<u64, Block>,
    pub balances: Seq<Line>,
    pub nonces: Seq<Line>,
    pub delegations: Seq<Delegation>,
    pub latest_slot: u64,
    pub total_supply: u64,
}

impl ChainView {
    pub open spec fn books(self) -> Books {
        Books { balances: self.balances, nonces: self.nonces }
    }

    /// The chain after committing `block`, or `None` if the block is not
    /// committed: because its slot is taken, or because one of its
    /// transactions is refused.
    pub open spec fn after_block(self, block: Block, checks: Seq<bool>) -> Option<ChainView> {
        if self.blocks.contains_key(block.slot) {
            None
        } else {
            match transactions_applied(
                self.books(),
                block@.transactions,
                checks,
                self.delegations,
                block@.producer,
            ) {
                None => None,
                Some(books) => {
                    let reward = block_reward_at(block.slot);
                    let producer_balance = amount_of(books.balances, block@.producer);
                    let minted = reward_is_minted(self.total_supply, producer_balance, reward);
                    Some(
                        ChainView {
                            blocks: self.blocks.insert(block.slot, block),
                            balances: if minted {
                                with_amount(
                                    books.balances,
                                    block@.producer,
                                    (producer_balance + reward) as u64,
                                )
                            } else {
                                books.balances
                            },
                            nonces: books.nonces,
                            delegations: self.delegations,
                            latest_slot: if block.slot > self.latest_slot {
                                block.slot
                            } else {
                                self.latest_slot
                            },
                            total_supply: if minted {
                                (self.total_supply + reward) as u64
                            } else {
                                self.total_supply
                            },
                        },
                    )
                },
            }
        }
    }
}

/// If some first transactions of a list are refused, so is the whole list.
pub proof fn lemma_refused_prefix(
    books: Books,
    txs: Seq<TransactionView>,
    checks: Seq<bool>,
    delegations: Seq<Delegation>,
    producer: Seq<char>,
    n: int,
)
    requires
        0 <= n <= txs.len(),
        transactions_applied(books, txs.take(n), checks, delegations, producer) is None,
    ensures
        transactions_applied(books, txs, checks, delegations, producer) is None,
    decreases txs.len() - n,
{
    if n == txs.len() {
        assert(txs.take(n) =~= txs);
    } else {
        assert(txs.take(n + 1).drop_last() =~= txs.take(n));
        lemma_refused_prefix(books, txs, checks, delegations, producer, n + 1);
    }
}

/// A transaction moves value between accounts and neither makes nor
/// destroys any: the sum of all balances is the same after it.
pub proof fn lemma_transaction_conserves_value(
    books: Books,
    tx: TransactionView,
    fee_to: Seq<char>,
    signature_valid: bool,
)
    requires
        transaction_applied(books, tx, fee_to, signature_valid) is Some,
    ensures
        total_of(transaction_applied(books, tx, fee_to, signature_valid)->0.balances) == total_of(
            books.balances,
        ),
{
    let balance = amount_of(books.balances, tx.from);
    let debited = with_amount(books.balances, tx.from, (balance - tx.amount - tx.fee) as u64);
    let to_balance = amount_of(debited, tx.to);
    let credited = with_amount(debited, tx.to, (to_balance + tx.amount) as u64);
    let fee_balance = amount_of(credited, fee_to);
    lemma_total_after_write(books.balances, tx.from, (balance - tx.amount - tx.fee) as u64);
    lemma_total_after_write(debited, tx.to, (to_balance + tx.amount) as u64);
    lemma_total_after_write(credited, fee_to, (fee_balance + tx.fee) as u64);
}

/// The transactions of a block together neither make nor destroy value.
pub proof fn lemma_transactions_conserve_value(
    books: Books,
    txs: Seq<TransactionView>,
    checks: Seq<bool>,
    delegations: Seq<Delegation>,
    producer: Seq<char>,
)
    requires
        transactions_applied(books, txs, checks, delegations, producer) is Some,
    ensures
        total_of(transactions_applied(books, txs, checks, delegations, producer)->0.balances)
            == total_of(books.balances),
    decreases txs.len(),
{
    if txs.len() > 0 {
        lemma_transactions_conserve_value(books, txs.drop_last(), checks, delegations, producer);
        let before = transactions_applied(books, txs.drop_last(), checks, delegations, producer)->0;
        lemma_transaction_conserves_value(
            before,
            txs.last(),
            fee_recipient(delegations, txs.last().from, producer),
            txs.len() - 1 < checks.len() && checks[txs.len() - 1],
        );
    }
}

/// Value is conserved but for the reward: after a block is committed, the
/// sum of all balances has grown by exactly what was minted, and what was
/// minted is either the block's reward or nothing. Fees are paid from one
/// balance into another and change no sum.
pub proof fn lemma_block_conserves_value(before: ChainView, block: Block, checks: Seq<bool>)
    requires
        before.after_block(block, checks) is Some,
    ensures
        ({
            let after = before.after_block(block, checks)->0;
            let minted = after.total_supply - before.total_supply;
            &&& total_of(after.balances) == total_of(before.balances) + minted
            &&& minted == 0 || minted == block_reward_at(block.slot)
        }),
{
    lemma_transactions_conserve_value(
        before.books(),
        block@.transactions,
        checks,
        before.delegations,
        block@.producer,
    );
    let books = transactions_applied(
        before.books(),
        block@.transactions,
        checks,
        before.delegations,
        block@.producer,
    )->0;
    let reward = block_reward_at(block.slot);
    let producer_balance = amount_of(books.balances, block@.producer);
    lemma_total_after_write(books.balances, block@.producer, (producer_balance + reward) as u64);
}

/// The supply never passes its cap: a block leaves it within the cap if it
/// was within before, and never lowers it.
pub proof fn lemma_supply_within_cap(before: ChainView, block: Block, checks: Seq<bool>)
    requires
        before.after_block(block, checks) is Some,
        before.total_supply <= TOTAL_SUPPLY,
    ensures
        before.total_supply <= before.after_block(block, checks)->0.total_supply <= TOTAL_SUPPLY,
{
}

/// How many of the transactions come from `sender`.
pub open spec fn sent_by(txs: Seq<TransactionView>, sender: Seq<char>) -> nat
    decreases txs.len(),
{
    if txs.len() == 0 {
        0
    } else if txs.last().from == sender {
        sent_by(txs.drop_last(), sender) + 1
    } else {
        sent_by(txs.drop_last(), sender)
    }
}

/// A transaction is applied only with the sender's next nonce, raises that
/// by one and leaves every other sender's nonce alone.
pub proof fn lemma_transaction_takes_next_nonce(
    books: Books,
    tx: TransactionView,
    fee_to: Seq<char>,
    signature_valid: bool,
    other: Seq<char>,
)
    requires
        transaction_applied(books, tx, fee_to, signature_valid) is Some,
    ensures
        tx.nonce == amount_of(books.nonces, tx.from),
        amount_of(transaction_applied(books, tx, fee_to, signature_valid)->0.nonces, other) == if other
            == tx.from {
            tx.nonce + 1
        } else {
            amount_of(books.nonces, other) as int
        },
{
    lemma_amount_after_write(books.nonces, tx.from, (tx.nonce + 1) as u64, other);
}

/// Nonces run in sequence: among the transactions of a committed block,
/// the one at `i` carries its sender's nonce from before the block plus the
/// number of earlier transactions of the block from that sender; and after
/// the block each sender's next nonce has grown by the number of its
/// transactions. On a new chain every nonce is 0, so a sender's committed
/// transactions carry 0, 1, 2, and so on.
pub proof fn lemma_nonces_in_sequence(
    books: Books,
    txs: Seq<TransactionView>,
    checks: Seq<bool>,
    delegations: Seq<Delegation>,
    producer: Seq<char>,
)
    requires
        transactions_applied(books, txs, checks, delegations, producer) is Some,
    ensures
        forall|sender: Seq<char>|
            #[trigger] amount_of(
                transactions_applied(books, txs, checks, delegations, producer)->0.nonces,
                sender,
            ) == amount_of(books.nonces, sender) + sent_by(txs, sender),
        forall|i: int|
            0 <= i < txs.len() ==> (#[trigger] txs[i]).nonce == amount_of(books.nonces, txs[i].from)
                + sent_by(txs.take(i), txs[i].from),
    decreases txs.len(),
{
    let after = transactions_applied(books, txs, checks, delegations, producer)->0;
    if txs.len() > 0 {
        let init = txs.drop_last();
        let last = txs.last();
        lemma_nonces_in_sequence(books, init, checks, delegations, producer);
        let before = transactions_applied(books, init, checks, delegations, producer)->0;
        let fee_to = fee_recipient(delegations, last.from, producer);
        let valid = txs.len() - 1 < checks.len() && checks[txs.len() - 1];
        assert forall|sender: Seq<char>| #[trigger]
            amount_of(after.nonces, sender) == amount_of(books.nonces, sender) + sent_by(
                txs,
                sender,
            ) by {
            lemma_transaction_takes_next_nonce(before, last, fee_to, valid, sender);
        }
        assert forall|i: int| 0 <= i < txs.len() implies (#[trigger] txs[i]).nonce == amount_of(
            books.nonces,
            txs[i].from,
        ) + sent_by(txs.take(i), txs[i].from) by {
            if i < init.len() {
                assert(init[i] == txs[i]);
                assert(init.take(i) =~= txs.take(i));
            } else {
                assert(txs.take(i) =~= init);
                lemma_transaction_takes_next_nonce(before, last, fee_to, valid, last.from);
            }
        }
    }
}

/// A slot is written at most once: a block is committed only into a free
/// slot, and committing it changes the block of no other slot.
pub proof fn lemma_slot_written_once(before: ChainView, block: Block, checks: Seq<bool>)
    requires
        before.after_block(block, checks) is Some,
    ensures
        !before.blocks.contains_key(block.slot),
        before.after_block(block, checks)->0.blocks[block.slot] == block,
        forall|slot: u64| #[trigger]
            before.blocks.contains_key(slot) ==> {
                let after = before.after_block(block, checks)->0;
                after.blocks.contains_key(slot) && after.blocks[slot] == before.blocks[slot]
            },
{
}

/// The same block is committed once: offered again after it was committed,
/// whatever is then said of its signatures, it is refused.
pub proof fn lemma_block_committed_once(
    before: ChainView,
    block: Block,
    checks: Seq<bool>,
    checks_again: Seq<bool>,
)
    requires
        before.after_block(block, checks) is Some,
    ensures
        before.after_block(block, checks)->0.after_block(block, checks_again) is None,
{
}

/// In-memory chain state: the committed blocks by slot, every account's
/// balance and next nonce, fee delegations, the latest committed slot and
/// the supply minted so far.
pub struct ChainState {
    pub blocks: HashMap<u64, Block>,
    pub accounts: Ledger,
    pub nonces: Ledger,
    pub delegations: Delegations,
    pub latest_slot: u64,
    pub total_supply: u64,
}

impl View for ChainState {
    type V = ChainView;

    open spec fn view(&self) -> ChainView {
        ChainView {
            blocks: self.blocks@,
            balances: self.accounts.lines(),
            nonces: self.nonces.lines(),
            delegations: self.delegations@,
            latest_slot: self.latest_slot,
            total_supply: self.total_supply,
        }
    }
}

/// Applies one transaction to staged books. On refusal the staged books are
/// left in no particular state.
fn apply_transaction(
    accounts: &mut Ledger,
    nonces: &mut Ledger,
    tx: &Transaction,
    fee_to: &str,
    signature_valid: bool,
) -> (applied: bool)
    ensures
        match transaction_applied(
            Books { balances: old(accounts).lines(), nonces: old(nonces).lines() },
            tx@,
            fee_to@,
            signature_valid,
        ) {
            Some(books) => applied && final(accounts).lines() == books.balances && final(nonces).lines()
                == books.nonces,
            None => !applied,
        },
{
    if !signature_valid {
        return false;
    }
    if nonces.get(tx.from.as_str()) != tx.nonce || tx.nonce == u64::MAX {
        return false;
    }
    let cost: u64 = match tx.amount.checked_add(tx.fee) {
        Some(cost) => cost,
        None => {
            return false;
        },
    };
    let balance: u64 = accounts.get(tx.from.as_str());
    if balance < cost {
        return false;
    }
    accounts.set(tx.from.as_str(), balance - cost);
    let to_balance: u64 = match accounts.get(tx.to.as_str()).checked_add(tx.amount) {
        Some(sum) => sum,
        None => {
            return false;
        },
    };
    accounts.set(tx.to.as_str(), to_balance);
    let fee_balance: u64 = match accounts.get(fee_to).checked_add(tx.fee) {
        Some(sum) => sum,
        None => {
            return false;
        },
    };
    accounts.set(fee_to, fee_balance);
    nonces.set(tx.from.as_str(), tx.nonce + 1);
    true
}

impl ChainState {
    /// A chain with no blocks, no accounts and nothing minted.
    pub fn new() -> (r: ChainState)
        ensures
            r@.blocks == Map::<u64, Block>::empty(),
            r@.balances == Seq::<Line>::empty(),
            r@.nonces == Seq::<Line>::empty(),
            r@.delegations == Seq::<Delegation>::empty(),
            r@.latest_slot == 0,
            r@.total_supply == 0,
    {
        ChainState {
            blocks: HashMap::new(),
            accounts: Ledger::new(),
            nonces: Ledger::new(),
            delegations: Delegations::new(),
            latest_slot: 0,
            total_supply: 0,
        }
    }

    /// The balance of an address; 0 if it has never been credited.
    pub fn get_balance(&self, address: &str) -> (r: u64)
        ensures
            r == amount_of(self@.balances, address@),
    {
        self.accounts.get(address)
    }

    /// The nonce that the next transaction from an address must carry; 0 if
    /// it has never spent.
    pub fn get_nonce(&self, address: &str) -> (r: u64)
        ensures
            r == amount_of(self@.nonces, address@),
    {
        self.nonces.get(address)
    }

    /// Whether a block is committed for the slot.
    pub fn has_block(&self, slot: u64) -> (r: bool)
        ensures
            r == self@.blocks.contains_key(slot),
    {
        self.blocks.contains_key(&slot)
    }

    /// A copy of the block committed for the slot, if there is one.
    pub fn get_block(&self, slot: u64) -> (r: Option<Block>)
        ensures
            match r {
                Some(block) => self@.blocks.contains_key(slot) && block@ == self@.blocks[slot]@,
                None => !self@.blocks.contains_key(slot),
            },
    {
        match self.blocks.get(&slot) {
            Some(block) => Some(block.clone()),
            None => None,
        }
    }

    /// The reward for the block of a slot.
    pub fn block_reward(slot: u64) -> (r: u64)
        ensures
            r == block_reward_at(slot),
            r <= 80_816_326,
    {
        let epoch: u64 = slot / BLOCKS_PER_EPOCH;
        if epoch >= EPOCH_COUNT as u64 {
            0
        } else {
            calculate_epoch_rewards(epoch as usize).block_reward
        }
    }

    /// Checks the signature of every transaction of a list.
    pub fn check_signatures(txs: &Vec<Transaction>) -> (r: Vec<bool>)
        ensures
            r@ == signature_checks(crate::types::transaction_views(txs@)),
    {
        let mut checks: Vec<bool> = Vec::new();
        let mut i: usize = 0;
        while i < txs.len()
            invariant
                i <= txs.len(),
                checks.len() == i,
                forall|j: int|
                    0 <= j < i ==> (#[trigger] checks[j]) == signature_checks(
                        crate::types::transaction_views(txs@),
                    )[j],
            decreases txs.len() - i,
        {
            let tx = &txs[i];
            checks.push(
                verify_transaction(
                    tx.from_pubkey.as_str(),
                    tx.from.as_str(),
                    tx.to.as_str(),
                    tx.amount,
                    tx.nonce,
                    tx.fee,
                    tx.signature.as_str(),
                ),
            );
            i = i + 1;
        }
        assert(checks@ =~= signature_checks(crate::types::transaction_views(txs@)));
        checks
    }

    /// Commits a block whose signatures have been checked: `checks[i]` says
    /// whether the signature of the transaction at `i` is valid.
    ///
    /// The block is committed unless its slot is taken or one of its
    /// transactions is refused; then nothing changes. On commit the block's
    /// reward is minted to the producer if the supply cap allows it.
    pub fn commit_block(&mut self, block: Block, checks: &[bool]) -> (committed: bool)
        ensures
            match old(self)@.after_block(block, checks@) {
                Some(after) => committed && final(self)@ == after,
                None => !committed && final(self)@ == old(self)@,
            },
    {
        if self.blocks.contains_key(&block.slot) {
            return false;
        }
        let mut accounts = self.accounts.clone();
        let mut nonces = self.nonces.clone();
        let ghost start = self@.books();
        let ghost txs = block@.transactions;
        let ghost delegations = self.delegations@;
        let ghost producer = block@.producer;
        let mut i: usize = 0;
        assert(txs.take(0) =~= Seq::<TransactionView>::empty());
        while i < block.transactions.len()
            invariant
                i <= block.transactions.len(),
                txs == block@.transactions,
                delegations == self.delegations@,
                producer == block@.producer,
                *self == *old(self),
                start == old(self)@.books(),
                !old(self)@.blocks.contains_key(block.slot),
                transactions_applied(start, txs.take(i as int), checks@, delegations, producer) == Some(
                    Books { balances: accounts.lines(), nonces: nonces.lines() },
                ),
            decreases block.transactions.len() - i,
        {
            let tx = &block.transactions[i];
            let valid: bool = i < checks.len() && checks[i];
            let fee_to: String = match self.delegations.delegate_of(tx.from.as_str()) {
                Some(validator) => validator,
                None => block.producer.clone(),
            };
            proof {
                assert(txs.take(i + 1).drop_last() =~= txs.take(i as int));
                assert(txs.take(i + 1).last() == tx@);
            }
            if !apply_transaction(&mut accounts, &mut nonces, tx, fee_to.as_str(), valid) {
                proof {
                    lemma_refused_prefix(start, txs, checks@, delegations, producer, i + 1);
                }
                return false;
            }
            i = i + 1;
        }
        assert(txs.take(i as int) =~= txs);
        let reward: u64 = Self::block_reward(block.slot);
        let producer_balance: u64 = accounts.get(block.producer.as_str());
        if reward <= TOTAL_SUPPLY && self.total_supply <= TOTAL_SUPPLY - reward && producer_balance
            <= u64::MAX - reward {
            accounts.set(block.producer.as_str(), producer_balance + reward);
            self.total_supply = self.total_supply + reward;
        }
        self.accounts = accounts;
        self.nonces = nonces;
        if block.slot > self.latest_slot {
            self.latest_slot = block.slot;
        }
        self.blocks.insert(block.slot, block);
        true
    }

    /// Validates and commits a block.
    ///
    /// Returns whether it was committed. It is not if a block is already
    /// committed for its slot, or if any of its transactions, taken in
    /// order, has an invalid signature, a nonce other than the sender's
    /// next, or an amount plus fee above the sender's balance. In that case
    /// the state is unchanged.
    pub fn add_block(&mut self, block: Block) -> (committed: bool)
        ensures
            match old(self)@.after_block(block, signature_checks(block@.transactions)) {
                Some(after) => committed && final(self)@ == after,
                None => !committed && final(self)@ == old(self)@,
            },
    {
        if self.blocks.contains_key(&block.slot) {
            return false;
        }
        let checks = Self::check_signatures(&block.transactions);
        self.commit_block(block, checks.as_slice())
    }
}

} // verus!
