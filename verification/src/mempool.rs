//! The pool of pending transactions: first in, first out, at most ten
//! thousand of them, and none of them twice.

use crate::encoding::{append_decimal, append_text, bytes_equal, decimal, utf8};
use crate::hashing::{sha256, sha256_digest};
use crate::sorting::{be_value, is_stable_order, ranks_of, stable_order};
use crate::types::{transaction_views, Transaction, TransactionView};
use vstd::prelude::*;

verus! {

/// The most transactions that the pool holds.
pub const MAX_MEMPOOL_SIZE: usize = 10_000;

/// Why a transaction is not admitted.
#[derive(Debug, Clone, Copy, PartialEq, Eq)]
pub enum RejectReason {
    /// The pool holds ten thousand transactions.
    Full,
    /// The pool holds the transaction already.
    Duplicate,
}

/// The bytes from which a transaction's key is made: the text
/// `from|to|amount|nonce|fee|signature`, numbers in decimal.
pub open spec fn dedup_input(tx: TransactionView) -> Seq<u8> {
    utf8(tx.from) + seq![124u8] + utf8(tx.to) + seq![124u8] + decimal(tx.amount as nat) + seq![124u8]
        + decimal(tx.nonce as nat) + seq![124u8] + decimal(tx.fee as nat) + seq![124u8] + utf8(
        tx.signature,
    )
}

/// The key by which the pool tells transactions apart: SHA-256 over all
/// fields but the public key.
pub open spec fn dedup_key(tx: TransactionView) -> Seq<u8> {
    sha256_digest(dedup_input(tx))
}

/// The bytes from which a transaction's place in a drained batch is made:
/// the text `from:to:amount`, the amount in decimal.
pub open spec fn order_input(tx: TransactionView) -> Seq<u8> {
    utf8(tx.from) + seq![58u8] + utf8(tx.to) + seq![58u8] + decimal(tx.amount as nat)
}

/// A transaction's place in a drained batch: the big-endian value of
/// SHA-256 over sender, recipient and amount. Lower comes first.
pub open spec fn order_rank(tx: TransactionView) -> int {
    be_value(sha256_digest(order_input(tx))) as int
}

pub open spec fn order_ranks(txs: Seq<TransactionView>) -> Seq<int> {
    Seq::new(txs.len(), |i: int| order_rank(txs[i]))
}

/// A pooled transaction under the key it was admitted with.
pub type Pooled = (Seq<u8>, TransactionView);

/// Whether some pooled transaction was admitted under `key`.
pub open spec fn holds_key(pool: Seq<Pooled>, key: Seq<u8>) -> bool {
    exists|i: int| 0 <= i < pool.len() && (#[trigger] pool[i]).0 == key
}

/// The transactions of a pool, without their keys.
pub open spec fn pooled_transactions(pool: Seq<Pooled>) -> Seq<TransactionView> {
    Seq::new(pool.len(), |i: int| pool[i].1)
}

/// Whether no two pooled transactions share a key.
pub open spec fn distinct_pool_keys(pool: Seq<Pooled>) -> bool {
    forall|i: int, j: int|
        #![trigger pool[i], pool[j]]
        0 <= i < j < pool.len() ==> pool[i].0 != pool[j].0
}

/// Whether `batch` is `txs` put in the order of `ranks`: ascending, and as
/// they stood among equal ranks.
pub open spec fn is_ordered_batch(txs: Seq<TransactionView>, ranks: Seq<int>, batch: Seq<TransactionView>) -> bool {
    exists|order: Seq<usize>|
        {
            &&& #[trigger] is_stable_order(order, ranks)
            &&& batch == Seq::new(txs.len(), |j: int| txs[order[j] as int])
        }
}

/// Transactions and ranks have one ordered batch: whatever qualifies as it
/// is the same list.
pub proof fn lemma_batch_is_determined(
    txs: Seq<TransactionView>,
    ranks: Seq<int>,
    first: Seq<TransactionView>,
    second: Seq<TransactionView>,
)
    requires
        is_ordered_batch(txs, ranks, first),
        is_ordered_batch(txs, ranks, second),
    ensures
        first == second,
{
    let a = choose|order: Seq<usize>|
        #[trigger] is_stable_order(order, ranks) && first == Seq::new(
            txs.len(),
            |j: int| txs[order[j] as int],
        );
    let b = choose|order: Seq<usize>|
        #[trigger] is_stable_order(order, ranks) && second == Seq::new(
            txs.len(),
            |j: int| txs[order[j] as int],
        );
    crate::sorting::lemma_stable_order_unique(a, b, ranks);
}

/// Builds the bytes from which a transaction's key is made.
pub fn build_dedup_input(tx: &Transaction) -> (r: Vec<u8>)
    ensures
        r@ == dedup_input(tx@),
{
    let mut out: Vec<u8> = Vec::new();
    append_text(&mut out, tx.from.as_str());
    out.push(124u8);
    append_text(&mut out, tx.to.as_str());
    out.push(124u8);
    append_decimal(&mut out, tx.amount);
    out.push(124u8);
    append_decimal(&mut out, tx.nonce);
    out.push(124u8);
    append_decimal(&mut out, tx.fee);
    out.push(124u8);
    append_text(&mut out, tx.signature.as_str());
    assert(out@ =~= dedup_input(tx@));
    out
}

/// Builds the bytes from which a transaction's place in a batch is made.
pub fn build_order_input(tx: &Transaction) -> (r: Vec<u8>)
    ensures
        r@ == order_input(tx@),
{
    let mut out: Vec<u8> = Vec::new();
    append_text(&mut out, tx.from.as_str());
    out.push(58u8);
    append_text(&mut out, tx.to.as_str());
    out.push(58u8);
    append_decimal(&mut out, tx.amount);
    assert(out@ =~= order_input(tx@));
    out
}

struct PoolEntry {
    key: Vec<u8>,
    tx: Transaction,
}

/// The pool of pending transactions.
pub struct Mempool {
    entries: Vec<PoolEntry>,
}

spec fn pool_of(entries: Seq<PoolEntry>) -> Seq<Pooled> {
    Seq::new(entries.len(), |i: int| (entries[i].key@, entries[i].tx@))
}

impl Mempool {
    #[verifier::type_invariant]
    spec fn well_formed(self) -> bool {
        &&& self.entries@.len() <= MAX_MEMPOOL_SIZE
        &&& distinct_pool_keys(pool_of(self.entries@))
    }

    /// The pooled transactions with their keys, oldest first.
    pub closed spec fn pool(&self) -> Seq<Pooled> {
        pool_of(self.entries@)
    }

    /// The pending transactions, oldest first.
    pub open spec fn view(&self) -> Seq<TransactionView> {
        pooled_transactions(self.pool())
    }

    /// An empty pool.
    pub fn new() -> (r: Mempool)
        ensures
            r.pool() == Seq::<Pooled>::empty(),
    {
        let entries: Vec<PoolEntry> = Vec::new();
        assert(pool_of(entries@) =~= Seq::<Pooled>::empty());
        Mempool { entries }
    }

    /// Number of pending transactions: never above ten thousand, and no two
    /// of them under one key.
    pub fn len(&self) -> (r: usize)
        ensures
            r == self.pool().len(),
            r <= MAX_MEMPOOL_SIZE,
            distinct_pool_keys(self.pool()),
    {
        proof {
            use_type_invariant(self);
        }
        self.entries.len()
    }

    fn has_key(&self, key: &[u8]) -> (r: bool)
        ensures
            r == holds_key(self.pool(), key@),
    {
        let mut i: usize = 0;
        while i < self.entries.len()
            invariant
                i <= self.entries.len(),
                forall|j: int| 0 <= j < i ==> (#[trigger] self.pool()[j]).0 != key@,
            decreases self.entries.len() - i,
        {
            if bytes_equal(self.entries[i].key.as_slice(), key) {
                assert(self.pool()[i as int].0 == key@);
                return true;
            }
            i = i + 1;
        }
        false
    }

    /// Admits a transaction under a given key, unless the pool is full or
    /// holds that key already. Says whether it was admitted.
    pub fn insert_keyed(&mut self, tx: Transaction, key: Vec<u8>) -> (accepted: bool)
        ensures
            accepted == (old(self).pool().len() < MAX_MEMPOOL_SIZE && !holds_key(old(self).pool(), key@)),
            accepted ==> final(self).pool() == old(self).pool().push((key@, tx@)),
            !accepted ==> final(self).pool() == old(self).pool(),
            final(self).pool().len() <= MAX_MEMPOOL_SIZE,
    {
        proof {
            use_type_invariant(&*self);
        }
        if self.entries.len() >= MAX_MEMPOOL_SIZE {
            return false;
        }
        if self.has_key(key.as_slice()) {
            return false;
        }
        let mut entries: Vec<PoolEntry> = Vec::new();
        assert(pool_of(entries@) =~= Seq::<Pooled>::empty());
        core::mem::swap(&mut self.entries, &mut entries);
        let ghost before = pool_of(entries@);
        let ghost key_view = key@;
        let ghost tx_view = tx@;
        entries.push(PoolEntry { key, tx });
        proof {
            let after = pool_of(entries@);
            assert(after =~= before.push((key_view, tx_view)));
            assert forall|i: int, j: int|
                #![trigger after[i], after[j]]
                0 <= i < j < after.len() implies after[i].0 != after[j].0 by {
                if j < before.len() {
                    assert(after[i] == before[i] && after[j] == before[j]);
                } else {
                    assert(after[i] == before[i]);
                }
            }
        }
        core::mem::swap(&mut self.entries, &mut entries);
        true
    }

    /// Admits a transaction, or says why not: a full pool is reported
    /// before a duplicate.
    pub fn submit(&mut self, tx: Transaction) -> (r: Result<(), RejectReason>)
        ensures
            match r {
                Ok(_) => {
                    &&& old(self).pool().len() < MAX_MEMPOOL_SIZE
                    &&& !holds_key(old(self).pool(), dedup_key(tx@))
                    &&& final(self).pool() == old(self).pool().push((dedup_key(tx@), tx@))
                },
                Err(reason) => {
                    &&& final(self).pool() == old(self).pool()
                    &&& reason == if old(self).pool().len() >= MAX_MEMPOOL_SIZE {
                        RejectReason::Full
                    } else {
                        RejectReason::Duplicate
                    }
                    &&& reason == RejectReason::Duplicate ==> holds_key(old(self).pool(), dedup_key(tx@))
                },
            },
    {
        let full = self.len() >= MAX_MEMPOOL_SIZE;
        if self.add(tx) {
            Ok(())
        } else if full {
            Err(RejectReason::Full)
        } else {
            Err(RejectReason::Duplicate)
        }
    }

    /// Admits a transaction unless the pool is full or holds it already.
    /// Says whether it was admitted.
    pub fn add(&mut self, tx: Transaction) -> (accepted: bool)
        ensures
            accepted == (old(self).pool().len() < MAX_MEMPOOL_SIZE && !holds_key(
                old(self).pool(),
                dedup_key(tx@),
            )),
            accepted ==> final(self).pool() == old(self).pool().push((dedup_key(tx@), tx@)),
            !accepted ==> final(self).pool() == old(self).pool(),
            final(self).pool().len() <= MAX_MEMPOOL_SIZE,
    {
        let input = build_dedup_input(&tx);
        let key = sha256(input.as_slice());
        self.insert_keyed(tx, key)
    }

    /// Admits a transaction if the pool has room and does not hold it.
    pub fn add_transaction(&mut self, tx: Transaction)
        ensures
            final(self).pool() == if old(self).pool().len() < MAX_MEMPOOL_SIZE && !holds_key(
                old(self).pool(),
                dedup_key(tx@),
            ) {
                old(self).pool().push((dedup_key(tx@), tx@))
            } else {
                old(self).pool()
            },
    {
        let _ = self.add(tx);
    }

    /// Takes the oldest `keys.len()` transactions out of the pool and
    /// returns them in the order of the given 32-byte keys, one for each:
    /// ascending by big-endian value, and as they stood among equal keys.
    pub fn take_ordered(&mut self, keys: &Vec<Vec<u8>>) -> (batch: Vec<Transaction>)
        requires
            keys.len() <= old(self).pool().len(),
            forall|i: int| 0 <= i < keys.len() ==> (#[trigger] keys[i])@.len() == 32,
        ensures
            final(self).pool() == old(self).pool().skip(keys.len() as int),
            is_ordered_batch(
                pooled_transactions(old(self).pool()).take(keys.len() as int),
                ranks_of(keys@),
                transaction_views(batch@),
            ),
            batch.len() == keys.len(),
    {
        proof {
            use_type_invariant(&*self);
        }
        let count: usize = keys.len();
        let mut taken: Vec<PoolEntry> = Vec::new();
        assert(pool_of(taken@) =~= Seq::<Pooled>::empty());
        core::mem::swap(&mut self.entries, &mut taken);
        let ghost before = pool_of(taken@);
        let mut rest: Vec<PoolEntry> = taken.split_off(count);
        proof {
            let after = pool_of(rest@);
            assert(after =~= before.skip(count as int));
            assert forall|i: int, j: int|
                #![trigger after[i], after[j]]
                0 <= i < j < after.len() implies after[i].0 != after[j].0 by {
                assert(after[i] == before[i + count] && after[j] == before[j + count]);
            }
        }
        core::mem::swap(&mut self.entries, &mut rest);
        let order = stable_order(keys);
        let ghost head = pooled_transactions(before).take(count as int);
        let mut batch: Vec<Transaction> = Vec::new();
        let mut j: usize = 0;
        while j < count
            invariant
                j <= count,
                count == keys.len(),
                taken.len() == count,
                batch.len() == j,
                is_stable_order(order@, ranks_of(keys@)),
                forall|k: int| 0 <= k < j ==> (#[trigger] batch[k])@ == taken[order[k] as int].tx@,
            decreases count - j,
        {
            let index: usize = order[j];
            batch.push(taken[index].tx.clone());
            j = j + 1;
        }
        proof {
            assert(head.len() == count);
            assert forall|k: int| 0 <= k < count implies (#[trigger] batch[k])@ == head[order@[k] as int] by {
                assert(order@[k] < count);
                assert(head[order@[k] as int] == before[order@[k] as int].1);
                assert(before[order@[k] as int].1 == taken[order@[k] as int].tx@);
            }
            assert(transaction_views(batch@) =~= Seq::new(head.len(), |j: int| head[order@[j] as int]));
        }
        batch
    }

    /// Takes up to `max` transactions from the head of the pool, forgets
    /// their keys, and returns them ordered by SHA-256 of sender, recipient
    /// and amount, so that the batch does not depend on the order in which
    /// its transactions arrived.
    pub fn get_pending(&mut self, max: usize) -> (batch: Vec<Transaction>)
        ensures
            ({
                let count = if max < old(self).pool().len() {
                    max as int
                } else {
                    old(self).pool().len() as int
                };
                &&& final(self).pool() == old(self).pool().skip(count)
                &&& batch.len() == count
                &&& is_ordered_batch(
                    old(self)@.take(count),
                    order_ranks(old(self)@.take(count)),
                    transaction_views(batch@),
                )
            }),
    {
        let len = self.len();
        let count: usize = if max < len {
            max
        } else {
            len
        };
        let mut keys: Vec<Vec<u8>> = Vec::new();
        let mut i: usize = 0;
        while i < count
            invariant
                i <= count,
                count <= self.pool().len(),
                keys.len() == i,
                forall|j: int|
                    0 <= j < i ==> (#[trigger] keys[j])@ == sha256_digest(order_input(self@[j]))
                        && keys[j]@.len() == 32,
            decreases count - i,
        {
            let input = build_order_input(&self.entries[i].tx);
            keys.push(sha256(input.as_slice()));
            i = i + 1;
        }
        assert(ranks_of(keys@) =~= order_ranks(self@.take(count as int)));
        self.take_ordered(&keys)
    }
}

/// Adding the same transaction twice keeps one entry: once a transaction
/// has been admitted, the pool holds its key, so the second attempt is
/// refused and leaves the pool as it is.
pub proof fn lemma_second_add_refused(pool: Seq<Pooled>, tx: TransactionView)
    ensures
        holds_key(pool.push((dedup_key(tx), tx)), dedup_key(tx)),
{
    let after = pool.push((dedup_key(tx), tx));
    assert(after[pool.len() as int].0 == dedup_key(tx));
}

} // verus!
