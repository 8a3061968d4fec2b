//! Stable ordering of items by a numeric rank.
//!
//! The order of a list is described by a sequence of indices into it: the
//! index at position 0 names the item that comes first. Between items of
//! equal rank the one that stood earlier comes first, so there is exactly
//! one such order for any list of ranks.

use vstd::prelude::*;

verus! {

/// Whether `order` lists the indices below `n`, each once, by ascending rank,
/// and by ascending index among equal ranks.
pub open spec fn is_stable_prefix_order(order: Seq<usize>, ranks: Seq<int>, n: int) -> bool {
    &&& order.len() == n
    &&& 0 <= n <= ranks.len()
    &&& forall|a: int| 0 <= a < n ==> (#[trigger] order[a]) < n
    &&& forall|a: int, b: int|
        #![trigger order[a], order[b]]
        0 <= a < b < n ==> {
            ||| ranks[order[a] as int] < ranks[order[b] as int]
            ||| (ranks[order[a] as int] == ranks[order[b] as int] && order[a] < order[b])
        }
}

/// Whether `order` is the stable ascending order of all of `ranks`.
pub open spec fn is_stable_order(order: Seq<usize>, ranks: Seq<int>) -> bool {
    is_stable_prefix_order(order, ranks, ranks.len() as int)
}

/// The number that a byte string stands for when read as big-endian digits.
/// Among byte strings of one length, this orders them as a dictionary would.
pub open spec fn be_value(bytes: Seq<u8>) -> nat
    decreases bytes.len(),
{
    if bytes.len() == 0 {
        0
    } else {
        be_value(bytes.drop_last()) * 256 + bytes.last() as nat
    }
}

/// Two byte strings of one length that first differ at `k` are ordered by
/// their bytes at `k`.
pub proof fn lemma_be_value_first_difference(a: Seq<u8>, b: Seq<u8>, k: int)
    requires
        a.len() == b.len(),
        0 <= k < a.len(),
        a.subrange(0, k) == b.subrange(0, k),
        a[k] < b[k],
    ensures
        be_value(a) < be_value(b),
    decreases a.len(),
{
    let n = a.len() as int;
    let a0 = a.drop_last();
    let b0 = b.drop_last();
    if k == n - 1 {
        assert(a0 == a.subrange(0, k));
        assert(b0 == b.subrange(0, k));
    } else {
        assert(a0.subrange(0, k) == a.subrange(0, k));
        assert(b0.subrange(0, k) == b.subrange(0, k));
        lemma_be_value_first_difference(a0, b0, k);
    }
}

/// More than `m` numbers below `m` cannot all differ.
pub proof fn lemma_pigeonhole(a: Seq<int>, m: int)
    requires
        m >= 0,
        a.len() > m,
        forall|i: int| 0 <= i < a.len() ==> 0 <= #[trigger] a[i] < m,
    ensures
        exists|i: int, j: int| 0 <= i < j < a.len() && a[i] == a[j],
    decreases m,
{
    if m == 0 {
        let first = a[0];
        assert(0 <= first < m);
    } else if exists|p: int| 0 <= p < a.len() && a[p] == m - 1 {
        let p = choose|p: int| 0 <= p < a.len() && a[p] == m - 1;
        let b = a.remove(p);
        if forall|i: int| 0 <= i < b.len() ==> #[trigger] b[i] != m - 1 {
            assert forall|i: int| 0 <= i < b.len() implies 0 <= #[trigger] b[i] < m - 1 by {
                if i < p {
                    assert(b[i] == a[i]);
                } else {
                    assert(b[i] == a[i + 1]);
                }
            }
            lemma_pigeonhole(b, m - 1);
            let (i, j) = choose|i: int, j: int| 0 <= i < j < b.len() && b[i] == b[j];
            let i2 = if i < p {
                i
            } else {
                i + 1
            };
            let j2 = if j < p {
                j
            } else {
                j + 1
            };
            assert(a[i2] == b[i] && a[j2] == b[j]);
            assert(0 <= i2 < j2 < a.len() && a[i2] == a[j2]);
        } else {
            let i = choose|i: int| 0 <= i < b.len() && b[i] == m - 1;
            let i2 = if i < p {
                i
            } else {
                i + 1
            };
            assert(a[i2] == b[i]);
            if i2 < p {
                assert(0 <= i2 < p < a.len() && a[i2] == a[p]);
            } else {
                assert(0 <= p < i2 < a.len() && a[p] == a[i2]);
            }
        }
    } else {
        assert forall|i: int| 0 <= i < a.len() implies 0 <= #[trigger] a[i] < m - 1 by {
            assert(a[i] != m - 1);
        }
        lemma_pigeonhole(a, m - 1);
    }
}

/// A stable order lists every index.
pub proof fn lemma_stable_order_lists_all(order: Seq<usize>, ranks: Seq<int>, v: int)
    requires
        is_stable_order(order, ranks),
        0 <= v < ranks.len(),
    ensures
        exists|k: int| 0 <= k < order.len() && order[k] == v,
{
    let n = ranks.len() as int;
    if !exists|k: int| 0 <= k < order.len() && order[k] == v {
        let b = Seq::new(
            n as nat,
            |i: int|
                if order[i] > v {
                    order[i] - 1
                } else {
                    order[i] as int
                },
        );
        assert forall|i: int| 0 <= i < b.len() implies 0 <= #[trigger] b[i] < n - 1 by {
            assert(order[i] < n);
            assert(order[i] != v);
        }
        lemma_pigeonhole(b, n - 1);
        let (i, j) = choose|i: int, j: int| 0 <= i < j < b.len() && b[i] == b[j];
        assert(order[i] != v && order[j] != v);
        assert(order[i] != order[j]);
    }
}

/// There is one stable order of any ranks: two that qualify are the same.
pub proof fn lemma_stable_order_unique(first: Seq<usize>, second: Seq<usize>, ranks: Seq<int>)
    requires
        is_stable_order(first, ranks),
        is_stable_order(second, ranks),
    ensures
        first == second,
{
    let n = ranks.len() as int;
    assert forall|k: int| 0 <= k < n implies first[k] == second[k] by {
        let v = first[k] as int;
        lemma_stable_order_lists_all(second, ranks, v);
        let j = choose|j: int| 0 <= j < second.len() && second[j] == v;
        lemma_earlier_fit_before(first, second, ranks, k, j);
        lemma_earlier_fit_before(second, first, ranks, j, k);
    }
    assert(first =~= second);
}

/// The `k` indices that stand before position `k` of one stable order all
/// stand before position `j` of another that holds the same index there,
/// so `k` cannot exceed `j`.
proof fn lemma_earlier_fit_before(a: Seq<usize>, b: Seq<usize>, ranks: Seq<int>, k: int, j: int)
    requires
        is_stable_order(a, ranks),
        is_stable_order(b, ranks),
        0 <= k < a.len(),
        0 <= j < b.len(),
        a[k] == b[j],
    ensures
        k <= j,
{
    if j < k {
        let place = |i: int| choose|q: int| 0 <= q < b.len() && b[q] == a[i];
        let p = Seq::new(k as nat, place);
        assert forall|i: int| 0 <= i < p.len() implies 0 <= #[trigger] p[i] < j by {
            lemma_stable_order_lists_all(b, ranks, a[i] as int);
            let q = p[i];
            assert(0 <= q < b.len() && b[q] == a[i]);
            let ai = a[i];
            let ak = a[k];
            assert(ai != ak);
            if q > j {
                let bj = b[j];
                let bq = b[q];
                assert(ranks[bj as int] < ranks[bq as int] || (ranks[bj as int] == ranks[bq as int] && bj
                    < bq));
            }
        }
        lemma_pigeonhole(p, j);
        let (x, y) = choose|x: int, y: int| 0 <= x < y < p.len() && p[x] == p[y];
        lemma_stable_order_lists_all(b, ranks, a[x] as int);
        lemma_stable_order_lists_all(b, ranks, a[y] as int);
        assert(b[p[x]] == a[x] && b[p[y]] == a[y]);
        let ax = a[x];
        let ay = a[y];
        assert(ax != ay);
    }
}

/// A key by which items are ordered: it has a rank, and two keys that are
/// comparable can be compared by rank in executable code.
pub trait SortKey {
    spec fn rank(&self) -> int;

    spec fn sortable(&self) -> bool;

    /// Whether `self` ranks strictly below `other`.
    fn ranks_below(&self, other: &Self) -> (r: bool)
        requires
            self.sortable(),
            other.sortable(),
        ensures
            r == (self.rank() < other.rank()),
    ;
}

impl SortKey for u64 {
    open spec fn rank(&self) -> int {
        *self as int
    }

    open spec fn sortable(&self) -> bool {
        true
    }

    fn ranks_below(&self, other: &Self) -> (r: bool) {
        *self < *other
    }
}

/// A 32-byte digest ranks by its big-endian value.
impl SortKey for Vec<u8> {
    open spec fn rank(&self) -> int {
        be_value(self@) as int
    }

    open spec fn sortable(&self) -> bool {
        self@.len() == 32
    }

    fn ranks_below(&self, other: &Self) -> (r: bool) {
        let mut i: usize = 0;
        while i < self.len()
            invariant
                i <= self.len(),
                self.len() == other.len(),
                self@.subrange(0, i as int) == other@.subrange(0, i as int),
            decreases self.len() - i,
        {
            if self[i] != other[i] {
                proof {
                    if self[i as int] < other[i as int] {
                        lemma_be_value_first_difference(self@, other@, i as int);
                    } else {
                        lemma_be_value_first_difference(other@, self@, i as int);
                    }
                }
                return self[i] < other[i];
            }
            i = i + 1;
            assert(self@.subrange(0, i as int) == self@.subrange(0, i - 1).push(self@[i - 1]));
            assert(other@.subrange(0, i as int) == other@.subrange(0, i - 1).push(other@[i - 1]));
        }
        assert(self@.subrange(0, i as int) == self@);
        assert(other@.subrange(0, i as int) == other@);
        false
    }
}

/// The ranks of a list of keys.
pub open spec fn ranks_of<K: SortKey>(keys: Seq<K>) -> Seq<int> {
    Seq::new(keys.len(), |i: int| keys[i].rank())
}

/// Computes the stable ascending order of `keys` as a list of indices.
pub fn stable_order<K: SortKey>(keys: &Vec<K>) -> (order: Vec<usize>)
    requires
        forall|i: int| 0 <= i < keys.len() ==> (#[trigger] keys[i]).sortable(),
    ensures
        is_stable_order(order@, ranks_of(keys@)),
{
    let ghost ranks = ranks_of(keys@);
    let mut order: Vec<usize> = Vec::new();
    let mut i: usize = 0;
    while i < keys.len()
        invariant
            i <= keys.len(),
            ranks == ranks_of(keys@),
            forall|j: int| 0 <= j < keys.len() ==> (#[trigger] keys[j]).sortable(),
            is_stable_prefix_order(order@, ranks, i as int),
        decreases keys.len() - i,
    {
        let mut p: usize = order.len();
        loop
            invariant
                p <= order.len(),
                i < keys.len(),
                ranks == ranks_of(keys@),
                forall|j: int| 0 <= j < keys.len() ==> (#[trigger] keys[j]).sortable(),
                is_stable_prefix_order(order@, ranks, i as int),
                forall|b: int| p <= b < order.len() ==> ranks[i as int] < ranks[(#[trigger] order[b]) as int],
            ensures
                p <= order.len(),
                forall|b: int| p <= b < order.len() ==> ranks[i as int] < ranks[(#[trigger] order[b]) as int],
                p > 0 ==> ranks[order[p - 1] as int] <= ranks[i as int],
            decreases p,
        {
            if p == 0 {
                break ;
            }
            let prev: usize = order[p - 1];
            assert(prev < i);
            if !keys[i].ranks_below(&keys[prev]) {
                break ;
            }
            p = p - 1;
        }
        let ghost before = order@;
        order.insert(p, i);
        proof {
            let after = order@;
            assert(after == before.insert(p as int, i));
            assert forall|a: int| 0 <= a < i + 1 implies (#[trigger] after[a]) < i + 1 by {
                if a < p {
                    assert(after[a] == before[a]);
                } else if a > p {
                    assert(after[a] == before[a - 1]);
                }
            }
            assert forall|a: int, b: int|
                #![trigger after[a], after[b]]
                0 <= a < b < i + 1 implies {
                ||| ranks[after[a] as int] < ranks[after[b] as int]
                ||| (ranks[after[a] as int] == ranks[after[b] as int] && after[a] < after[b])
            } by {
                if b < p {
                    assert(after[a] == before[a] && after[b] == before[b]);
                } else if b == p {
                    assert(after[a] == before[a]);
                    assert(before[a] < i);
                    if a < p - 1 {
                        assert(ranks[before[a] as int] <= ranks[before[p - 1] as int]);
                    }
                } else if a == p {
                    assert(after[b] == before[b - 1]);
                } else if a < p {
                    assert(after[a] == before[a] && after[b] == before[b - 1]);
                } else {
                    assert(after[a] == before[a - 1] && after[b] == before[b - 1]);
                }
            }
        }
        i = i + 1;
    }
    order
}

} // verus!
