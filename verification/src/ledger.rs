//! A table from addresses to 64-bit amounts, listed in order of first entry.
//!
//! An address that is not listed stands at 0. No address is listed twice.

use crate::encoding::text_equal;
use vstd::prelude::*;

verus! {

/// One line of a table: an address and its amount.
pub type Line = (Seq<char>, u64);

/// Position of the first line for `key`, or the number of lines if there is
/// none.
pub open spec fn position_of(lines: Seq<Line>, key: Seq<char>) -> int
    decreases lines.len(),
{
    if lines.len() == 0 {
        0
    } else {
        let before = position_of(lines.drop_last(), key);
        if before < lines.len() - 1 {
            before
        } else if lines.last().0 == key {
            lines.len() - 1
        } else {
            lines.len() as int
        }
    }
}

/// The amount at which `key` stands.
pub open spec fn amount_of(lines: Seq<Line>, key: Seq<char>) -> u64 {
    let p = position_of(lines, key);
    if p < lines.len() {
        lines[p].1
    } else {
        0
    }
}

/// The table with `key` set to `amount`: its line is rewritten in place, or
/// a new line is added at the end.
pub open spec fn with_amount(lines: Seq<Line>, key: Seq<char>, amount: u64) -> Seq<Line> {
    let p = position_of(lines, key);
    if p < lines.len() {
        lines.update(p, (key, amount))
    } else {
        lines.push((key, amount))
    }
}

/// The sum of all amounts.
pub open spec fn total_of(lines: Seq<Line>) -> int
    decreases lines.len(),
{
    if lines.len() == 0 {
        0
    } else {
        total_of(lines.drop_last()) + lines.last().1
    }
}

/// Whether no address is listed twice.
pub open spec fn distinct_keys(lines: Seq<Line>) -> bool {
    forall|i: int, j: int|
        #![trigger lines[i], lines[j]]
        0 <= i < j < lines.len() ==> lines[i].0 != lines[j].0
}

/// `position_of` finds the first line for the key.
pub proof fn lemma_position_of(lines: Seq<Line>, key: Seq<char>)
    ensures
        0 <= position_of(lines, key) <= lines.len(),
        position_of(lines, key) < lines.len() ==> lines[position_of(lines, key)].0 == key,
        forall|j: int| 0 <= j < position_of(lines, key) ==> (#[trigger] lines[j]).0 != key,
    decreases lines.len(),
{
    if lines.len() > 0 {
        let init = lines.drop_last();
        lemma_position_of(init, key);
        assert forall|j: int| 0 <= j < position_of(lines, key) implies (#[trigger] lines[j]).0
            != key by {
            if j < init.len() {
                assert(init[j] == lines[j]);
            }
        }
    }
}

/// A line for the key with none before it is where `position_of` points.
pub proof fn lemma_position_found(lines: Seq<Line>, key: Seq<char>, p: int)
    requires
        0 <= p <= lines.len(),
        p < lines.len() ==> lines[p].0 == key,
        forall|j: int| 0 <= j < p ==> (#[trigger] lines[j]).0 != key,
    ensures
        position_of(lines, key) == p,
{
    lemma_position_of(lines, key);
    let q = position_of(lines, key);
    if q < p {
        assert(lines[q].0 != key);
    }
}

/// Reading after writing: the written key stands at the new amount, every
/// other key where it stood.
pub proof fn lemma_amount_after_write(lines: Seq<Line>, key: Seq<char>, amount: u64, other: Seq<char>)
    ensures
        amount_of(with_amount(lines, key, amount), other) == if other == key {
            amount
        } else {
            amount_of(lines, other)
        },
{
    let after = with_amount(lines, key, amount);
    let p = position_of(lines, key);
    let q = position_of(lines, other);
    lemma_position_of(lines, key);
    lemma_position_of(lines, other);
    if p < lines.len() {
        assert forall|j: int| 0 <= j < q implies (#[trigger] after[j]).0 != other by {
            assert(lines[j].0 != other);
        }
        lemma_position_found(after, other, q);
    } else {
        if other == key {
            assert forall|j: int| 0 <= j < lines.len() implies (#[trigger] after[j]).0 != other by {
                assert(lines[j].0 != other);
            }
            lemma_position_found(after, other, lines.len() as int);
        } else if q < lines.len() {
            assert forall|j: int| 0 <= j < q implies (#[trigger] after[j]).0 != other by {
                assert(lines[j].0 != other);
            }
            lemma_position_found(after, other, q);
        } else {
            assert forall|j: int| 0 <= j < after.len() implies (#[trigger] after[j]).0 != other by {
                if j < lines.len() {
                    assert(lines[j].0 != other);
                }
            }
            lemma_position_found(after, other, after.len() as int);
        }
    }
}

pub proof fn lemma_total_update(lines: Seq<Line>, p: int, line: Line)
    requires
        0 <= p < lines.len(),
    ensures
        total_of(lines.update(p, line)) == total_of(lines) - lines[p].1 + line.1,
    decreases lines.len(),
{
    let after = lines.update(p, line);
    if p == lines.len() - 1 {
        assert(after.drop_last() =~= lines.drop_last());
    } else {
        assert(after.drop_last() =~= lines.drop_last().update(p, line));
        lemma_total_update(lines.drop_last(), p, line);
    }
}

/// Writing a key changes the total by the difference of its amounts.
pub proof fn lemma_total_after_write(lines: Seq<Line>, key: Seq<char>, amount: u64)
    ensures
        total_of(with_amount(lines, key, amount)) == total_of(lines) - amount_of(lines, key) + amount,
{
    let p = position_of(lines, key);
    lemma_position_of(lines, key);
    if p < lines.len() {
        lemma_total_update(lines, p, (key, amount));
    } else {
        assert(lines.push((key, amount)).drop_last() =~= lines);
    }
}

/// Writing keeps the addresses distinct.
pub proof fn lemma_distinct_after_write(lines: Seq<Line>, key: Seq<char>, amount: u64)
    requires
        distinct_keys(lines),
    ensures
        distinct_keys(with_amount(lines, key, amount)),
{
    let after = with_amount(lines, key, amount);
    let p = position_of(lines, key);
    lemma_position_of(lines, key);
    assert forall|i: int, j: int|
        #![trigger after[i], after[j]]
        0 <= i < j < after.len() implies after[i].0 != after[j].0 by {
        if p < lines.len() {
            assert(after[i].0 == lines[i].0 && after[j].0 == lines[j].0);
        } else if j < lines.len() {
            assert(after[i] == lines[i] && after[j] == lines[j]);
        } else {
            assert(after[i] == lines[i]);
        }
    }
}

struct Entry {
    key: String,
    amount: u64,
}

/// A table from addresses to amounts.
pub struct Ledger {
    entries: Vec<Entry>,
}

impl Ledger {
    #[verifier::type_invariant]
    spec fn well_formed(self) -> bool {
        distinct_keys(self.lines())
    }

    /// The lines of the table, in order of first entry.
    pub closed spec fn lines(&self) -> Seq<Line> {
        Seq::new(self.entries@.len(), |i: int| (self.entries@[i].key@, self.entries@[i].amount))
    }

    /// The amount at which `key` stands; 0 if it is not listed.
    pub open spec fn amount(&self, key: Seq<char>) -> u64 {
        amount_of(self.lines(), key)
    }

    /// The sum of all amounts.
    pub open spec fn total(&self) -> int {
        total_of(self.lines())
    }

    /// An empty table.
    pub fn new() -> (r: Ledger)
        ensures
            r.lines() == Seq::<Line>::empty(),
    {
        let r = Ledger { entries: Vec::new() };
        assert(r.lines() =~= Seq::<Line>::empty());
        r
    }

    /// Number of addresses listed, none of them twice.
    pub fn len(&self) -> (r: usize)
        ensures
            r == self.lines().len(),
            distinct_keys(self.lines()),
    {
        proof {
            use_type_invariant(self);
        }
        self.entries.len()
    }

    fn find(&self, key: &str) -> (p: usize)
        ensures
            p == position_of(self.lines(), key@),
            p <= self.entries.len(),
    {
        let mut i: usize = 0;
        while i < self.entries.len()
            invariant
                i <= self.entries.len(),
                forall|j: int| 0 <= j < i ==> (#[trigger] self.lines()[j]).0 != key@,
            decreases self.entries.len() - i,
        {
            if text_equal(self.entries[i].key.as_str(), key) {
                proof {
                    lemma_position_found(self.lines(), key@, i as int);
                }
                return i;
            }
            i = i + 1;
        }
        proof {
            lemma_position_found(self.lines(), key@, i as int);
        }
        i
    }

    /// The amount at which `key` stands; 0 if it is not listed.
    pub fn get(&self, key: &str) -> (r: u64)
        ensures
            r == self.amount(key@),
    {
        let p = self.find(key);
        if p < self.entries.len() {
            self.entries[p].amount
        } else {
            0
        }
    }

    /// Whether `key` is listed.
    pub fn contains(&self, key: &str) -> (r: bool)
        ensures
            r == (position_of(self.lines(), key@) < self.lines().len()),
    {
        let p = self.find(key);
        p < self.entries.len()
    }

    /// Sets `key` to `amount`, listing it if it was not.
    pub fn set(&mut self, key: &str, amount: u64)
        ensures
            final(self).lines() == with_amount(old(self).lines(), key@, amount),
    {
        proof {
            use_type_invariant(&*self);
            lemma_distinct_after_write(self.lines(), key@, amount);
        }
        let p = self.find(key);
        let mut entries: Vec<Entry> = Vec::new();
        assert(Seq::new(entries@.len(), |i: int| (entries@[i].key@, entries@[i].amount)) =~= Seq::<
            Line,
        >::empty());
        core::mem::swap(&mut self.entries, &mut entries);
        if p < entries.len() {
            entries[p] = Entry { key: key.to_owned(), amount };
        } else {
            entries.push(Entry { key: key.to_owned(), amount });
        }
        assert(Seq::new(entries@.len(), |i: int| (entries@[i].key@, entries@[i].amount)) =~= with_amount(
            old(self).lines(),
            key@,
            amount,
        ));
        core::mem::swap(&mut self.entries, &mut entries);
    }

    /// The address and amount of the line at `index`.
    pub fn line(&self, index: usize) -> (r: (String, u64))
        requires
            index < self.lines().len(),
        ensures
            (r.0@, r.1) == self.lines()[index as int],
    {
        (self.entries[index].key.clone(), self.entries[index].amount)
    }
}

impl Clone for Ledger {
    fn clone(&self) -> (r: Self)
        ensures
            r.lines() == self.lines(),
    {
        proof {
            use_type_invariant(self);
        }
        let mut entries: Vec<Entry> = Vec::new();
        let mut i: usize = 0;
        while i < self.entries.len()
            invariant
                i <= self.entries.len(),
                entries.len() == i,
                forall|j: int|
                    0 <= j < i ==> (#[trigger] entries[j]).key@ == self.entries[j].key@ && entries[j].amount
                        == self.entries[j].amount,
            decreases self.entries.len() - i,
        {
            entries.push(Entry { key: self.entries[i].key.clone(), amount: self.entries[i].amount });
            i = i + 1;
        }
        assert(Seq::new(entries@.len(), |i: int| (entries@[i].key@, entries@[i].amount))
            =~= self.lines());
        Ledger { entries }
    }
}

} // verus!
