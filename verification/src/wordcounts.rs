//! The word-frequency corpus a trainer accumulates: a map from word string
//! to occurrence count, with saturating counts.

use vstd::prelude::*;

verus! {

/// Count of `w` in `entries`, first match winning (entries are unique by
/// construction, so the first match is the only one).
pub open spec fn count_from(entries: Seq<(String, u64)>, w: Seq<char>, i: int) -> u64
    decreases entries.len() - i,
{
    if i < 0 || i >= entries.len() {
        0
    } else if entries[i].0@ == w {
        entries[i].1
    } else {
        count_from(entries, w, i + 1)
    }
}

pub open spec fn count_of(entries: Seq<(String, u64)>, w: Seq<char>) -> u64 {
    count_from(entries, w, 0)
}

/// Saturating sum, as a mathematical integer.
pub open spec fn sat_add_int(a: int, b: int) -> int {
    if a + b > u64::MAX {
        u64::MAX as int
    } else {
        a + b
    }
}

/// Occurrences of `w` in a word list.
pub open spec fn occurrences(ws: Seq<String>, w: Seq<char>) -> int
    decreases ws.len(),
{
    if ws.len() == 0 {
        0
    } else {
        occurrences(ws.drop_last(), w) + if ws.last()@ == w {
            1int
        } else {
            0int
        }
    }
}

/// Occurrences of `w` summed over a sequence of word lists.
pub open spec fn total_occurrences(ws: Seq<Vec<String>>, w: Seq<char>) -> int
    decreases ws.len(),
{
    if ws.len() == 0 {
        0
    } else {
        total_occurrences(ws.drop_last(), w) + occurrences(ws.last()@, w)
    }
}

/// A positive count names an entry: some position carries that word with
/// that count.
pub proof fn lemma_count_entry(entries: Seq<(String, u64)>, w: Seq<char>, j: int)
    requires
        0 <= j <= entries.len(),
        count_from(entries, w, j) > 0,
    ensures
        exists|i: int|
            j <= i < entries.len() && (#[trigger] entries[i]).0@ == w && entries[i].1
                == count_from(entries, w, j),
    decreases entries.len() - j,
{
    if j < entries.len() && entries[j].0@ != w {
        lemma_count_entry(entries, w, j + 1);
    }
}

/// Occurrence tallies are never negative.
pub proof fn lemma_occurrences_nonneg(ws: Seq<String>, w: Seq<char>)
    ensures
        occurrences(ws, w) >= 0,
    decreases ws.len(),
{
    if ws.len() > 0 {
        lemma_occurrences_nonneg(ws.drop_last(), w);
    }
}

pub proof fn lemma_total_occurrences_nonneg(ws: Seq<Vec<String>>, w: Seq<char>)
    ensures
        total_occurrences(ws, w) >= 0,
    decreases ws.len(),
{
    if ws.len() > 0 {
        lemma_total_occurrences_nonneg(ws.drop_last(), w);
        lemma_occurrences_nonneg(ws.last()@, w);
    }
}

/// A word-frequency map. Counts saturate at `u64::MAX` instead of
/// overflowing.
#[derive(Debug, PartialEq)]
pub struct WordCounts {
    entries: Vec<(String, u64)>,
}

impl WordCounts {
    pub closed spec fn entries(self) -> Seq<(String, u64)> {
        self.entries@
    }

    pub open spec fn spec_count(self, w: Seq<char>) -> u64 {
        count_of(self.entries(), w)
    }

    pub fn new() -> (r: WordCounts)
        ensures
            r.entries() =~= Seq::<(String, u64)>::empty(),
            forall|w: Seq<char>| #[trigger] r.spec_count(w) == 0,
    {
        WordCounts { entries: Vec::new() }
    }

    pub fn len(&self) -> (n: usize)
        ensures
            n == self.entries().len(),
    {
        self.entries.len()
    }

    /// The entry at a position, for walking the whole map.
    pub fn entry(&self, i: usize) -> (r: (String, u64))
        requires
            i < self.entries().len(),
        ensures
            r.0@ == self.entries()[i as int].0@,
            r.1 == self.entries()[i as int].1,
    {
        let e = &self.entries[i];
        (e.0.clone(), e.1)
    }

    /// Positions hold pairwise distinct words (so walking the entries sees
    /// every counted word once).
    proof fn lemma_found_count(self, i: int, w: Seq<char>)
        requires
            0 <= i < self.entries().len(),
            self.entries()[i].0@ == w,
            forall|k: int| 0 <= k < i ==> self.entries()[k].0@ != w,
        ensures
            self.spec_count(w) == self.entries()[i].1,
        decreases i,
    {
        self.lemma_count_from_skip(w, 0, i);
    }

    proof fn lemma_count_from_skip(self, w: Seq<char>, j: int, i: int)
        requires
            0 <= j <= i < self.entries().len(),
            self.entries()[i].0@ == w,
            forall|k: int| 0 <= k < i ==> self.entries()[k].0@ != w,
        ensures
            count_from(self.entries(), w, j) == self.entries()[i].1,
        decreases i - j,
    {
        if j < i {
            self.lemma_count_from_skip(w, j + 1, i);
        }
    }

    /// Add `n` occurrences of `word`: exactly its count changes, and it
    /// changes to the saturating sum.
    pub fn add(&mut self, word: &String, n: u64)
        ensures
            forall|x: Seq<char>| #[trigger] final(self).spec_count(x) == if x == word@ {
                sat_add_int(old(self).spec_count(x) as int, n as int)
            } else {
                old(self).spec_count(x) as int
            },
            final(self).entries().len() <= old(self).entries().len() + 1,
            forall|i2: int| #![trigger final(self).entries()[i2]]
                0 <= i2 < final(self).entries().len() ==> final(self).entries()[i2].0@ == if i2
                    < old(self).entries().len() {
                    old(self).entries()[i2].0@
                } else {
                    word@
                },
    {
        let m = self.entries.len();
        for i in 0..m
            invariant
                m == self.entries().len(),
                *self == *old(self),
                forall|k: int| 0 <= k < i ==> self.entries()[k].0@ != word@,
        {
            if self.entries[i].0 == *word {
                let cur = self.entries[i].1;
                let key = self.entries[i].0.clone();
                let s: u64 = if cur > u64::MAX - n {
                    u64::MAX
                } else {
                    cur + n
                };
                self.entries.set(i, (key, s));
                proof {
                    assert forall|x: Seq<char>| #[trigger] count_of(self.entries@, x) == if x
                        == word@ {
                        sat_add_int(count_of(old(self).entries@, x) as int, n as int)
                    } else {
                        count_of(old(self).entries@, x) as int
                    } by {
                        lemma_count_update(old(self).entries@, self.entries@, i as int, x, 0);
                        old(self).lemma_found_count(i as int, word@);
                    }
                    assert forall|i2: int| #![trigger self.entries@[i2]]
                        0 <= i2 < self.entries@.len() implies self.entries@[i2].0@ == if i2
                        < old(self).entries@.len() {
                        old(self).entries@[i2].0@
                    } else {
                        word@
                    } by {
                        if i2 != i as int {
                            assert(self.entries@[i2] == old(self).entries@[i2]);
                        }
                    }
                }
                return ;
            }
        }
        let key = word.clone();
        self.entries.push((key, n));
        proof {
            let p = self.entries@.last();
            assert forall|x: Seq<char>| #[trigger] count_of(self.entries@, x) == if x == word@ {
                sat_add_int(count_of(old(self).entries@, x) as int, n as int)
            } else {
                count_of(old(self).entries@, x) as int
            } by {
                assert(self.entries@ =~= old(self).entries@.push(p));
                lemma_count_push(old(self).entries@, p, x, 0);
                if x == word@ {
                    lemma_count_absent(old(self).entries@, x, 0);
                    lemma_absent_not_has(old(self).entries@, x, 0);
                }
            }
        }
    }

    /// Accumulate one occurrence of every word in the list: each word's
    /// count grows by exactly its number of occurrences, saturating.
    pub fn accumulate(&mut self, words: &Vec<String>)
        ensures
            forall|x: Seq<char>| #[trigger] final(self).spec_count(x) == sat_add_int(
                old(self).spec_count(x) as int,
                occurrences(words@, x),
            ),
            final(self).entries().len() <= old(self).entries().len() + words@.len(),
    {
        let m = words.len();
        for i in 0..m
            invariant
                m == words@.len(),
                self.entries().len() <= old(self).entries().len() + i,
                forall|x: Seq<char>| #[trigger] self.spec_count(x) == sat_add_int(
                    old(self).spec_count(x) as int,
                    occurrences(words@.subrange(0, i as int), x),
                ),
        {
            let ghost prev = *self;
            self.add(&words[i], 1);
            proof {
                assert forall|x: Seq<char>| #[trigger] self.spec_count(x) == sat_add_int(
                    old(self).spec_count(x) as int,
                    occurrences(words@.subrange(0, i + 1), x),
                ) by {
                    assert(words@.subrange(0, i + 1).drop_last() =~= words@.subrange(0, i as int));
                    assert(words@.subrange(0, i + 1).last() == words@[i as int]);
                }
            }
        }
        proof {
            assert(words@.subrange(0, words@.len() as int) =~= words@);
        }
    }
}

/// Updating position `i` (same word, new count) changes exactly that
/// word's count.
proof fn lemma_count_update(
    old_e: Seq<(String, u64)>,
    new_e: Seq<(String, u64)>,
    i: int,
    x: Seq<char>,
    j: int,
)
    requires
        0 <= j <= old_e.len(),
        0 <= i < old_e.len(),
        new_e.len() == old_e.len(),
        new_e[i].0@ == old_e[i].0@,
        forall|k: int| 0 <= k < old_e.len() && k != i ==> new_e[k] == old_e[k],
        forall|k: int| 0 <= k < i ==> old_e[k].0@ != old_e[i].0@,
    ensures
        count_from(new_e, x, j) == if x == old_e[i].0@ && j <= i {
            new_e[i].1
        } else {
            count_from(old_e, x, j)
        },
    decreases old_e.len() - j,
{
    if j < old_e.len() {
        lemma_count_update(old_e, new_e, i, x, j + 1);
    }
}

/// Appending an entry: counts of present words are unchanged; an absent
/// word takes the appended count if it is the appended word.
proof fn lemma_count_push(old_e: Seq<(String, u64)>, p: (String, u64), x: Seq<char>, j: int)
    requires
        0 <= j <= old_e.len(),
    ensures
        count_from(old_e.push(p), x, j) == if !has_from(old_e, x, j) && p.0@ == x {
            p.1 as int
        } else {
            count_from(old_e, x, j) as int
        },
    decreases old_e.len() - j,
{
    if j < old_e.len() {
        lemma_count_push(old_e, p, x, j + 1);
    } else {
        assert(count_from(old_e.push(p), x, j + 1) == 0);
        assert(count_from(old_e, x, j) == 0);
    }
}

/// Whether some entry at or after `j` spells `x`.
pub open spec fn has_from(entries: Seq<(String, u64)>, x: Seq<char>, j: int) -> bool
    decreases entries.len() - j,
{
    if j < 0 || j >= entries.len() {
        false
    } else if entries[j].0@ == x {
        true
    } else {
        has_from(entries, x, j + 1)
    }
}

/// A word no entry spells counts zero.
proof fn lemma_count_absent(e: Seq<(String, u64)>, x: Seq<char>, j: int)
    requires
        0 <= j,
        forall|k: int| 0 <= k < e.len() ==> e[k].0@ != x,
    ensures
        count_from(e, x, j) == 0,
    decreases e.len() - j,
{
    if j < e.len() {
        lemma_count_absent(e, x, j + 1);
    }
}

/// A word no entry spells is not found either.
proof fn lemma_absent_not_has(e: Seq<(String, u64)>, x: Seq<char>, j: int)
    requires
        0 <= j,
        forall|k: int| 0 <= k < e.len() ==> e[k].0@ != x,
    ensures
        !has_from(e, x, j),
    decreases e.len() - j,
{
    if j < e.len() {
        lemma_absent_not_has(e, x, j + 1);
    }
}

} // verus!
