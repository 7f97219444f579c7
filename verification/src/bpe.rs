//! The byte-pair-encoding model: one atom per character, then repeated
//! merging of the adjacent pair with the lowest merge rank (leftmost on
//! ties) until no adjacent pair is in the merge table, with a bounded,
//! no-eviction word cache in front of the merge loop.

use vstd::prelude::*;
use vstd::string::StrSliceExecFns;
use vstd::string::StringSliceAdditionalSpecFns;
use vstd::utf8::encode_utf8;
use crate::vocab::Vocabulary;
use crate::{byte_index, Token, TokenizerError};

verus! {

/// One working item of the merge loop: a token id covering the char span
/// `[start, end)` of the word.
pub type SpecItem = (u32, int, int);

/// Cache capacity a freshly loaded or trained model starts with.
pub const DEFAULT_CACHE_CAPACITY: usize = 10000;

/// A merge rule: the two ids on the left and the id their merge produces.
/// The rank of a rule is its position in the table.
pub type Merge = (u32, u32, u32);

/// The spec view of a working item vector.
pub open spec fn items_view(v: Seq<(u32, usize, usize)>) -> Seq<SpecItem> {
    v.map_values(|t: (u32, usize, usize)| (t.0, t.1 as int, t.2 as int))
}

/// Rank of the first merge rule for the pair `(a, b)` at or after `i`.
pub open spec fn rank_from(merges: Seq<Merge>, a: u32, b: u32, i: int) -> Option<int>
    decreases merges.len() - i,
{
    if i < 0 || i >= merges.len() {
        None
    } else if merges[i].0 == a && merges[i].1 == b {
        Some(i)
    } else {
        rank_from(merges, a, b, i + 1)
    }
}

/// Rank of the pair `(a, b)` in the merge table, if any.
pub open spec fn pair_rank_of(merges: Seq<Merge>, a: u32, b: u32) -> Option<int> {
    rank_from(merges, a, b, 0)
}

/// The best merge among pair positions `>= i`: lowest rank wins, the
/// leftmost position on rank ties. Returns `(position, rank)`.
pub open spec fn best_from(merges: Seq<Merge>, items: Seq<SpecItem>, i: int) -> Option<(int, int)>
    decreases items.len() - i,
{
    if i < 0 || i >= items.len() - 1 {
        None
    } else {
        let rest = best_from(merges, items, i + 1);
        match pair_rank_of(merges, items[i].0, items[i + 1].0) {
            None => rest,
            Some(r) => match rest {
                None => Some((i, r)),
                Some(pr) => if r <= pr.1 {
                    Some((i, r))
                } else {
                    Some(pr)
                },
            },
        }
    }
}

/// Replace the pair at `pos` by the merge result of rule `rank`.
pub open spec fn merge_at(merges: Seq<Merge>, items: Seq<SpecItem>, pos: int, rank: int) -> Seq<
    SpecItem,
> {
    items.subrange(0, pos) + seq![(merges[rank].2, items[pos].1, items[pos + 1].2)]
        + items.subrange(pos + 2, items.len() as int)
}

/// Run the merge loop to its fixpoint.
pub open spec fn merge_all(merges: Seq<Merge>, items: Seq<SpecItem>) -> Seq<SpecItem>
    decreases items.len(),
{
    match best_from(merges, items, 0) {
        None => items,
        Some(pr) => {
            if 0 <= pr.0 < items.len() - 1 {
                merge_all(merges, merge_at(merges, items, pr.0, pr.1))
            } else {
                items
            }
        },
    }
}

/// The id an atom (one character) is mapped to: its own id when the
/// character is a vocabulary entry, else the unknown id, else nothing.
pub open spec fn atom_of(vocab: Vocabulary, unk: Option<u32>, c: char) -> Option<u32> {
    if vocab.spec_contains(seq![c]) {
        Some(vocab.spec_id_of(seq![c]) as u32)
    } else {
        unk
    }
}

pub open spec fn atoms_ok(vocab: Vocabulary, unk: Option<u32>, w: Seq<char>) -> bool {
    forall|i: int| 0 <= i < w.len() ==> atom_of(vocab, unk, w[i]) is Some
}

pub open spec fn atom_items_of(vocab: Vocabulary, unk: Option<u32>, w: Seq<char>) -> Seq<SpecItem> {
    Seq::new(w.len(), |i: int| (atom_of(vocab, unk, w[i]).unwrap(), i, i + 1))
}

/// The spans of the items tile the char range `[0, n)` in order, each span
/// non-empty.
pub open spec fn spans_ok(items: Seq<SpecItem>, n: int) -> bool {
    &&& forall|k: int| #![trigger items[k]]
        0 <= k < items.len() ==> 0 <= items[k].1 < items[k].2 <= n
    &&& forall|k: int| #![trigger items[k]]
        0 <= k < items.len() - 1 ==> items[k].2 == items[k + 1].1
}

/// The BPE model.
#[derive(Debug, PartialEq)]
pub struct BPE {
    vocab: Vocabulary,
    merges: Vec<Merge>,
    unk: Option<u32>,
    cache_capacity: usize,
    cache: Vec<(String, Vec<Token>)>,
}

impl BPE {
    pub closed spec fn spec_vocab(self) -> Vocabulary {
        self.vocab
    }

    pub closed spec fn spec_merges(self) -> Seq<Merge> {
        self.merges@
    }

    pub closed spec fn spec_unk(self) -> Option<u32> {
        self.unk
    }

    pub closed spec fn spec_cache_capacity(self) -> usize {
        self.cache_capacity
    }

    pub closed spec fn spec_cache(self) -> Seq<(String, Vec<Token>)> {
        self.cache@
    }

    /// The persistent state tokenization depends on: everything but the
    /// cache and its capacity.
    pub open spec fn same_core(self, other: BPE) -> bool {
        &&& self.spec_vocab() == other.spec_vocab()
        &&& self.spec_merges() == other.spec_merges()
        &&& self.spec_unk() == other.spec_unk()
    }

    /// What tokenizing `w` yields: the merged item list, or `None` when an
    /// atom is unmapped and no unknown token is configured.
    pub open spec fn spec_result(self, w: Seq<char>) -> Option<Seq<SpecItem>> {
        if atoms_ok(self.spec_vocab(), self.spec_unk(), w) {
            Some(
                merge_all(
                    self.spec_merges(),
                    atom_items_of(self.spec_vocab(), self.spec_unk(), w),
                ),
            )
        } else {
            None
        }
    }

    /// The tokens spell out the item list exactly: ids as merged, values
    /// the vocabulary strings of the ids, offsets the byte extents of the
    /// covered char spans.
    pub open spec fn matches_items(self, w: Seq<char>, ts: Seq<Token>, items: Seq<SpecItem>) -> bool {
        &&& ts.len() == items.len()
        &&& forall|k: int| #![trigger ts[k]]
            0 <= k < items.len() ==> {
                &&& ts[k].id == items[k].0
                &&& items[k].0 < self.spec_vocab().strs().len()
                &&& ts[k].value@ == self.spec_vocab().strs()[items[k].0 as int]
                &&& ts[k].offsets.0 == byte_index(w, items[k].1)
                &&& ts[k].offsets.1 == byte_index(w, items[k].2)
            }
    }

    /// A full tokenization outcome for `w`: exactly the spec result, both
    /// on success and on failure.
    pub open spec fn spec_tokenize_post(
        self,
        w: Seq<char>,
        r: Result<Vec<Token>, TokenizerError>,
    ) -> bool {
        match r {
            Ok(ts) => self.spec_result(w) is Some && self.matches_items(
                w,
                ts@,
                self.spec_result(w).unwrap(),
            ),
            Err(e) => e == TokenizerError::UnknownSymbol && self.spec_result(w) is None,
        }
    }

    pub open spec fn wf(self) -> bool {
        &&& self.spec_vocab().wf()
        &&& match self.spec_unk() {
            Some(u) => u < self.spec_vocab().strs().len(),
            None => true,
        }
        &&& forall|k: int| #![trigger self.spec_merges()[k]]
            0 <= k < self.spec_merges().len() ==> {
                &&& self.spec_merges()[k].0 < self.spec_vocab().strs().len()
                &&& self.spec_merges()[k].1 < self.spec_vocab().strs().len()
                &&& self.spec_merges()[k].2 < self.spec_vocab().strs().len()
                &&& self.spec_vocab().strs()[self.spec_merges()[k].2 as int] == self.spec_vocab()
                    .strs()[self.spec_merges()[k].0 as int] + self.spec_vocab().strs()[self.spec_merges()[k].1 as int]
            }
        &&& forall|k: int| #![trigger self.spec_cache()[k]]
            0 <= k < self.spec_cache().len() ==> self.spec_tokenize_post(
                self.spec_cache()[k].0@,
                Ok(self.spec_cache()[k].1),
            )
    }

    pub fn new(vocab: Vocabulary, merges: Vec<Merge>, unk: Option<u32>, cache_capacity: usize) -> (m: BPE)
        requires
            vocab.wf(),
            match unk {
                Some(u) => u < vocab.strs().len(),
                None => true,
            },
            forall|k: int| #![trigger merges@[k]]
                0 <= k < merges@.len() ==> {
                    &&& merges@[k].0 < vocab.strs().len()
                    &&& merges@[k].1 < vocab.strs().len()
                    &&& merges@[k].2 < vocab.strs().len()
                    &&& vocab.strs()[merges@[k].2 as int] == vocab.strs()[merges@[k].0 as int]
                        + vocab.strs()[merges@[k].1 as int]
                },
        ensures
            m.wf(),
            m.spec_vocab() == vocab,
            m.spec_merges() == merges@,
            m.spec_unk() == unk,
            m.spec_cache_capacity() == cache_capacity,
            m.spec_cache() =~= Seq::<(String, Vec<Token>)>::empty(),
    {
        BPE { vocab, merges, unk, cache_capacity, cache: Vec::new() }
    }

    pub fn token_to_id(&self, token: &String) -> (r: Option<u32>)
        requires
            self.wf(),
        ensures
            match r {
                Some(id) => id < self.spec_vocab().strs().len() && self.spec_vocab().strs()[id as int]
                    == token@,
                None => !self.spec_vocab().spec_contains(token@),
            },
    {
        self.vocab.token_to_id(token)
    }

    pub fn id_to_token(&self, id: u32) -> (r: Option<String>)
        ensures
            match r {
                Some(s) => id < self.spec_vocab().strs().len() && s@ == self.spec_vocab().strs()[id as int],
                None => id >= self.spec_vocab().strs().len(),
            },
    {
        self.vocab.id_to_token(id)
    }

    pub fn get_vocab(&self) -> (r: Vec<(String, u32)>)
        requires
            self.wf(),
        ensures
            r@.len() == self.spec_vocab().strs().len(),
            forall|i: int| #![trigger r@[i]]
                0 <= i < r@.len() ==> r@[i].0@ == self.spec_vocab().strs()[i] && r@[i].1 == i,
    {
        self.vocab.to_pairs()
    }

    pub fn get_vocab_size(&self) -> (n: usize)
        ensures
            n == self.spec_vocab().strs().len(),
    {
        self.vocab.len()
    }

    pub fn get_unk(&self) -> (r: Option<u32>)
        ensures
            r == self.spec_unk(),
    {
        self.unk
    }

    pub fn get_cache_capacity(&self) -> (r: usize)
        ensures
            r == self.spec_cache_capacity(),
    {
        self.cache_capacity
    }

    /// A copy of the merge table in rank order.
    pub fn get_merges(&self) -> (r: Vec<Merge>)
        ensures
            r@ == self.spec_merges(),
    {
        let mut r: Vec<Merge> = Vec::new();
        let n = self.merges.len();
        for i in 0..n
            invariant
                n == self.merges@.len(),
                self.spec_merges() == self.merges@,
                r@.len() == i,
                forall|k: int| 0 <= k < i ==> r@[k] == self.merges@[k],
        {
            r.push(self.merges[i]);
        }
        proof {
            assert(r@ =~= self.spec_merges());
        }
        r
    }

    /// A copy of the vocabulary (for building another model from it).
    pub fn vocabulary(&self) -> (v: Vocabulary)
        requires
            self.wf(),
        ensures
            v.wf(),
            v.strs() == self.spec_vocab().strs(),
    {
        self.vocab.clone()
    }

    /// Look the pair `(a, b)` up in the merge table; the result is its rank
    /// and the id its merge produces.
    fn pair_rank(&self, a: u32, b: u32) -> (r: Option<(usize, u32)>)
        ensures
            match r {
                Some(p) => pair_rank_of(self.spec_merges(), a, b) == Some(p.0 as int) && p.0
                    < self.spec_merges().len() && self.spec_merges()[p.0 as int].2 == p.1,
                None => pair_rank_of(self.spec_merges(), a, b) is None,
            },
    {
        let n = self.merges.len();
        for k in 0..n
            invariant
                n == self.spec_merges().len(),
                rank_from(self.spec_merges(), a, b, 0) == rank_from(self.spec_merges(), a, b, k as int),
        {
            let m = self.merges[k];
            if m.0 == a && m.1 == b {
                return Some((k, m.2));
            }
        }
        None
    }

    /// Map each character of `w` to its atom id with the char span it
    /// covers; `UnknownSymbol` when a character is unmapped and no unknown
    /// token is configured.
    fn atom_items(&self, word: &String) -> (r: Result<Vec<(u32, usize, usize)>, TokenizerError>)
        requires
            self.wf(),
        ensures
            match r {
                Ok(items) => {
                    &&& atoms_ok(self.spec_vocab(), self.spec_unk(), word@)
                    &&& items_view(items@) =~= atom_items_of(
                        self.spec_vocab(),
                        self.spec_unk(),
                        word@,
                    )
                    &&& spans_ok(items_view(items@), word@.len() as int)
                    &&& forall|k: int| #![trigger items@[k]]
                        0 <= k < items@.len() ==> items@[k].0 < self.spec_vocab().strs().len()
                },
                Err(e) => {
                    &&& e == TokenizerError::UnknownSymbol
                    &&& !atoms_ok(self.spec_vocab(), self.spec_unk(), word@)
                },
            },
    {
        let ghost w = word@;
        let n = word.as_str().unicode_len();
        let mut items: Vec<(u32, usize, usize)> = Vec::new();
        for i in 0..n
            invariant
                self.wf(),
                w == word@,
                n == w.len(),
                items@.len() == i,
                forall|k: int| 0 <= k < i ==> atom_of(self.spec_vocab(), self.spec_unk(), w[k]) is Some,
                forall|k: int| #![trigger items@[k]]
                    0 <= k < i ==> {
                        &&& items@[k].0 == atom_of(self.spec_vocab(), self.spec_unk(), w[k]).unwrap()
                        &&& items@[k].0 < self.spec_vocab().strs().len()
                        &&& items@[k].1 == k
                        &&& items@[k].2 == k + 1
                    },
        {
            let sub = word.as_str().substring_char(i, i + 1).to_owned();
            proof {
                assert(sub@ =~= seq![w[i as int]]);
            }
            let id_opt = match self.vocab.token_to_id(&sub) {
                Some(id) => {
                    proof {
                        self.spec_vocab().lemma_id_unique(
                            id as int,
                            self.spec_vocab().spec_id_of(sub@),
                        );
                    }
                    Some(id)
                },
                None => self.unk,
            };
            match id_opt {
                Some(id) => {
                    items.push((id, i, i + 1));
                },
                None => {
                    proof {
                        assert(atom_of(self.spec_vocab(), self.spec_unk(), w[i as int]) is None);
                    }
                    return Err(TokenizerError::UnknownSymbol);
                },
            }
        }
        proof {
            assert(items_view(items@) =~= atom_items_of(self.spec_vocab(), self.spec_unk(), w));
        }
        Ok(items)
    }

    /// Run the merge loop: repeatedly merge the best adjacent pair until no
    /// adjacent pair is in the table.
    #[verifier::rlimit(60)]
    fn merge_items(&self, items: Vec<(u32, usize, usize)>, Ghost(n): Ghost<int>) -> (r: Vec<
        (u32, usize, usize),
    >)
        requires
            self.wf(),
            spans_ok(items_view(items@), n),
            forall|k: int| #![trigger items@[k]]
                0 <= k < items@.len() ==> items@[k].0 < self.spec_vocab().strs().len(),
        ensures
            items_view(r@) == merge_all(self.spec_merges(), items_view(items@)),
            spans_ok(items_view(r@), n),
            forall|k: int| #![trigger r@[k]]
                0 <= k < r@.len() ==> r@[k].0 < self.spec_vocab().strs().len(),
    {
        let ghost orig = items_view(items@);
        let mut items = items;
        loop
            invariant
                self.wf(),
                spans_ok(items_view(items@), n),
                forall|k: int| #![trigger items@[k]]
                    0 <= k < items@.len() ==> items@[k].0 < self.spec_vocab().strs().len(),
                merge_all(self.spec_merges(), items_view(items@)) == merge_all(
                    self.spec_merges(),
                    orig,
                ),
            ensures
                best_from(self.spec_merges(), items_view(items@), 0) is None,
            decreases items@.len(),
        {
            let len = items.len();
            if len < 2 {
                proof {
                    assert(best_from(self.spec_merges(), items_view(items@), 0) is None);
                }
                break;
            }
            let ghost view = items_view(items@);
            // Scan pair positions right to left so that the running best is
            // exactly `best_from` of the suffix already seen.
            let mut best: Option<(usize, usize, u32)> = None;
            let mut j = len - 1;
            while j > 0
                invariant
                    self.wf(),
                    view == items_view(items@),
                    len == items@.len() >= 2,
                    0 <= j <= len - 1,
                    match best {
                        None => best_from(self.spec_merges(), view, j as int) is None,
                        Some(t) => {
                            &&& best_from(self.spec_merges(), view, j as int) == Some(
                                (t.0 as int, t.1 as int),
                            )
                            &&& t.0 < len - 1
                            &&& t.1 < self.spec_merges().len()
                            &&& self.spec_merges()[t.1 as int].2 == t.2
                        },
                    },
                decreases j,
            {
                j = j - 1;
                let a = items[j].0;
                let b = items[j + 1].0;
                match self.pair_rank(a, b) {
                    Some(p) => {
                        let (r, nid) = p;
                        best = match best {
                            None => Some((j, r, nid)),
                            Some(t) => if r <= t.1 {
                                Some((j, r, nid))
                            } else {
                                Some(t)
                            },
                        };
                    },
                    None => {},
                }
            }
            match best {
                None => {
                    break;
                },
                Some(t) => {
                    let (pos, rank, nid) = t;
                    let left = items[pos];
                    let right = items[pos + 1];
                    items.set(pos, (nid, left.1, right.2));
                    items.remove(pos + 1);
                    proof {
                        let merged = merge_at(self.spec_merges(), view, pos as int, rank as int);
                        assert(items_view(items@) =~= merged);
                        assert(merge_all(self.spec_merges(), view) == merge_all(
                            self.spec_merges(),
                            merged,
                        ));
                        assert(spans_ok(items_view(items@), n));
                    }
                },
            }
        }
        items
    }

    /// Tokenize one word without touching the cache.
    fn tokenize_word(&self, word: &String) -> (r: Result<Vec<Token>, TokenizerError>)
        requires
            self.wf(),
        ensures
            self.spec_tokenize_post(word@, r),
    {
        let ghost w = word@;
        let items = match self.atom_items(word) {
            Ok(items) => items,
            Err(e) => {
                return Err(e);
            },
        };
        let merged = self.merge_items(items, Ghost(w.len() as int));
        let mut ts: Vec<Token> = Vec::new();
        let m = merged.len();
        for k in 0..m
            invariant
                self.wf(),
                w == word@,
                m == merged@.len(),
                items_view(merged@) == self.spec_result(w).unwrap(),
                self.spec_result(w) is Some,
                spans_ok(items_view(merged@), w.len() as int),
                forall|q: int| #![trigger merged@[q]]
                    0 <= q < merged@.len() ==> merged@[q].0 < self.spec_vocab().strs().len(),
                ts@.len() == k,
                forall|q: int| #![trigger ts@[q]]
                    0 <= q < k ==> {
                        &&& ts@[q].id == items_view(merged@)[q].0
                        &&& ts@[q].value@ == self.spec_vocab().strs()[items_view(merged@)[q].0 as int]
                        &&& ts@[q].offsets.0 == byte_index(w, items_view(merged@)[q].1)
                        &&& ts@[q].offsets.1 == byte_index(w, items_view(merged@)[q].2)
                    },
        {
            let it = merged[k];
            proof {
                let iv = items_view(merged@);
                assert(iv[k as int] == (it.0, it.1 as int, it.2 as int));
                assert(0 <= iv[k as int].1 < iv[k as int].2 <= w.len());
            }
            let value = match self.vocab.id_to_token(it.0) {
                Some(v) => v,
                None => {
                    proof {
                        assert(false);
                    }
                    String::new()
                },
            };
            let s0 = word.as_str().substring_char(0, it.1);
            let sb = s0.len();
            let e0 = word.as_str().substring_char(0, it.2);
            let eb = e0.len();
            proof {
                assert(s0.spec_bytes() == encode_utf8(w.subrange(0, it.1 as int)));
                assert(e0.spec_bytes() == encode_utf8(w.subrange(0, it.2 as int)));
            }
            ts.push(Token { id: it.0, value, offsets: (sb, eb) });
        }
        Ok(ts)
    }

    /// How the cache may change across one `tokenize` call: it stays as it
    /// was, or — only on success, and only while below capacity — gains
    /// exactly the one `(word, tokens)` entry at the end. A full cache
    /// silently drops the new entry; nothing is ever evicted.
    pub open spec fn cache_evolution(
        self,
        new_m: BPE,
        w: Seq<char>,
        r: Result<Vec<Token>, TokenizerError>,
    ) -> bool {
        ||| new_m.spec_cache() == self.spec_cache()
        ||| {
            &&& r is Ok
            &&& self.spec_cache().len() < self.spec_cache_capacity()
            &&& new_m.spec_cache() == self.spec_cache().push(new_m.spec_cache().last())
            &&& new_m.spec_cache().last().0@ == w
            &&& self.spec_tokenize_post(w, Ok(new_m.spec_cache().last().1))
        }
    }

    /// Tokenize one word. The cache is consulted first and populated after;
    /// a full cache silently drops new entries, and capacity `0` disables
    /// caching entirely. The result depends only on the vocabulary, the
    /// merge table and the unknown token — never on the cache state or its
    /// capacity.
    #[verifier::rlimit(60)]
    pub fn tokenize(&mut self, word: &String) -> (r: Result<Vec<Token>, TokenizerError>)
        requires
            old(self).wf(),
        ensures
            final(self).wf(),
            final(self).same_core(*old(self)),
            final(self).spec_cache_capacity() == old(self).spec_cache_capacity(),
            old(self).spec_tokenize_post(word@, r),
            old(self).cache_evolution(*final(self), word@, r),
    {
        let nc = self.cache.len();
        for k in 0..nc
            invariant
                self.wf(),
                nc == self.spec_cache().len(),
        {
            if self.cache[k].0 == *word {
                let ts = clone_tokens(&self.cache[k].1);
                proof {
                    assert(self.spec_tokenize_post(word@, Ok(self.spec_cache()[k as int].1)));
                    assert(ts@ =~= self.spec_cache()[k as int].1@);
                }
                return Ok(ts);
            }
        }
        let r = self.tokenize_word(word);
        match r {
            Ok(ts) => {
                if self.cache.len() < self.cache_capacity {
                    let copy = clone_tokens(&ts);
                    proof {
                        assert(copy@ =~= ts@);
                    }
                    let ghost prev = *self;
                    self.cache.push((word.clone(), copy));
                    proof {
                        assert(self.spec_cache() =~= prev.spec_cache().push(
                            self.spec_cache().last(),
                        ));
                        assert(self.spec_cache().last().0@ == word@);
                        assert(old(self).spec_tokenize_post(
                            word@,
                            Ok(self.spec_cache().last().1),
                        ));
                        assert forall|k: int| 0 <= k < self.spec_cache().len() implies
                            self.spec_tokenize_post(
                            self.spec_cache()[k].0@,
                            Ok(self.spec_cache()[k].1),
                        ) by {
                            assert(self.spec_result(self.spec_cache()[k].0@) == prev.spec_result(
                                self.spec_cache()[k].0@,
                            ));
                            if k < self.spec_cache().len() - 1 {
                                assert(self.spec_cache()[k] == prev.spec_cache()[k]);
                            }
                        }
                    }
                }
                Ok(ts)
            },
            Err(e) => Err(e),
        }
    }
}

/// Two token sequences that cannot be told apart: same length, ids,
/// token strings and byte extents, position for position.
pub open spec fn tokens_alike(a: Seq<Token>, b: Seq<Token>) -> bool {
    &&& a.len() == b.len()
    &&& forall|k: int| #![trigger a[k], b[k]]
        0 <= k < a.len() ==> a[k].id == b[k].id && a[k].value@ == b[k].value@ && a[k].offsets
            == b[k].offsets
}

/// BPE determinism: any two tokenizations of the same word by models with
/// the same persistent core — cache state and cache capacity free to
/// differ, warm or cold — succeed or fail together, fail with the same
/// error, and on success return indistinguishable token sequences.
pub proof fn lemma_bpe_deterministic(
    m1: BPE,
    m2: BPE,
    w: Seq<char>,
    r1: Result<Vec<Token>, TokenizerError>,
    r2: Result<Vec<Token>, TokenizerError>,
)
    requires
        m1.same_core(m2),
        m1.spec_tokenize_post(w, r1),
        m2.spec_tokenize_post(w, r2),
    ensures
        r1 is Ok <==> r2 is Ok,
        r1 is Err ==> r1 == r2,
        r1 is Ok ==> tokens_alike(r1.unwrap()@, r2.unwrap()@),
{
    assert(m1.spec_result(w) == m2.spec_result(w));
    if r1 is Ok {
        let a = r1.unwrap()@;
        let b = r2.unwrap()@;
        let items = m1.spec_result(w).unwrap();
        assert forall|k: int| 0 <= k < a.len() implies #[trigger] a[k].id == #[trigger] b[k].id
            && a[k].value@ == b[k].value@ && a[k].offsets == b[k].offsets by {
            assert(a[k].id == items[k].0);
            assert(b[k].id == items[k].0);
        }
    }
}

/// A one-character vocabulary entry tokenizes to exactly one item
/// carrying its own id: its single atom is the entry itself, and no
/// adjacent pair exists to merge.
pub proof fn lemma_single_char_identity(m: BPE, c: char)
    requires
        m.wf(),
        m.spec_vocab().spec_contains(seq![c]),
    ensures
        m.spec_result(seq![c]) == Some(
            seq![(m.spec_vocab().spec_id_of(seq![c]) as u32, 0int, 1int)],
        ),
{
    let w = seq![c];
    assert(w[0] == c);
    assert(atom_of(m.spec_vocab(), m.spec_unk(), c) is Some);
    let items = atom_items_of(m.spec_vocab(), m.spec_unk(), w);
    assert(items =~= seq![(m.spec_vocab().spec_id_of(seq![c]) as u32, 0int, 1int)]);
    assert(best_from(m.spec_merges(), items, 0) is None);
    assert(merge_all(m.spec_merges(), items) == items);
}

/// Copy a token vector element by element.
fn clone_tokens(v: &Vec<Token>) -> (r: Vec<Token>)
    ensures
        r@ =~= v@,
{
    let mut r: Vec<Token> = Vec::new();
    let n = v.len();
    for i in 0..n
        invariant
            n == v@.len(),
            r@.len() == i,
            forall|k: int| 0 <= k < i ==> r@[k] == v@[k],
    {
        r.push(v[i].clone());
    }
    r
}

} // verus!
