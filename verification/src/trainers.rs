//! The per-model trainers: each consumes a word-frequency corpus and
//! produces a populated model of its own kind, reserving the configured
//! special tokens at the first identifiers.

use vstd::prelude::*;
use vstd::string::StrSliceExecFns;
use vstd::string::StringExecFns;
use crate::bpe::{BPE, Merge, DEFAULT_CACHE_CAPACITY};
use crate::unigram::{Unigram, MIN_PIECE_SCORE};
use crate::vocab::Vocabulary;
use crate::wordcounts::{lemma_occurrences_nonneg, lemma_total_occurrences_nonneg, sat_add_int, total_occurrences, WordCounts};
use crate::wordlevel::WordLevel;
use crate::wordpiece::WordPiece;
use crate::{AddedToken, TokenizerError};

verus! {

/// Special tokens must be pairwise distinct to get stable identifiers.
pub open spec fn distinct_specials(s: Seq<AddedToken>) -> bool {
    forall|i: int, j: int| 0 <= i < j < s.len() ==> s[i].content@ != s[j].content@
}

/// The special tokens hold the first identifiers of the vocabulary.
pub open spec fn specials_prefix(s: Seq<AddedToken>, v: Vocabulary) -> bool {
    &&& s.len() <= v.strs().len()
    &&& forall|k: int| 0 <= k < s.len() ==> v.strs()[k] == s[k].content@
}

/// Exactly what `feed` guarantees, over the counts alone. On success there
/// is one word list per line, each a result the caller's line-to-words
/// function admits for its line, and every word's count grows by exactly
/// its summed occurrences over those lists (saturating). On failure the
/// counts are untouched and the error is one a line's own processing
/// produced — never fabricated.
pub open spec fn feed_post<F: Fn(&String) -> Result<Vec<String>, TokenizerError>>(
    process: F,
    lines: Seq<String>,
    old_w: WordCounts,
    new_w: WordCounts,
    r: Result<(), TokenizerError>,
) -> bool {
    match r {
        Ok(_) => exists|ws: Seq<Vec<String>>|
            #![trigger ws.len()]
            {
                &&& ws.len() == lines.len()
                &&& forall|i: int|
                    0 <= i < lines.len() ==> call_ensures(
                        process,
                        (&lines[i],),
                        Result::<Vec<String>, TokenizerError>::Ok(#[trigger] ws[i]),
                    )
                &&& forall|x: Seq<char>| #[trigger] new_w.spec_count(x) == sat_add_int(
                    old_w.spec_count(x) as int,
                    total_occurrences(ws, x),
                )
            },
        Err(e) => {
            &&& new_w == old_w
            &&& exists|i: int|
                0 <= i < lines.len() && call_ensures(
                    process,
                    (&#[trigger] lines[i],),
                    Result::<Vec<String>, TokenizerError>::Err(e),
                )
        },
    }
}

/// Test whether the special tokens are pairwise distinct.
fn check_distinct(specials: &Vec<AddedToken>) -> (b: bool)
    ensures
        b == distinct_specials(specials@),
{
    let n = specials.len();
    for i in 0..n
        invariant
            n == specials@.len(),
            forall|p: int, q: int| 0 <= p < q < specials@.len() && p < i ==> specials@[p].content@
                != specials@[q].content@,
    {
        for j in (i + 1)..n
            invariant
                n == specials@.len(),
                i < n,
                forall|p: int, q: int| 0 <= p < q < specials@.len() && p < i ==> specials@[p].content@
                    != specials@[q].content@,
                forall|q: int| i < q < j ==> specials@[i as int].content@ != specials@[q].content@,
        {
            if specials[i].content == specials[j].content {
                return false;
            }
        }
    }
    true
}

/// Build a vocabulary whose first entries are the special tokens.
fn build_special_vocab(specials: &Vec<AddedToken>) -> (v: Vocabulary)
    requires
        distinct_specials(specials@),
        specials@.len() <= u32::MAX,
    ensures
        v.wf(),
        v.strs().len() == specials@.len(),
        specials_prefix(specials@, v),
{
    let mut v = Vocabulary::new();
    let n = specials.len();
    for i in 0..n
        invariant
            distinct_specials(specials@),
            n == specials@.len() <= u32::MAX,
            v.wf(),
            v.strs().len() == i,
            forall|k: int| 0 <= k < i ==> v.strs()[k] == specials@[k].content@,
    {
        v.add(specials[i].content.clone());
    }
    v
}

/// Clone the special-token list, as the value `train` hands back.
fn clone_specials(specials: &Vec<AddedToken>) -> (r: Vec<AddedToken>)
    ensures
        r@ =~= specials@,
{
    let mut r: Vec<AddedToken> = Vec::new();
    let n = specials.len();
    for i in 0..n
        invariant
            n == specials@.len(),
            r@.len() == i,
            forall|k: int| 0 <= k < i ==> r@[k] == specials@[k],
    {
        r.push(specials[i].clone());
    }
    r
}

/// Every character of every counted word stands in the vocabulary as a
/// one-character entry — except when the `u32` id space filled up first.
pub open spec fn alphabet_covered(entries: Seq<(String, u64)>, strs: Seq<Seq<char>>) -> bool {
    forall|j: int, c: int|
        0 <= j < entries.len() && 0 <= c < entries[j].0@.len() ==> strs.contains(
            seq![#[trigger] entries[j].0@[c]],
        ) || strs.len() >= u32::MAX
}

/// Coverage survives appending further vocabulary entries.
proof fn lemma_covered_monotone(entries: Seq<(String, u64)>, s1: Seq<Seq<char>>, s2: Seq<Seq<char>>)
    requires
        alphabet_covered(entries, s1),
        s1.len() <= s2.len(),
        forall|k: int| 0 <= k < s1.len() ==> s2[k] == s1[k],
    ensures
        alphabet_covered(entries, s2),
{
    assert forall|j: int, c: int|
        0 <= j < entries.len() && 0 <= c < entries[j].0@.len() implies s2.contains(
        seq![#[trigger] entries[j].0@[c]],
    ) || s2.len() >= u32::MAX by {
        if s1.len() < u32::MAX {
            if s1.contains(seq![entries[j].0@[c]]) {
                let w = choose|w: int| 0 <= w < s1.len() && s1[w] == seq![entries[j].0@[c]];
                assert(s2[w] == seq![entries[j].0@[c]]);
            }
        }
    }
}

/// Add every character of every counted word to the vocabulary as a
/// one-character entry (while ids remain available).
fn add_alphabet(v: &mut Vocabulary, words: &WordCounts)
    requires
        old(v).wf(),
    ensures
        final(v).wf(),
        old(v).strs().len() <= final(v).strs().len(),
        forall|k: int| 0 <= k < old(v).strs().len() ==> final(v).strs()[k] == old(v).strs()[k],
        alphabet_covered(words.entries(), final(v).strs()),
{
    let n = words.len();
    for i in 0..n
        invariant
            n == words.entries().len(),
            v.wf(),
            old(v).strs().len() <= v.strs().len(),
            forall|k: int| 0 <= k < old(v).strs().len() ==> v.strs()[k] == old(v).strs()[k],
            forall|j: int, c: int|
                0 <= j < i && 0 <= c < words.entries()[j].0@.len() ==> v.strs().contains(
                    seq![#[trigger] words.entries()[j].0@[c]],
                ) || v.strs().len() >= u32::MAX,
    {
        let (word, _) = words.entry(i);
        let m = word.as_str().unicode_len();
        for c in 0..m
            invariant
                m == word@.len(),
                i < n,
                n == words.entries().len(),
                word@ == words.entries()[i as int].0@,
                v.wf(),
                old(v).strs().len() <= v.strs().len(),
                forall|k: int| 0 <= k < old(v).strs().len() ==> v.strs()[k] == old(v).strs()[k],
                forall|j: int, c2: int|
                    0 <= j < i && 0 <= c2 < words.entries()[j].0@.len() ==> v.strs().contains(
                        seq![#[trigger] words.entries()[j].0@[c2]],
                    ) || v.strs().len() >= u32::MAX,
                forall|c2: int|
                    0 <= c2 < c ==> v.strs().contains(seq![#[trigger] word@[c2]]) || v.strs().len()
                        >= u32::MAX,
        {
            let ghost prev = v.strs();
            if v.len() < u32::MAX as usize {
                let piece = word.as_str().substring_char(c, c + 1).to_owned();
                proof {
                    assert(piece@ =~= seq![word@[c as int]]);
                }
                v.add(piece);
                proof {
                    assert(v.strs().contains(seq![word@[c as int]])) by {
                        assert(v.spec_contains(piece@));
                        let w = choose|w: int|
                            0 <= w < v.strs().len() && v.strs()[w] == piece@;
                        assert(v.strs()[w] == seq![word@[c as int]]);
                    }
                    assert forall|x: Seq<char>| prev.contains(x) implies v.strs().contains(x) by {
                        let w = choose|w: int| 0 <= w < prev.len() && prev[w] == x;
                        assert(v.strs()[w] == x);
                    }
                }
            }
        }
    }
    proof {
        assert(alphabet_covered(words.entries(), v.strs()));
    }
}

/// The byte-pair-encoding trainer: iterated most-frequent-pair merging.
#[derive(Debug)]
pub struct BpeTrainer {
    pub vocab_size: usize,
    pub min_frequency: u64,
    pub show_progress: bool,
    pub special_tokens: Vec<AddedToken>,
    pub words: WordCounts,
}

impl Default for BpeTrainer {
    fn default() -> (t: BpeTrainer)
        ensures
            t.vocab_size == 30000,
            t.min_frequency == 0,
            t.show_progress == true,
            t.special_tokens@.len() == 0,
    {
        BpeTrainer {
            vocab_size: 30000,
            min_frequency: 0,
            show_progress: true,
            special_tokens: Vec::new(),
            words: WordCounts::new(),
        }
    }
}

impl BpeTrainer {
    pub fn new(vocab_size: usize, min_frequency: u64, special_tokens: Vec<AddedToken>) -> (t: BpeTrainer)
        ensures
            t.vocab_size == vocab_size,
            t.min_frequency == min_frequency,
            t.special_tokens == special_tokens,
            t.show_progress == false,
    {
        BpeTrainer {
            vocab_size,
            min_frequency,
            show_progress: false,
            special_tokens,
            words: WordCounts::new(),
        }
    }

    pub fn should_show_progress(&self) -> (b: bool)
        ensures
            b == self.show_progress,
    {
        self.show_progress
    }

    /// Feed corpus lines through the caller's line-to-words function and
    /// accumulate the word counts; a failing line fails the whole feed and
    /// leaves the trainer unchanged.
    pub fn feed<F: Fn(&String) -> Result<Vec<String>, TokenizerError>>(
        &mut self,
        lines: &Vec<String>,
        process: &F,
    ) -> (r: Result<(), TokenizerError>)
        requires
            forall|l: &String| call_requires(*process, (l,)),
        ensures
            feed_post(*process, lines@, old(self).words, final(self).words, r),
            r is Err ==> *final(self) == *old(self),
            final(self).vocab_size == old(self).vocab_size,
            final(self).show_progress == old(self).show_progress,
            final(self).special_tokens == old(self).special_tokens,
    {
        let mut collected: Vec<Vec<String>> = Vec::new();
        let n = lines.len();
        for i in 0..n
            invariant
                n == lines@.len(),
                *self == *old(self),
                forall|l: &String| call_requires(*process, (l,)),
                collected@.len() == i,
                forall|k: int| #![trigger collected@[k]]
                    0 <= k < i ==> call_ensures(
                        *process,
                        (&lines@[k],),
                        Result::<Vec<String>, TokenizerError>::Ok(collected@[k]),
                    ),
        {
            match process(&lines[i]) {
                Ok(ws) => {
                    collected.push(ws);
                },
                Err(e) => {
                    return Err(e);
                },
            }
        }
        let ghost ws = collected@;
        let m = collected.len();
        for j in 0..m
            invariant
                m == collected@.len(),
                ws == collected@,
                self.vocab_size == old(self).vocab_size,
                self.show_progress == old(self).show_progress,
                self.special_tokens == old(self).special_tokens,
                forall|x: Seq<char>| #[trigger] self.words.spec_count(x) == sat_add_int(
                    old(self).words.spec_count(x) as int,
                    total_occurrences(ws.subrange(0, j as int), x),
                ),
        {
            self.words.accumulate(&collected[j]);
            proof {
                assert forall|x: Seq<char>| #[trigger] self.words.spec_count(x) == sat_add_int(
                    old(self).words.spec_count(x) as int,
                    total_occurrences(ws.subrange(0, j + 1), x),
                ) by {
                    assert(ws.subrange(0, j + 1).drop_last() =~= ws.subrange(0, j as int));
                    assert(ws.subrange(0, j + 1).last() == ws[j as int]);
                    lemma_total_occurrences_nonneg(ws.subrange(0, j as int), x);
                    lemma_occurrences_nonneg(ws[j as int]@, x);
                }
            }
        }
        proof {
            assert(ws.subrange(0, ws.len() as int) =~= ws);
            assert(ws.len() == lines@.len());
        }
        Ok(())
    }

    /// Exactly what `train` guarantees: a well-formed model whose first
    /// ids are the special tokens, whose vocabulary covers every character
    /// of the counted words, starting with an empty cache — or
    /// `InvalidConfiguration` on duplicate special tokens, the model
    /// untouched.
    pub open spec fn train_post(
        self,
        old_m: BPE,
        new_m: BPE,
        r: Result<Vec<AddedToken>, TokenizerError>,
    ) -> bool {
        match r {
            Ok(added) => {
                &&& distinct_specials(self.special_tokens@)
                &&& new_m.wf()
                &&& specials_prefix(self.special_tokens@, new_m.spec_vocab())
                &&& alphabet_covered(self.words.entries(), new_m.spec_vocab().strs())
                &&& new_m.spec_unk() is None
                &&& new_m.spec_cache().len() == 0
                &&& new_m.spec_cache_capacity() == DEFAULT_CACHE_CAPACITY
                &&& added@ == self.special_tokens@
            },
            Err(e) => {
                &&& e == TokenizerError::InvalidConfiguration
                &&& (!distinct_specials(self.special_tokens@) || self.special_tokens@.len()
                    > u32::MAX)
                &&& new_m == old_m
            },
        }
    }

    /// Train a BPE model: one symbol per observed character, then repeated
    /// merging of the most frequent adjacent pair (lowest ids on ties),
    /// recording each merge, until the vocabulary reaches the target size
    /// or no pair is frequent enough. Special tokens take the first ids.
    pub fn train(&self, model: &mut BPE) -> (r: Result<Vec<AddedToken>, TokenizerError>)
        ensures
            self.train_post(*old(model), *final(model), r),
    {
        if !check_distinct(&self.special_tokens) {
            return Err(TokenizerError::InvalidConfiguration);
        }
        if self.special_tokens.len() > u32::MAX as usize {
            return Err(TokenizerError::InvalidConfiguration);
        }
        let mut vocab = build_special_vocab(&self.special_tokens);
        add_alphabet(&mut vocab, &self.words);

        // encode each counted word as a symbol sequence
        let mut seqs: Vec<(Vec<u32>, u64)> = Vec::new();
        let nw = self.words.len();
        for i in 0..nw
            invariant
                nw == self.words.entries().len(),
                vocab.wf(),
                specials_prefix(self.special_tokens@, vocab),
                forall|k: int, q: int| #![trigger seqs@[k].0@[q]]
                    0 <= k < seqs@.len() && 0 <= q < seqs@[k].0@.len() ==> seqs@[k].0@[q]
                        < vocab.strs().len(),
        {
            let (word, count) = self.words.entry(i);
            let m = word.as_str().unicode_len();
            let mut ids: Vec<u32> = Vec::new();
            let mut complete = true;
            for c in 0..m
                invariant
                    m == word@.len(),
                    vocab.wf(),
                    specials_prefix(self.special_tokens@, vocab),
                    forall|q: int| 0 <= q < ids@.len() ==> ids@[q] < vocab.strs().len(),
            {
                let piece = word.as_str().substring_char(c, c + 1).to_owned();
                match vocab.token_to_id(&piece) {
                    Some(id) => {
                        ids.push(id);
                    },
                    None => {
                        complete = false;
                    },
                }
            }
            if complete && count > 0 {
                seqs.push((ids, count));
            }
        }

        // iterated pair merging
        let mut merges: Vec<Merge> = Vec::new();
        let target = self.vocab_size;
        let threshold: u64 = if self.min_frequency > 1 {
            self.min_frequency
        } else {
            1
        };
        let mut round: usize = 0;
        while round < target
            invariant
                vocab.wf(),
                specials_prefix(self.special_tokens@, vocab),
                alphabet_covered(self.words.entries(), vocab.strs()),
                forall|k: int, q: int| #![trigger seqs@[k].0@[q]]
                    0 <= k < seqs@.len() && 0 <= q < seqs@[k].0@.len() ==> seqs@[k].0@[q]
                        < vocab.strs().len(),
                forall|k: int| #![trigger merges@[k]]
                    0 <= k < merges@.len() ==> {
                        &&& merges@[k].0 < vocab.strs().len()
                        &&& merges@[k].1 < vocab.strs().len()
                        &&& merges@[k].2 < vocab.strs().len()
                        &&& vocab.strs()[merges@[k].2 as int] == vocab.strs()[merges@[k].0 as int]
                            + vocab.strs()[merges@[k].1 as int]
                    },
            decreases target - round,
        {
            round = round + 1;
            if vocab.len() >= target || vocab.len() >= u32::MAX as usize {
                break;
            }
            // count adjacent pairs over all words, weighted by frequency
            let vlen = vocab.len();
            let mut pairs: Vec<((u32, u32), u64)> = Vec::new();
            let ns = seqs.len();
            for k in 0..ns
                invariant
                    ns == seqs@.len(),
                    vocab.wf(),
                    vlen == vocab.strs().len(),
                    forall|k2: int, q: int| #![trigger seqs@[k2].0@[q]]
                        0 <= k2 < seqs@.len() && 0 <= q < seqs@[k2].0@.len() ==> seqs@[k2].0@[q]
                            < vocab.strs().len(),
                    forall|p: int| #![trigger pairs@[p]]
                        0 <= p < pairs@.len() ==> pairs@[p].0.0 < vocab.strs().len() && pairs@[p].0.1
                            < vocab.strs().len(),
            {
                let count = seqs[k].1;
                let len = seqs[k].0.len();
                if len >= 1 {
                    for q in 0..(len - 1)
                        invariant
                            ns == seqs@.len(),
                            k < ns,
                            1 <= len == seqs@[k as int].0@.len(),
                            vocab.wf(),
                            vlen == vocab.strs().len(),
                            forall|k2: int, q2: int| #![trigger seqs@[k2].0@[q2]]
                                0 <= k2 < seqs@.len() && 0 <= q2 < seqs@[k2].0@.len() ==> seqs@[k2].0@[q2]
                                    < vocab.strs().len(),
                            forall|p: int| #![trigger pairs@[p]]
                                0 <= p < pairs@.len() ==> pairs@[p].0.0 < vocab.strs().len()
                                    && pairs@[p].0.1 < vocab.strs().len(),
                    {
                        let a = seqs[k].0[q];
                        let b = seqs[k].0[q + 1];
                        bump_pair(&mut pairs, a, b, count, vlen);
                    }
                }
            }
            // select the most frequent pair, lowest ids on ties
            let mut best: Option<((u32, u32), u64)> = None;
            let np = pairs.len();
            for p in 0..np
                invariant
                    np == pairs@.len(),
                    vocab.wf(),
                    forall|p2: int| #![trigger pairs@[p2]]
                        0 <= p2 < pairs@.len() ==> pairs@[p2].0.0 < vocab.strs().len()
                            && pairs@[p2].0.1 < vocab.strs().len(),
                    match best {
                        Some(b) => b.0.0 < vocab.strs().len() && b.0.1 < vocab.strs().len(),
                        None => true,
                    },
            {
                let cand = pairs[p];
                let replace = match best {
                    None => true,
                    Some(b) => cand.1 > b.1 || (cand.1 == b.1 && (cand.0.0 < b.0.0 || (cand.0.0
                        == b.0.0 && cand.0.1 < b.0.1))),
                };
                if replace {
                    best = Some(cand);
                }
            }
            let (pair, pcount) = match best {
                Some(b) => b,
                None => {
                    break;
                },
            };
            if pcount < threshold {
                break;
            }
            // record the merge and rewrite every word
            let left = match vocab.id_to_token(pair.0) {
                Some(s) => s,
                None => {
                    proof {
                        assert(false);
                    }
                    String::new()
                },
            };
            let right = match vocab.id_to_token(pair.1) {
                Some(s) => s,
                None => {
                    proof {
                        assert(false);
                    }
                    String::new()
                },
            };
            let merged = left.concat(right.as_str());
            let ghost prevs = vocab.strs();
            let nid = vocab.add(merged);
            proof {
                lemma_covered_monotone(self.words.entries(), prevs, vocab.strs());
            }
            merges.push((pair.0, pair.1, nid));
            let ns2 = seqs.len();
            for k in 0..ns2
                invariant
                    ns2 == seqs@.len(),
                    vocab.wf(),
                    pair.0 < vocab.strs().len(),
                    pair.1 < vocab.strs().len(),
                    nid < vocab.strs().len(),
                    forall|k2: int, q: int| #![trigger seqs@[k2].0@[q]]
                        0 <= k2 < seqs@.len() && 0 <= q < seqs@[k2].0@.len() ==> seqs@[k2].0@[q]
                            < vocab.strs().len(),
            {
                let (ids, count) = {
                    let e = &seqs[k];
                    (&e.0, e.1)
                };
                let mut out: Vec<u32> = Vec::new();
                let len = ids.len();
                let mut q: usize = 0;
                while q < len
                    invariant
                        len == ids@.len(),
                        vocab.wf(),
                        nid < vocab.strs().len(),
                        forall|x: int| 0 <= x < ids@.len() ==> ids@[x] < vocab.strs().len(),
                        forall|x: int| 0 <= x < out@.len() ==> out@[x] < vocab.strs().len(),
                    decreases len - q,
                {
                    if q + 1 < len && ids[q] == pair.0 && ids[q + 1] == pair.1 {
                        out.push(nid);
                        q = q + 2;
                    } else {
                        out.push(ids[q]);
                        q = q + 1;
                    }
                }
                seqs.set(k, (out, count));
            }
        }

        *model = BPE::new(vocab, merges, None, DEFAULT_CACHE_CAPACITY);
        let added = clone_specials(&self.special_tokens);
        proof {
            assert(added@ == self.special_tokens@);
        }
        Ok(added)
    }
}

/// The strings of the special tokens, in order.
pub open spec fn specials_strs(s: Seq<AddedToken>) -> Seq<Seq<char>> {
    Seq::new(s.len(), |k: int| s[k].content@)
}

/// The effective frequency threshold: the configured minimum, but at
/// least one.
pub open spec fn wl_threshold(min_frequency: u64) -> u64 {
    if min_frequency > 1 {
        min_frequency
    } else {
        1
    }
}

/// The eligible counted word with the highest count among positions at or
/// after `i`, the earliest position winning ties. Eligible: counted at or
/// above the threshold and not yet in the vocabulary.
pub open spec fn wl_best(
    entries: Seq<(String, u64)>,
    strs: Seq<Seq<char>>,
    threshold: u64,
    i: int,
) -> Option<(int, u64)>
    decreases entries.len() - i,
{
    if i < 0 || i >= entries.len() {
        None
    } else {
        let rest = wl_best(entries, strs, threshold, i + 1);
        if entries[i].1 >= threshold && !strs.contains(entries[i].0@) {
            match rest {
                None => Some((i, entries[i].1)),
                Some(pr) => if entries[i].1 >= pr.1 {
                    Some((i, entries[i].1))
                } else {
                    Some(pr)
                },
            }
        } else {
            rest
        }
    }
}

/// The vocabulary word-level training builds: starting from the special
/// tokens, repeatedly append the most frequent eligible counted word
/// (earliest wins ties) until the target size is reached, the id space is
/// full, or no word qualifies.
pub open spec fn wl_built(
    entries: Seq<(String, u64)>,
    strs: Seq<Seq<char>>,
    threshold: u64,
    target: int,
    fuel: nat,
) -> Seq<Seq<char>>
    decreases fuel,
{
    if fuel == 0 || strs.len() >= target || strs.len() >= u32::MAX {
        strs
    } else {
        match wl_best(entries, strs, threshold, 0) {
            None => strs,
            Some(pr) => wl_built(
                entries,
                strs.push(entries[pr.0].0@),
                threshold,
                target,
                (fuel - 1) as nat,
            ),
        }
    }
}

/// The word-level trainer: the most frequent whole words, up to the target
/// size, above the frequency threshold.
#[derive(Debug)]
pub struct WordLevelTrainer {
    pub vocab_size: usize,
    pub min_frequency: u64,
    pub show_progress: bool,
    pub special_tokens: Vec<AddedToken>,
    pub words: WordCounts,
}

impl Default for WordLevelTrainer {
    fn default() -> (t: WordLevelTrainer)
        ensures
            t.vocab_size == 30000,
            t.min_frequency == 0,
            t.special_tokens@.len() == 0,
    {
        WordLevelTrainer {
            vocab_size: 30000,
            min_frequency: 0,
            show_progress: true,
            special_tokens: Vec::new(),
            words: WordCounts::new(),
        }
    }
}

impl WordLevelTrainer {
    pub fn should_show_progress(&self) -> (b: bool)
        ensures
            b == self.show_progress,
    {
        self.show_progress
    }

    pub fn feed<F: Fn(&String) -> Result<Vec<String>, TokenizerError>>(
        &mut self,
        lines: &Vec<String>,
        process: &F,
    ) -> (r: Result<(), TokenizerError>)
        requires
            forall|l: &String| call_requires(*process, (l,)),
        ensures
            feed_post(*process, lines@, old(self).words, final(self).words, r),
            r is Err ==> *final(self) == *old(self),
            final(self).vocab_size == old(self).vocab_size,
            final(self).show_progress == old(self).show_progress,
            final(self).special_tokens == old(self).special_tokens,
    {
        let mut collected: Vec<Vec<String>> = Vec::new();
        let n = lines.len();
        for i in 0..n
            invariant
                n == lines@.len(),
                *self == *old(self),
                forall|l: &String| call_requires(*process, (l,)),
                collected@.len() == i,
                forall|k: int| #![trigger collected@[k]]
                    0 <= k < i ==> call_ensures(
                        *process,
                        (&lines@[k],),
                        Result::<Vec<String>, TokenizerError>::Ok(collected@[k]),
                    ),
        {
            match process(&lines[i]) {
                Ok(ws) => {
                    collected.push(ws);
                },
                Err(e) => {
                    return Err(e);
                },
            }
        }
        let ghost ws = collected@;
        let m = collected.len();
        for j in 0..m
            invariant
                m == collected@.len(),
                ws == collected@,
                self.vocab_size == old(self).vocab_size,
                self.show_progress == old(self).show_progress,
                self.special_tokens == old(self).special_tokens,
                forall|x: Seq<char>| #[trigger] self.words.spec_count(x) == sat_add_int(
                    old(self).words.spec_count(x) as int,
                    total_occurrences(ws.subrange(0, j as int), x),
                ),
        {
            self.words.accumulate(&collected[j]);
            proof {
                assert forall|x: Seq<char>| #[trigger] self.words.spec_count(x) == sat_add_int(
                    old(self).words.spec_count(x) as int,
                    total_occurrences(ws.subrange(0, j + 1), x),
                ) by {
                    assert(ws.subrange(0, j + 1).drop_last() =~= ws.subrange(0, j as int));
                    assert(ws.subrange(0, j + 1).last() == ws[j as int]);
                    lemma_total_occurrences_nonneg(ws.subrange(0, j as int), x);
                    lemma_occurrences_nonneg(ws[j as int]@, x);
                }
            }
        }
        proof {
            assert(ws.subrange(0, ws.len() as int) =~= ws);
            assert(ws.len() == lines@.len());
        }
        Ok(())
    }

    /// Exactly what `train` guarantees: the built vocabulary is precisely
    /// the selection process run on the counted words — specials first,
    /// then the most frequent words at or above the threshold.
    pub open spec fn train_post(
        self,
        old_m: WordLevel,
        new_m: WordLevel,
        r: Result<Vec<AddedToken>, TokenizerError>,
    ) -> bool {
        match r {
            Ok(added) => {
                &&& distinct_specials(self.special_tokens@)
                &&& new_m.wf()
                &&& specials_prefix(self.special_tokens@, new_m.spec_vocab())
                &&& new_m.spec_vocab().strs() == wl_built(
                    self.words.entries(),
                    specials_strs(self.special_tokens@),
                    wl_threshold(self.min_frequency),
                    self.vocab_size as int,
                    self.vocab_size as nat,
                )
                &&& new_m.spec_unk() is None
                &&& added@ == self.special_tokens@
            },
            Err(e) => {
                &&& e == TokenizerError::InvalidConfiguration
                &&& (!distinct_specials(self.special_tokens@) || self.special_tokens@.len()
                    > u32::MAX)
                &&& new_m == old_m
            },
        }
    }

    /// Train a word-level model: special tokens first, then the most
    /// frequent counted words (first-counted wins ties) until the target
    /// size is reached or no word is frequent enough.
    pub fn train(&self, model: &mut WordLevel) -> (r: Result<Vec<AddedToken>, TokenizerError>)
        ensures
            self.train_post(*old(model), *final(model), r),
    {
        if !check_distinct(&self.special_tokens) {
            return Err(TokenizerError::InvalidConfiguration);
        }
        if self.special_tokens.len() > u32::MAX as usize {
            return Err(TokenizerError::InvalidConfiguration);
        }
        let mut vocab = build_special_vocab(&self.special_tokens);
        proof {
            assert(vocab.strs() =~= specials_strs(self.special_tokens@));
        }
        let ghost entries = self.words.entries();
        let ghost sstrs = specials_strs(self.special_tokens@);
        let threshold: u64 = if self.min_frequency > 1 {
            self.min_frequency
        } else {
            1
        };
        let target = self.vocab_size;
        let mut round: usize = 0;
        while round < target
            invariant
                vocab.wf(),
                specials_prefix(self.special_tokens@, vocab),
                round <= target,
                entries == self.words.entries(),
                threshold == wl_threshold(self.min_frequency),
                target == self.vocab_size,
                wl_built(entries, vocab.strs(), threshold, target as int, (target - round) as nat)
                    == wl_built(entries, sstrs, threshold, target as int, target as nat),
            ensures
                vocab.wf(),
                specials_prefix(self.special_tokens@, vocab),
                vocab.strs() == wl_built(entries, sstrs, threshold, target as int, target as nat),
            decreases target - round,
        {
            if vocab.len() >= target || vocab.len() >= u32::MAX as usize {
                proof {
                    assert(wl_built(
                        entries,
                        vocab.strs(),
                        threshold,
                        target as int,
                        (target - round) as nat,
                    ) == vocab.strs());
                }
                break;
            }
            let ghost vs = vocab.strs();
            let nw = self.words.len();
            let mut best: Option<(usize, u64)> = None;
            let mut i = nw;
            while i > 0
                invariant
                    nw == self.words.entries().len(),
                    entries == self.words.entries(),
                    i <= nw,
                    vocab.wf(),
                    vs == vocab.strs(),
                    match best {
                        None => wl_best(entries, vs, threshold, i as int) is None,
                        Some(b) => {
                            &&& wl_best(entries, vs, threshold, i as int) == Some(
                                (b.0 as int, b.1),
                            )
                            &&& b.0 < nw
                            &&& entries[b.0 as int].1 == b.1
                            &&& !vs.contains(entries[b.0 as int].0@)
                        },
                    },
                decreases i,
            {
                i = i - 1;
                let (word, count) = self.words.entry(i);
                let mut eligible = false;
                if count >= threshold {
                    match vocab.token_to_id(&word) {
                        Some(id) => {
                            proof {
                                assert(vs[id as int] == entries[i as int].0@);
                                assert(vs.contains(entries[i as int].0@));
                            }
                        },
                        None => {
                            eligible = true;
                            proof {
                                assert(!vs.contains(entries[i as int].0@)) by {
                                    if vs.contains(entries[i as int].0@) {
                                        let j = choose|j: int|
                                            0 <= j < vs.len() && vs[j] == entries[i as int].0@;
                                        assert(vocab.spec_contains(word@));
                                    }
                                }
                            }
                        },
                    }
                }
                if eligible {
                    let take = match best {
                        None => true,
                        Some(b) => count >= b.1,
                    };
                    if take {
                        best = Some((i, count));
                    }
                }
            }
            match best {
                Some(b) => {
                    let (word, _) = self.words.entry(b.0);
                    proof {
                        assert(wl_built(
                            entries,
                            vs,
                            threshold,
                            target as int,
                            (target - round) as nat,
                        ) == wl_built(
                            entries,
                            vs.push(entries[b.0 as int].0@),
                            threshold,
                            target as int,
                            (target - round - 1) as nat,
                        ));
                    }
                    vocab.add(word);
                    round = round + 1;
                },
                None => {
                    proof {
                        assert(wl_built(
                            entries,
                            vocab.strs(),
                            threshold,
                            target as int,
                            (target - round) as nat,
                        ) == vocab.strs());
                    }
                    break;
                },
            }
        }
        *model = WordLevel::new(vocab, None);
        let added = clone_specials(&self.special_tokens);
        proof {
            assert(added@ == self.special_tokens@);
        }
        Ok(added)
    }
}

/// The WordPiece trainer: the byte-pair merging procedure with its learned
/// vocabulary handed to a WordPiece model.
#[derive(Debug)]
pub struct WordPieceTrainer {
    pub bpe: BpeTrainer,
}

impl Default for WordPieceTrainer {
    fn default() -> (t: WordPieceTrainer)
        ensures
            t.bpe.vocab_size == 30000,
    {
        WordPieceTrainer { bpe: BpeTrainer::default() }
    }
}

impl WordPieceTrainer {
    pub fn should_show_progress(&self) -> (b: bool)
        ensures
            b == self.bpe.show_progress,
    {
        self.bpe.should_show_progress()
    }

    pub fn feed<F: Fn(&String) -> Result<Vec<String>, TokenizerError>>(
        &mut self,
        lines: &Vec<String>,
        process: &F,
    ) -> (r: Result<(), TokenizerError>)
        requires
            forall|l: &String| call_requires(*process, (l,)),
        ensures
            feed_post(*process, lines@, old(self).bpe.words, final(self).bpe.words, r),
            r is Err ==> final(self).bpe == old(self).bpe,
            final(self).bpe.vocab_size == old(self).bpe.vocab_size,
            final(self).bpe.show_progress == old(self).bpe.show_progress,
            final(self).bpe.special_tokens == old(self).bpe.special_tokens,
    {
        self.bpe.feed(lines, process)
    }

    /// Exactly what `train` guarantees: the learned vocabulary carries the
    /// special tokens first and covers every character of the counted
    /// words; the model's continuation marker and per-word length limit
    /// survive, and the first id becomes the unknown token.
    pub open spec fn train_post(
        self,
        old_m: WordPiece,
        new_m: WordPiece,
        r: Result<Vec<AddedToken>, TokenizerError>,
    ) -> bool {
        match r {
            Ok(added) => {
                &&& distinct_specials(self.bpe.special_tokens@)
                &&& new_m.wf()
                &&& specials_prefix(self.bpe.special_tokens@, new_m.spec_vocab())
                &&& alphabet_covered(self.bpe.words.entries(), new_m.spec_vocab().strs())
                &&& new_m.spec_prefix() == old_m.spec_prefix()
                &&& new_m.spec_max_input() == old_m.spec_max_input()
                &&& new_m.spec_unk() == 0
                &&& added@ == self.bpe.special_tokens@
            },
            Err(e) => {
                &&& e == TokenizerError::InvalidConfiguration
                &&& new_m == old_m
            },
        }
    }

    /// Train a WordPiece model: learn a vocabulary by pair merging, then
    /// install it with the model's configured continuation marker and word
    /// length limit; the first learned id becomes the unknown token.
    pub fn train(&self, model: &mut WordPiece) -> (r: Result<Vec<AddedToken>, TokenizerError>)
        ensures
            self.train_post(*old(model), *final(model), r),
    {
        let mut tmp = BPE::new(Vocabulary::new(), Vec::new(), None, 0);
        let added = match self.bpe.train(&mut tmp) {
            Ok(a) => a,
            Err(e) => {
                return Err(e);
            },
        };
        let vocab = tmp.vocabulary();
        if vocab.len() == 0 {
            return Err(TokenizerError::InvalidConfiguration);
        }
        let prefix = model.get_prefix();
        let max_input = model.get_max_input();
        *model = WordPiece::new(vocab, 0, prefix, max_input);
        proof {
            assert(added@ == self.bpe.special_tokens@);
        }
        Ok(added)
    }
}

/// `x` is a contiguous substring, of bounded length, of some word that
/// was counted at least once.
pub open spec fn counted_substring(entries: Seq<(String, u64)>, maxlen: int, x: Seq<char>) -> bool {
    exists|j: int, s0: int, l: int|
        {
            &&& 0 <= j < entries.len()
            &&& entries[j].1 >= 1
            &&& 1 <= l <= maxlen
            &&& 0 <= s0
            &&& s0 + l <= entries[j].0@.len()
            &&& x == #[trigger] entries[j].0@.subrange(s0, s0 + l)
        }
}

/// The Unigram trainer: candidate substrings of the counted words, the
/// most frequent kept, each scored by a deterministic fixed-point penalty
/// that grows as the piece gets rarer (the stand-in for a log-probability,
/// exact in integers and bit-identical everywhere).
#[derive(Debug)]
pub struct UnigramTrainer {
    pub vocab_size: usize,
    pub show_progress: bool,
    pub special_tokens: Vec<AddedToken>,
    pub max_piece_length: usize,
    pub words: WordCounts,
}

impl Default for UnigramTrainer {
    fn default() -> (t: UnigramTrainer)
        ensures
            t.vocab_size == 8000,
            t.max_piece_length == 16,
            t.special_tokens@.len() == 0,
    {
        UnigramTrainer {
            vocab_size: 8000,
            show_progress: true,
            special_tokens: Vec::new(),
            max_piece_length: 16,
            words: WordCounts::new(),
        }
    }
}

impl UnigramTrainer {
    pub fn should_show_progress(&self) -> (b: bool)
        ensures
            b == self.show_progress,
    {
        self.show_progress
    }

    pub fn feed<F: Fn(&String) -> Result<Vec<String>, TokenizerError>>(
        &mut self,
        lines: &Vec<String>,
        process: &F,
    ) -> (r: Result<(), TokenizerError>)
        requires
            forall|l: &String| call_requires(*process, (l,)),
        ensures
            feed_post(*process, lines@, old(self).words, final(self).words, r),
            r is Err ==> *final(self) == *old(self),
            final(self).vocab_size == old(self).vocab_size,
            final(self).show_progress == old(self).show_progress,
            final(self).special_tokens == old(self).special_tokens,
    {
        let mut collected: Vec<Vec<String>> = Vec::new();
        let n = lines.len();
        for i in 0..n
            invariant
                n == lines@.len(),
                *self == *old(self),
                forall|l: &String| call_requires(*process, (l,)),
                collected@.len() == i,
                forall|k: int| #![trigger collected@[k]]
                    0 <= k < i ==> call_ensures(
                        *process,
                        (&lines@[k],),
                        Result::<Vec<String>, TokenizerError>::Ok(collected@[k]),
                    ),
        {
            match process(&lines[i]) {
                Ok(ws) => {
                    collected.push(ws);
                },
                Err(e) => {
                    return Err(e);
                },
            }
        }
        let ghost ws = collected@;
        let m = collected.len();
        for j in 0..m
            invariant
                m == collected@.len(),
                ws == collected@,
                self.vocab_size == old(self).vocab_size,
                self.show_progress == old(self).show_progress,
                self.special_tokens == old(self).special_tokens,
                forall|x: Seq<char>| #[trigger] self.words.spec_count(x) == sat_add_int(
                    old(self).words.spec_count(x) as int,
                    total_occurrences(ws.subrange(0, j as int), x),
                ),
        {
            self.words.accumulate(&collected[j]);
            proof {
                assert forall|x: Seq<char>| #[trigger] self.words.spec_count(x) == sat_add_int(
                    old(self).words.spec_count(x) as int,
                    total_occurrences(ws.subrange(0, j + 1), x),
                ) by {
                    assert(ws.subrange(0, j + 1).drop_last() =~= ws.subrange(0, j as int));
                    assert(ws.subrange(0, j + 1).last() == ws[j as int]);
                    lemma_total_occurrences_nonneg(ws.subrange(0, j as int), x);
                    lemma_occurrences_nonneg(ws[j as int]@, x);
                }
            }
        }
        proof {
            assert(ws.subrange(0, ws.len() as int) =~= ws);
            assert(ws.len() == lines@.len());
        }
        Ok(())
    }

    /// Exactly what `train` guarantees: specials first (scored zero, the
    /// first becoming the unknown token), every further piece a substring
    /// of a counted word, within the configured piece length.
    pub open spec fn train_post(
        self,
        old_m: Unigram,
        new_m: Unigram,
        r: Result<Vec<AddedToken>, TokenizerError>,
    ) -> bool {
        match r {
            Ok(added) => {
                &&& distinct_specials(self.special_tokens@)
                &&& new_m.wf()
                &&& specials_prefix(self.special_tokens@, new_m.spec_vocab())
                &&& new_m.spec_unk() == (if self.special_tokens@.len() > 0 {
                    Some(0u32)
                } else {
                    None::<u32>
                })
                &&& new_m.spec_unk_score() == MIN_PIECE_SCORE
                &&& forall|k: int|
                    0 <= k < self.special_tokens@.len() ==> #[trigger] new_m.spec_scores()[k] == 0
                &&& forall|k: int|
                    self.special_tokens@.len() <= k < new_m.spec_vocab().strs().len()
                        ==> counted_substring(
                        self.words.entries(),
                        self.max_piece_length as int,
                        #[trigger] new_m.spec_vocab().strs()[k],
                    )
                &&& (new_m.spec_vocab().strs().len() < self.vocab_size
                    && new_m.spec_vocab().strs().len() < u32::MAX) ==> (forall|x: Seq<char>|
                    #[trigger] counted_substring(
                        self.words.entries(),
                        self.max_piece_length as int,
                        x,
                    ) ==> new_m.spec_vocab().strs().contains(x))
                &&& added@ == self.special_tokens@
            },
            Err(e) => {
                &&& e == TokenizerError::InvalidConfiguration
                &&& (!distinct_specials(self.special_tokens@) || self.special_tokens@.len()
                    > u32::MAX)
                &&& new_m == old_m
            },
        }
    }

    /// Train a Unigram model: special tokens first (the first becoming the
    /// unknown token), then the most frequent candidate substrings up to
    /// the target size, scored by frequency.
    pub fn train(&self, model: &mut Unigram) -> (r: Result<Vec<AddedToken>, TokenizerError>)
        ensures
            self.train_post(*old(model), *final(model), r),
    {
        if !check_distinct(&self.special_tokens) {
            return Err(TokenizerError::InvalidConfiguration);
        }
        if self.special_tokens.len() > u32::MAX as usize {
            return Err(TokenizerError::InvalidConfiguration);
        }
        let mut vocab = build_special_vocab(&self.special_tokens);
        let mut scores: Vec<i64> = Vec::new();
        let nsp = self.special_tokens.len();
        for _i in 0..nsp
            invariant
                scores@.len() == _i,
                forall|k: int| 0 <= k < scores@.len() ==> #[trigger] scores@[k] == 0,
        {
            scores.push(0);
        }
        // candidate substrings, weighted by word frequency
        let ghost entries = self.words.entries();
        let ghost maxlen = self.max_piece_length as int;
        let mut cands = WordCounts::new();
        let nw = self.words.len();
        for i in 0..nw
            invariant
                nw == self.words.entries().len(),
                entries == self.words.entries(),
                maxlen == self.max_piece_length as int,
                forall|i2: int| #![trigger cands.entries()[i2]]
                    0 <= i2 < cands.entries().len() ==> counted_substring(
                        entries,
                        maxlen,
                        cands.entries()[i2].0@,
                    ),
                forall|j: int, s0: int, l: int|
                    0 <= j < i && entries[j].1 >= 1 && 1 <= l <= maxlen && 0 <= s0 && s0 + l
                        <= entries[j].0@.len() ==> cands.spec_count(
                        #[trigger] entries[j].0@.subrange(s0, s0 + l),
                    ) >= 1,
        {
            let (word, count) = self.words.entry(i);
            if count > 0 {
                let n = word.as_str().unicode_len();
                for s in 0..n
                    invariant
                        n == word@.len(),
                        i < nw,
                        nw == self.words.entries().len(),
                        entries == self.words.entries(),
                        maxlen == self.max_piece_length as int,
                        word@ == entries[i as int].0@,
                        count == entries[i as int].1,
                        count >= 1,
                        forall|i2: int| #![trigger cands.entries()[i2]]
                            0 <= i2 < cands.entries().len() ==> counted_substring(
                                entries,
                                maxlen,
                                cands.entries()[i2].0@,
                            ),
                        forall|j: int, s0: int, l: int|
                            0 <= j < i && entries[j].1 >= 1 && 1 <= l <= maxlen && 0 <= s0 && s0
                                + l <= entries[j].0@.len() ==> cands.spec_count(
                                #[trigger] entries[j].0@.subrange(s0, s0 + l),
                            ) >= 1,
                        forall|s0: int, l: int|
                            0 <= s0 < s && 1 <= l <= maxlen && s0 + l <= n ==> cands.spec_count(
                                #[trigger] word@.subrange(s0, s0 + l),
                            ) >= 1,
                {
                    let lim: usize = if n - s < self.max_piece_length {
                        n - s
                    } else {
                        self.max_piece_length
                    };
                    let mut l: usize = 0;
                    while l < lim
                        invariant
                            n == word@.len(),
                            i < nw,
                            s < n,
                            l <= lim,
                            lim <= n - s,
                            lim <= self.max_piece_length,
                            lim as int == if n - s < self.max_piece_length {
                                (n - s) as int
                            } else {
                                self.max_piece_length as int
                            },
                            nw == self.words.entries().len(),
                            entries == self.words.entries(),
                            maxlen == self.max_piece_length as int,
                            word@ == entries[i as int].0@,
                            count == entries[i as int].1,
                            count >= 1,
                            forall|i2: int| #![trigger cands.entries()[i2]]
                                0 <= i2 < cands.entries().len() ==> counted_substring(
                                    entries,
                                    maxlen,
                                    cands.entries()[i2].0@,
                                ),
                            forall|j: int, s0: int, l2: int|
                                0 <= j < i && entries[j].1 >= 1 && 1 <= l2 <= maxlen && 0 <= s0
                                    && s0 + l2 <= entries[j].0@.len() ==> cands.spec_count(
                                    #[trigger] entries[j].0@.subrange(s0, s0 + l2),
                                ) >= 1,
                            forall|s0: int, l2: int|
                                0 <= s0 < s && 1 <= l2 <= maxlen && s0 + l2 <= n
                                    ==> cands.spec_count(
                                    #[trigger] word@.subrange(s0, s0 + l2),
                                ) >= 1,
                            forall|l2: int|
                                1 <= l2 <= l ==> cands.spec_count(
                                    #[trigger] word@.subrange(s as int, s + l2),
                                ) >= 1,
                        decreases lim - l,
                    {
                        l = l + 1;
                        let sub = word.as_str().substring_char(s, s + l).to_owned();
                        proof {
                            assert(sub@ == entries[i as int].0@.subrange(
                                s as int,
                                s as int + l as int,
                            ));
                            assert(counted_substring(entries, maxlen, sub@));
                        }
                        let ghost prev = cands.entries();
                        let ghost prevc = cands;
                        cands.add(&sub, count);
                        proof {
                            assert forall|i2: int| #![trigger cands.entries()[i2]]
                                0 <= i2 < cands.entries().len() implies counted_substring(
                                entries,
                                maxlen,
                                cands.entries()[i2].0@,
                            ) by {
                                if i2 < prev.len() {
                                    assert(cands.entries()[i2].0@ == prev[i2].0@);
                                } else {
                                    assert(cands.entries()[i2].0@ == sub@);
                                }
                            }
                            assert(cands.spec_count(sub@) >= 1);
                            assert(forall|x: Seq<char>| #[trigger] cands.spec_count(x)
                                >= prevc.spec_count(x));
                        }
                    }
                    proof {
                        assert forall|s0: int, l2: int|
                            0 <= s0 < s + 1 && 1 <= l2 <= maxlen && s0 + l2 <= n
                                implies cands.spec_count(#[trigger] word@.subrange(s0, s0 + l2))
                            >= 1 by {
                            if s0 == s {
                                assert(l2 <= lim);
                            }
                        }
                    }
                }
            }
        }
        // total candidate mass, saturating
        let mut total: u64 = 0;
        let nc = cands.len();
        for i in 0..nc
            invariant
                nc == cands.entries().len(),
        {
            let (_, count) = cands.entry(i);
            total = if total > u64::MAX - count {
                u64::MAX
            } else {
                total + count
            };
        }
        if total == 0 {
            total = 1;
        }
        // keep the most frequent candidates
        let target = self.vocab_size;
        let mut round: usize = 0;
        while round < target
            invariant
                vocab.wf(),
                specials_prefix(self.special_tokens@, vocab),
                entries == self.words.entries(),
                maxlen == self.max_piece_length as int,
                nsp == self.special_tokens@.len() <= vocab.strs().len(),
                vocab.strs().len() == nsp + round,
                round <= target,
                scores@.len() == vocab.strs().len(),
                forall|k: int| 0 <= k < scores@.len() ==> MIN_PIECE_SCORE <= #[trigger] scores@[k]
                    <= 0,
                forall|k: int| 0 <= k < nsp ==> #[trigger] scores@[k] == 0,
                forall|k: int|
                    nsp <= k < vocab.strs().len() ==> counted_substring(
                        entries,
                        maxlen,
                        #[trigger] vocab.strs()[k],
                    ),
                forall|i2: int| #![trigger cands.entries()[i2]]
                    0 <= i2 < cands.entries().len() ==> counted_substring(
                        entries,
                        maxlen,
                        cands.entries()[i2].0@,
                    ),
                total >= 1,
                nc == cands.entries().len(),
            ensures
                vocab.wf(),
                specials_prefix(self.special_tokens@, vocab),
                nsp <= vocab.strs().len(),
                scores@.len() == vocab.strs().len(),
                forall|k: int| 0 <= k < scores@.len() ==> MIN_PIECE_SCORE <= #[trigger] scores@[k]
                    <= 0,
                forall|k: int| 0 <= k < nsp ==> #[trigger] scores@[k] == 0,
                forall|k: int|
                    nsp <= k < vocab.strs().len() ==> counted_substring(
                        entries,
                        maxlen,
                        #[trigger] vocab.strs()[k],
                    ),
                vocab.strs().len() < target && vocab.strs().len() < u32::MAX ==> (forall|i2: int|
                    #![trigger cands.entries()[i2]]
                    0 <= i2 < nc && cands.entries()[i2].1 >= 1 ==> vocab.spec_contains(
                        cands.entries()[i2].0@,
                    )),
            decreases target - round,
        {
            if vocab.len() >= target || vocab.len() >= u32::MAX as usize {
                break;
            }
            let mut best: Option<(usize, u64)> = None;
            for i in 0..nc
                invariant
                    nc == cands.entries().len(),
                    vocab.wf(),
                    match best {
                        Some(b) => b.0 < nc && !vocab.spec_contains(
                            cands.entries()[b.0 as int].0@,
                        ) && cands.entries()[b.0 as int].1 >= 1,
                        None => forall|i2: int|
                            #![trigger cands.entries()[i2]]
                            0 <= i2 < i && cands.entries()[i2].1 >= 1 ==> vocab.spec_contains(
                                cands.entries()[i2].0@,
                            ),
                    },
            {
                let (piece, count) = cands.entry(i);
                if count > 0 {
                    match vocab.token_to_id(&piece) {
                        Some(_) => {},
                        None => {
                            let better = match best {
                                None => true,
                                Some(b) => count > b.1,
                            };
                            if better {
                                best = Some((i, count));
                            }
                        },
                    }
                }
            }
            match best {
                Some(b) => {
                    let (piece, count) = cands.entry(b.0);
                    let ghost prevs = vocab.strs();
                    vocab.add(piece);
                    scores.push(piece_score(count, total));
                    round = round + 1;
                    proof {
                        assert(vocab.strs() =~= prevs.push(piece@));
                        assert forall|k: int|
                            nsp <= k < vocab.strs().len() implies counted_substring(
                            entries,
                            maxlen,
                            #[trigger] vocab.strs()[k],
                        ) by {
                            if k < prevs.len() {
                                assert(vocab.strs()[k] == prevs[k]);
                            } else {
                                assert(vocab.strs()[k] == cands.entries()[b.0 as int].0@);
                            }
                        }
                    }
                },
                None => {
                    break;
                },
            }
        }
        let unk: Option<u32> = if self.special_tokens.len() > 0 {
            Some(0)
        } else {
            None
        };
        proof {
            if vocab.strs().len() < self.vocab_size && vocab.strs().len() < u32::MAX {
                assert forall|x: Seq<char>| #[trigger] counted_substring(
                    entries,
                    maxlen,
                    x,
                ) implies vocab.strs().contains(x) by {
                    let (j, s0, l) = choose|j: int, s0: int, l: int|
                        {
                            &&& 0 <= j < entries.len()
                            &&& entries[j].1 >= 1
                            &&& 1 <= l <= maxlen
                            &&& 0 <= s0
                            &&& s0 + l <= entries[j].0@.len()
                            &&& x == #[trigger] entries[j].0@.subrange(s0, s0 + l)
                        };
                    assert(cands.spec_count(entries[j].0@.subrange(s0, s0 + l)) >= 1);
                    crate::wordcounts::lemma_count_entry(cands.entries(), x, 0);
                    let i2 = choose|i2: int|
                        0 <= i2 < cands.entries().len() && (#[trigger] cands.entries()[i2]).0@
                            == x && cands.entries()[i2].1 == crate::wordcounts::count_from(
                            cands.entries(),
                            x,
                            0,
                        );
                    assert(vocab.spec_contains(x));
                    let w = choose|w: int|
                        0 <= w < vocab.strs().len() && vocab.strs()[w] == x;
                    assert(vocab.strs().contains(x));
                }
            }
        }
        *model = Unigram::new(vocab, scores, unk, MIN_PIECE_SCORE);
        let added = clone_specials(&self.special_tokens);
        proof {
            assert(added@ == self.special_tokens@);
        }
        Ok(added)
    }
}

/// The fixed-point penalty of a piece seen `count` times out of `total`:
/// zero for a piece that is the whole mass, approaching the floor as the
/// piece gets rarer. Deterministic integer arithmetic only.
fn piece_score(count: u64, total: u64) -> (r: i64)
    requires
        total >= 1,
    ensures
        MIN_PIECE_SCORE <= r <= 0,
{
    let c = if count > total {
        total
    } else {
        count
    };
    let scarcity: u128 = ((total - c) as u128) * 16777216u128 / (total as u128);
    proof {
        let t = total as int;
        let cc = c as int;
        assert((t - cc) * 16777216 / t <= 16777216) by (nonlinear_arith)
            requires
                1 <= t,
                0 <= cc <= t,
        ;
        assert(scarcity <= 16777216);
    }
    let r: i64 = -(scarcity as i64);
    r
}

/// Add `count` to the tally of the pair `(a, b)`; ids stay below `limit`.
fn bump_pair(pairs: &mut Vec<((u32, u32), u64)>, a: u32, b: u32, count: u64, limit: usize)
    requires
        a < limit,
        b < limit,
        forall|p: int| #![trigger old(pairs)@[p]]
            0 <= p < old(pairs)@.len() ==> old(pairs)@[p].0.0 < limit && old(pairs)@[p].0.1
                < limit,
    ensures
        forall|p: int| #![trigger final(pairs)@[p]]
            0 <= p < final(pairs)@.len() ==> final(pairs)@[p].0.0 < limit && final(pairs)@[p].0.1
                < limit,
{
    let n = pairs.len();
    for i in 0..n
        invariant
            n == pairs@.len(),
            *pairs == *old(pairs),
            a < limit,
            b < limit,
            forall|p: int| #![trigger old(pairs)@[p]]
                0 <= p < old(pairs)@.len() ==> old(pairs)@[p].0.0 < limit && old(pairs)@[p].0.1
                    < limit,
    {
        if pairs[i].0.0 == a && pairs[i].0.1 == b {
            let cur = pairs[i].1;
            let s: u64 = if cur > u64::MAX - count {
                u64::MAX
            } else {
                cur + count
            };
            let ghost before = pairs@;
            pairs.set(i, ((a, b), s));
            proof {
                assert(pairs@ == before.update(i as int, ((a, b), s)));
                assert forall|p: int| #![trigger pairs@[p]] 0 <= p < pairs@.len() implies pairs@[p].0.0
                    < limit && pairs@[p].0.1 < limit by {
                    if p == i as int {
                        assert(pairs@[p] == ((a, b), s));
                    } else {
                        assert(pairs@[p] == before[p]);
                        assert(before[p] == old(pairs)@[p]);
                    }
                }
            }
            return ;
        }
    }
    pairs.push(((a, b), count));
}

} // verus!
