//! The Unigram model: a lattice over a word whose edges are vocabulary
//! pieces with scores, tokenization being the maximum-score path found by
//! Viterbi dynamic programming. Scores are fixed-point integers (micro
//! log-probability units), kept in `[MIN_PIECE_SCORE, 0]`, so that sums are
//! exact and bit-identical everywhere.

use vstd::prelude::*;
use vstd::string::StrSliceExecFns;
use vstd::string::StringSliceAdditionalSpecFns;
use vstd::utf8::encode_utf8;
use crate::vocab::Vocabulary;
use crate::{byte_index, Token, TokenizerError};

verus! {

/// Lowest score a piece or the unknown fallback may carry.
pub const MIN_PIECE_SCORE: i64 = -1099511627776;

/// One lattice edge: the char span `[start, end)` and the piece id taken,
/// `None` standing for the per-character unknown fallback.
pub type SegEdge = (int, int, Option<u32>);

/// The Unigram model.
#[derive(Debug, PartialEq)]
pub struct Unigram {
    vocab: Vocabulary,
    scores: Vec<i64>,
    unk: Option<u32>,
    unk_score: i64,
}

impl Default for Unigram {
    /// An empty model: no pieces, no unknown token.
    fn default() -> (m: Unigram)
        ensures
            m.wf(),
            m.spec_vocab().strs().len() == 0,
            m.spec_unk() is None,
    {
        Unigram {
            vocab: Vocabulary::new(),
            scores: Vec::new(),
            unk: None,
            unk_score: MIN_PIECE_SCORE,
        }
    }
}

impl Unigram {
    pub closed spec fn spec_vocab(self) -> Vocabulary {
        self.vocab
    }

    pub closed spec fn spec_scores(self) -> Seq<i64> {
        self.scores@
    }

    pub closed spec fn spec_unk(self) -> Option<u32> {
        self.unk
    }

    pub closed spec fn spec_unk_score(self) -> i64 {
        self.unk_score
    }

    pub open spec fn wf(self) -> bool {
        &&& self.spec_vocab().wf()
        &&& self.spec_scores().len() == self.spec_vocab().strs().len()
        &&& forall|k: int|
            0 <= k < self.spec_scores().len() ==> MIN_PIECE_SCORE <= #[trigger] self.spec_scores()[k] <= 0
        &&& MIN_PIECE_SCORE <= self.spec_unk_score() <= 0
        &&& match self.spec_unk() {
            Some(u) => u < self.spec_vocab().strs().len(),
            None => true,
        }
    }

    /// A lattice edge is real: a piece spelling the covered span, or the
    /// unknown fallback over one char that no piece spells.
    pub open spec fn edge_ok(self, w: Seq<char>, e: SegEdge) -> bool {
        &&& 0 <= e.0 < e.1 <= w.len()
        &&& match e.2 {
            Some(p) => p < self.spec_vocab().strs().len() && self.spec_vocab().strs()[p as int]
                == w.subrange(e.0, e.1),
            None => e.1 == e.0 + 1 && !self.spec_vocab().spec_contains(w.subrange(e.0, e.1)),
        }
    }

    /// The score an edge contributes.
    pub open spec fn edge_val(self, e: SegEdge) -> int {
        match e.2 {
            Some(p) => self.spec_scores()[p as int] as int,
            None => self.spec_unk_score() as int,
        }
    }

    /// The unique lattice edge over `[s, j)`, if any: the piece spelling
    /// the span, else the unknown fallback when the span is one char.
    pub open spec fn edge_at(self, w: Seq<char>, s: int, j: int) -> Option<SegEdge> {
        if 0 <= s < j <= w.len() {
            if self.spec_vocab().spec_contains(w.subrange(s, j)) {
                Some((s, j, Some(self.spec_vocab().spec_id_of(w.subrange(s, j)) as u32)))
            } else if j == s + 1 {
                Some((s, j, None))
            } else {
                None
            }
        } else {
            None
        }
    }

    /// The best scoring edge into `j` from any start in `[s, j)`, with its
    /// score; on ties the edge with the larger start wins.
    pub open spec fn best_into(self, w: Seq<char>, j: int, s: int) -> Option<(int, SegEdge)>
        decreases j, j - s,
    {
        if s < 0 || s >= j || j > w.len() {
            None
        } else {
            let rest = self.best_into(w, j, s + 1);
            match self.edge_at(w, s, j) {
                None => rest,
                Some(e) => {
                    let cand = (self.spec_best(w, s) + self.edge_val(e), e);
                    match rest {
                        None => Some(cand),
                        Some(r) => if cand.0 > r.0 {
                            Some(cand)
                        } else {
                            Some(r)
                        },
                    }
                },
            }
        }
    }

    /// The best total score of any lattice path from `0` to `j`.
    pub open spec fn spec_best(self, w: Seq<char>, j: int) -> int
        decreases j, j + 1,
    {
        if j <= 0 {
            0
        } else {
            match self.best_into(w, j, 0) {
                Some(r) => r.0,
                None => 0,
            }
        }
    }

    /// The path the Viterbi backtrace returns: best edges into each
    /// position, larger starts winning ties.
    pub open spec fn spec_path(self, w: Seq<char>, j: int) -> Seq<SegEdge>
        decreases j,
    {
        if j <= 0 {
            Seq::empty()
        } else {
            match self.best_into(w, j, 0) {
                Some(r) => {
                    if 0 <= r.1.0 < j {
                        self.spec_path(w, r.1.0).push(r.1)
                    } else {
                        Seq::empty()
                    }
                },
                None => Seq::empty(),
            }
        }
    }

    /// A lattice path tiling `[0, j)` out of real edges.
    pub open spec fn seg_ok(self, w: Seq<char>, seg: Seq<SegEdge>, j: int) -> bool
        decreases seg.len(),
    {
        if seg.len() == 0 {
            j == 0
        } else {
            &&& self.edge_ok(w, seg.last())
            &&& seg.last().1 == j
            &&& self.seg_ok(w, seg.drop_last(), seg.last().0)
        }
    }

    /// Total score of a path.
    pub open spec fn seg_score(self, w: Seq<char>, seg: Seq<SegEdge>) -> int
        decreases seg.len(),
    {
        if seg.len() == 0 {
            0
        } else {
            self.seg_score(w, seg.drop_last()) + self.edge_val(seg.last())
        }
    }

    /// Every result of `best_into` names a real edge into `j` and carries
    /// exactly the score of the best path through it.
    pub proof fn lemma_best_into_props(self, w: Seq<char>, j: int, s: int)
        requires
            self.wf(),
            0 <= s,
        ensures
            match self.best_into(w, j, s) {
                Some(r) => {
                    &&& s <= r.1.0 < j <= w.len()
                    &&& r.1.1 == j
                    &&& self.edge_ok(w, r.1)
                    &&& r.0 == self.spec_best(w, r.1.0) + self.edge_val(r.1)
                },
                None => true,
            },
        decreases j - s,
    {
        if !(s < 0 || s >= j || j > w.len()) {
            self.lemma_best_into_props(w, j, s + 1);
            match self.edge_at(w, s, j) {
                Some(e) => {
                    if e.2 is Some {
                        assert(self.spec_vocab().spec_contains(w.subrange(s, j)));
                    }
                },
                None => {},
            }
        }
    }

    /// Below `j` there is always an edge into `j` (a piece or the unknown
    /// fallback over the last char), so `best_into` from any start is some.
    pub proof fn lemma_best_into_some(self, w: Seq<char>, j: int, s: int)
        requires
            self.wf(),
            0 <= s <= j - 1,
            j <= w.len(),
        ensures
            self.best_into(w, j, s) is Some,
        decreases j - s,
    {
        if s == j - 1 {
            assert(self.edge_at(w, s, j) is Some);
        } else {
            self.lemma_best_into_some(w, j, s + 1);
        }
    }

    /// `best_into` dominates every single edge it covers.
    pub proof fn lemma_best_into_covers(self, w: Seq<char>, j: int, s: int, s0: int)
        requires
            self.wf(),
            0 <= s0 <= s < j <= w.len(),
            self.edge_at(w, s, j) is Some,
        ensures
            self.best_into(w, j, s0) is Some,
            self.best_into(w, j, s0).unwrap().0 >= self.spec_best(w, s) + self.edge_val(
                self.edge_at(w, s, j).unwrap(),
            ),
        decreases s - s0,
    {
        if s0 == s {
        } else {
            self.lemma_best_into_covers(w, j, s, s0 + 1);
        }
    }

    /// The Viterbi path is itself a real path with the best score.
    pub proof fn lemma_best_path_valid(self, w: Seq<char>, j: int)
        requires
            self.wf(),
            0 <= j <= w.len(),
        ensures
            self.seg_ok(w, self.spec_path(w, j), j),
            self.seg_score(w, self.spec_path(w, j)) == self.spec_best(w, j),
        decreases j,
    {
        if j > 0 {
            self.lemma_best_into_some(w, j, 0);
            self.lemma_best_into_props(w, j, 0);
            let r = self.best_into(w, j, 0).unwrap();
            self.lemma_best_path_valid(w, r.1.0);
            let path = self.spec_path(w, r.1.0).push(r.1);
            assert(path.drop_last() =~= self.spec_path(w, r.1.0));
        }
    }

    /// Unigram optimality: no lattice path from `0` to `j` scores more than
    /// the best score the Viterbi search reports.
    pub proof fn lemma_optimal(self, w: Seq<char>, seg: Seq<SegEdge>, j: int)
        requires
            self.wf(),
            self.seg_ok(w, seg, j),
            0 <= j <= w.len(),
        ensures
            self.seg_score(w, seg) <= self.spec_best(w, j),
        decreases seg.len(),
    {
        if seg.len() > 0 {
            let last = seg.last();
            let s = last.0;
            self.lemma_optimal(w, seg.drop_last(), s);
            // the taken edge is exactly the lattice edge at (s, j)
            match last.2 {
                Some(p) => {
                    assert(self.spec_vocab().spec_contains(w.subrange(s, j)));
                    self.spec_vocab().lemma_id_unique(
                        p as int,
                        self.spec_vocab().spec_id_of(w.subrange(s, j)),
                    );
                    assert(self.edge_at(w, s, j) == Some(last));
                },
                None => {
                    assert(self.edge_at(w, s, j) == Some(last));
                },
            }
            self.lemma_best_into_covers(w, j, s, 0);
        }
    }

    pub fn new(vocab: Vocabulary, scores: Vec<i64>, unk: Option<u32>, unk_score: i64) -> (m: Unigram)
        requires
            vocab.wf(),
            scores@.len() == vocab.strs().len(),
            forall|k: int| 0 <= k < scores@.len() ==> MIN_PIECE_SCORE <= #[trigger] scores@[k] <= 0,
            MIN_PIECE_SCORE <= unk_score <= 0,
            match unk {
                Some(u) => u < vocab.strs().len(),
                None => true,
            },
        ensures
            m.wf(),
            m.spec_vocab() == vocab,
            m.spec_scores() == scores@,
            m.spec_unk() == unk,
            m.spec_unk_score() == unk_score,
    {
        Unigram { vocab, scores, unk, unk_score }
    }

    pub fn token_to_id(&self, token: &String) -> (r: Option<u32>)
        requires
            self.wf(),
        ensures
            match r {
                Some(id) => id < self.spec_vocab().strs().len() && self.spec_vocab().strs()[id as int]
                    == token@,
                None => !self.spec_vocab().spec_contains(token@),
            },
    {
        self.vocab.token_to_id(token)
    }

    pub fn id_to_token(&self, id: u32) -> (r: Option<String>)
        ensures
            match r {
                Some(s) => id < self.spec_vocab().strs().len() && s@ == self.spec_vocab().strs()[id as int],
                None => id >= self.spec_vocab().strs().len(),
            },
    {
        self.vocab.id_to_token(id)
    }

    pub fn get_vocab(&self) -> (r: Vec<(String, u32)>)
        requires
            self.wf(),
        ensures
            r@.len() == self.spec_vocab().strs().len(),
            forall|i: int| #![trigger r@[i]]
                0 <= i < r@.len() ==> r@[i].0@ == self.spec_vocab().strs()[i] && r@[i].1 == i,
    {
        self.vocab.to_pairs()
    }

    pub fn get_vocab_size(&self) -> (n: usize)
        ensures
            n == self.spec_vocab().strs().len(),
    {
        self.vocab.len()
    }

    pub fn get_unk(&self) -> (r: Option<u32>)
        ensures
            r == self.spec_unk(),
    {
        self.unk
    }

    pub fn get_unk_score(&self) -> (r: i64)
        ensures
            r == self.spec_unk_score(),
    {
        self.unk_score
    }

    pub fn get_score(&self, id: u32) -> (r: Option<i64>)
        requires
            self.wf(),
        ensures
            match r {
                Some(v) => id < self.spec_scores().len() && v == self.spec_scores()[id as int],
                None => id >= self.spec_scores().len(),
            },
    {
        if (id as usize) < self.scores.len() {
            Some(self.scores[id as usize])
        } else {
            None
        }
    }

    /// The tokens spell out the Viterbi path over `w` exactly, unknown
    /// spans resolved to the unknown token.
    pub open spec fn matches_path(self, w: Seq<char>, ts: Seq<Token>) -> bool {
        let path = self.spec_path(w, w.len() as int);
        &&& ts.len() == path.len()
        &&& forall|k: int| #![trigger ts[k]]
            0 <= k < path.len() ==> {
                &&& match path[k].2 {
                    Some(p) => ts[k].id == p && ts[k].value@ == self.spec_vocab().strs()[p as int],
                    None => self.spec_unk() == Some(ts[k].id) && ts[k].value@
                        == self.spec_vocab().strs()[ts[k].id as int],
                }
                &&& ts[k].offsets.0 == byte_index(w, path[k].0)
                &&& ts[k].offsets.1 == byte_index(w, path[k].1)
            }
    }

    /// Exactly what `tokenize` returns on `w`: the tokens of the Viterbi
    /// path, or `UnknownSymbol` when that path crosses an unknown span and
    /// no unknown token is configured.
    pub open spec fn tokenize_post(self, w: Seq<char>, r: Result<Vec<Token>, TokenizerError>) -> bool {
        match r {
            Ok(ts) => self.matches_path(w, ts@),
            Err(e) => {
                &&& e == TokenizerError::UnknownSymbol
                &&& self.spec_unk() is None
                &&& exists|k: int|
                    0 <= k < self.spec_path(w, w.len() as int).len() && self.spec_path(
                        w,
                        w.len() as int,
                    )[k].2 is None
            },
        }
    }

    /// Tokenize one word: Viterbi search for the maximum-score path, then
    /// backtrace. `UnknownSymbol` exactly when the best path crosses an
    /// unknown span and no unknown token is configured.
    pub fn tokenize(&self, word: &String) -> (r: Result<Vec<Token>, TokenizerError>)
        requires
            self.wf(),
        ensures
            self.tokenize_post(word@, r),
    {
        let ghost w = word@;
        let n = word.as_str().unicode_len();
        let mut best: Vec<i128> = Vec::new();
        let mut back: Vec<(usize, Option<u32>)> = Vec::new();
        best.push(0);
        back.push((0, None));
        for jm in 0..n
            invariant
                self.wf(),
                w == word@,
                n == w.len(),
                best@.len() == jm + 1,
                back@.len() == jm + 1,
                forall|i: int| #![trigger best@[i]]
                    0 <= i <= jm ==> best@[i] == self.spec_best(w, i)
                        && MIN_PIECE_SCORE as int * i <= best@[i] <= 0,
                forall|i: int| #![trigger back@[i]]
                    1 <= i <= jm ==> {
                        &&& self.best_into(w, i, 0) is Some
                        &&& self.best_into(w, i, 0).unwrap().1 == (
                            back@[i].0 as int,
                            i,
                            back@[i].1,
                        )
                        &&& back@[i].0 < i
                    },
        {
            let j = jm + 1;
            let mut s = j;
            let mut acc: Option<(i128, usize, Option<u32>)> = None;
            while s > 0
                invariant
                    self.wf(),
                    w == word@,
                    n == w.len(),
                    0 <= s <= j <= n,
                    j == jm + 1 <= n,
                    best@.len() == j,
                    forall|i: int| #![trigger best@[i]]
                        0 <= i < j ==> best@[i] == self.spec_best(w, i)
                            && MIN_PIECE_SCORE as int * i <= best@[i] <= 0,
                    match acc {
                        None => self.best_into(w, j as int, s as int) is None,
                        Some(t) => {
                            &&& self.best_into(w, j as int, s as int) == Some(
                                (t.0 as int, (t.1 as int, j as int, t.2)),
                            )
                            &&& s <= t.1 < j
                            &&& MIN_PIECE_SCORE as int * (j as int) <= t.0 <= 0
                        },
                    },
                decreases s,
            {
                s = s - 1;
                let sub = word.as_str().substring_char(s, j).to_owned();
                proof {
                    assert(sub@ == w.subrange(s as int, j as int));
                }
                let edge_val: Option<(i64, Option<u32>)> = match self.vocab.token_to_id(&sub) {
                    Some(p) => {
                        proof {
                            self.spec_vocab().lemma_id_unique(
                                p as int,
                                self.spec_vocab().spec_id_of(sub@),
                            );
                        }
                        Some((self.scores[p as usize], Some(p)))
                    },
                    None => {
                        if s + 1 == j {
                            Some((self.unk_score, None))
                        } else {
                            None
                        }
                    },
                };
                match edge_val {
                    Some(ev) => {
                        let (score, idopt) = ev;
                        let cand: i128 = best[s] + score as i128;
                        proof {
                            assert(MIN_PIECE_SCORE as int * (s as int) + MIN_PIECE_SCORE as int
                                <= cand <= 0);
                            assert(MIN_PIECE_SCORE as int * (s as int + 1) <= cand) by {
                                assert(MIN_PIECE_SCORE as int * (s as int + 1)
                                    == MIN_PIECE_SCORE as int * (s as int) + MIN_PIECE_SCORE as int)
                                    by (nonlinear_arith);
                            }
                            assert(MIN_PIECE_SCORE as int * (j as int) <= MIN_PIECE_SCORE as int * (
                            s as int + 1)) by (nonlinear_arith)
                                requires
                                    s as int + 1 <= j as int,
                            ;
                        }
                        let take = match acc {
                            None => true,
                            Some(t) => cand > t.0,
                        };
                        if take {
                            acc = Some((cand, s, idopt));
                        }
                    },
                    None => {
                        proof {
                            assert(self.edge_at(w, s as int, j as int) is None);
                        }
                    },
                }
            }
            match acc {
                Some(t) => {
                    proof {
                        assert(self.spec_best(w, j as int) == t.0);
                        assert(MIN_PIECE_SCORE as int * (j as int) <= best@[j - 1] + 0);
                    }
                    best.push(t.0);
                    back.push((t.1, t.2));
                },
                None => {
                    proof {
                        self.lemma_best_into_some(w, j as int, 0);
                        assert(false);
                    }
                },
            }
        }
        // Backtrace: walk the best edges from the end of the word.
        let mut rev: Vec<Token> = Vec::new();
        let ghost mut redges: Seq<SegEdge> = Seq::empty();
        let mut j = n;
        while j > 0
            invariant
                self.wf(),
                w == word@,
                n == w.len(),
                0 <= j <= n,
                best@.len() == n + 1,
                back@.len() == n + 1,
                forall|i: int| #![trigger back@[i]]
                    1 <= i <= n ==> {
                        &&& self.best_into(w, i, 0) is Some
                        &&& self.best_into(w, i, 0).unwrap().1 == (
                            back@[i].0 as int,
                            i,
                            back@[i].1,
                        )
                        &&& back@[i].0 < i
                    },
                self.spec_path(w, n as int) =~= self.spec_path(w, j as int) + redges.reverse(),
                rev@.len() == redges.len(),
                forall|k: int| #![trigger rev@[k]]
                    0 <= k < redges.len() ==> {
                        &&& match redges[k].2 {
                            Some(p) => rev@[k].id == p && rev@[k].value@ == self.spec_vocab().strs()[p as int],
                            None => self.spec_unk() == Some(rev@[k].id) && rev@[k].value@
                                == self.spec_vocab().strs()[rev@[k].id as int],
                        }
                        &&& rev@[k].offsets.0 == byte_index(w, redges[k].0)
                        &&& rev@[k].offsets.1 == byte_index(w, redges[k].1)
                    },
            decreases j,
        {
            let (s, idopt) = back[j];
            let ghost edge: SegEdge = (s as int, j as int, idopt);
            proof {
                self.lemma_best_into_props(w, j as int, 0);
                assert(self.spec_path(w, j as int) == self.spec_path(w, s as int).push(edge));
            }
            let tok_id: u32 = match idopt {
                Some(p) => p,
                None => {
                    match self.unk {
                        Some(u) => u,
                        None => {
                            proof {
                                let path = self.spec_path(w, n as int);
                                let pos = self.spec_path(w, j as int).len() - 1;
                                assert(path[pos] == edge);
                            }
                            return Err(TokenizerError::UnknownSymbol);
                        },
                    }
                },
            };
            proof {
                self.lemma_best_into_props(w, j as int, 0);
                assert(tok_id < self.spec_vocab().strs().len());
            }
            let value = match self.vocab.id_to_token(tok_id) {
                Some(v) => v,
                None => {
                    proof {
                        assert(false);
                    }
                    String::new()
                },
            };
            let s0 = word.as_str().substring_char(0, s);
            let sb = s0.len();
            let e0 = word.as_str().substring_char(0, j);
            let eb = e0.len();
            proof {
                assert(s0.spec_bytes() == encode_utf8(w.subrange(0, s as int)));
                assert(e0.spec_bytes() == encode_utf8(w.subrange(0, j as int)));
            }
            let ghost old_rev = rev@;
            let ghost old_redges = redges;
            rev.push(Token { id: tok_id, value, offsets: (sb, eb) });
            proof {
                redges = redges.push(edge);
                assert(redges.reverse() =~= seq![edge] + redges.drop_last().reverse());
                assert(self.spec_path(w, n as int) =~= self.spec_path(w, s as int)
                    + redges.reverse());
                let kk = redges.len() - 1;
                assert(redges[kk] == edge);
                assert(rev@[kk].id == tok_id);
                assert(rev@[kk].value@ == self.spec_vocab().strs()[tok_id as int]);
                assert(rev@[kk].offsets.0 == byte_index(w, edge.0));
                assert(rev@[kk].offsets.1 == byte_index(w, edge.1));
                assert forall|k: int| #![trigger rev@[k]] 0 <= k < redges.len() implies {
                    &&& match redges[k].2 {
                        Some(p) => rev@[k].id == p && rev@[k].value@ == self.spec_vocab().strs()[p as int],
                        None => self.spec_unk() == Some(rev@[k].id) && rev@[k].value@
                            == self.spec_vocab().strs()[rev@[k].id as int],
                    }
                    &&& rev@[k].offsets.0 == byte_index(w, redges[k].0)
                    &&& rev@[k].offsets.1 == byte_index(w, redges[k].1)
                } by {
                    if k == kk {
                        assert(redges[k] == edge);
                    } else {
                        assert(redges[k] == old_redges[k]);
                        assert(rev@[k] == old_rev[k]);
                    }
                }
            }
            j = s;
        }
        proof {
            assert(self.spec_path(w, n as int) =~= redges.reverse());
        }
        let m = rev.len();
        let mut ts: Vec<Token> = Vec::new();
        for k in 0..m
            invariant
                m == rev@.len(),
                ts@.len() == k,
                forall|q: int| 0 <= q < k ==> ts@[q] == rev@[m - 1 - q],
        {
            ts.push(rev[m - 1 - k].clone());
        }
        proof {
            let path = self.spec_path(w, w.len() as int);
            assert(path.len() == redges.len());
            assert forall|k: int| #![trigger ts@[k]] 0 <= k < path.len() implies {
                &&& match path[k].2 {
                    Some(p) => ts@[k].id == p && ts@[k].value@ == self.spec_vocab().strs()[p as int],
                    None => self.spec_unk() == Some(ts@[k].id) && ts@[k].value@
                        == self.spec_vocab().strs()[ts@[k].id as int],
                }
                &&& ts@[k].offsets.0 == byte_index(w, path[k].0)
                &&& ts@[k].offsets.1 == byte_index(w, path[k].1)
            } by {
                assert(path[k] == redges.reverse()[k]);
                assert(redges.reverse()[k] == redges[redges.len() - 1 - k]);
                assert(ts@[k] == rev@[m - 1 - k]);
                assert(rev@[m - 1 - k].offsets.0 == byte_index(w, redges[m - 1 - k].0));
            }
            assert(self.matches_path(w, ts@));
        }
        Ok(ts)
    }
}

} // verus!
