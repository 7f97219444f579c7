//! The WordPiece model: greedy longest-match-first scanning, left to right,
//! with a continuation marker on non-initial pieces and an all-or-nothing
//! unknown fallback per word.

use vstd::prelude::*;
use vstd::utf8::encode_utf8;
use vstd::string::StrSliceExecFns;
use vstd::string::StringExecFns;
use vstd::string::StringSliceAdditionalSpecFns;
use crate::vocab::Vocabulary;
use crate::{byte_index, byte_len, Token, TokenizerError};

verus! {

/// Greedy longest-match model over one vocabulary; pieces after the first
/// are looked up with `prefix` (for example `##`) prepended.
#[derive(Debug, PartialEq)]
pub struct WordPiece {
    vocab: Vocabulary,
    unk: u32,
    prefix: String,
    max_input_chars_per_word: usize,
}

impl WordPiece {
    pub closed spec fn spec_vocab(self) -> Vocabulary {
        self.vocab
    }

    pub closed spec fn spec_unk(self) -> u32 {
        self.unk
    }

    pub closed spec fn spec_prefix(self) -> Seq<char> {
        self.prefix@
    }

    pub closed spec fn spec_max_input(self) -> usize {
        self.max_input_chars_per_word
    }

    pub open spec fn wf(self) -> bool {
        &&& self.spec_vocab().wf()
        &&& self.spec_unk() < self.spec_vocab().strs().len()
    }

    /// The string looked up for the span `[s, e)` of `w`: the span itself
    /// at word start, the span behind the continuation marker elsewhere.
    pub open spec fn spec_candidate(self, w: Seq<char>, s: int, e: int) -> Seq<char> {
        if s == 0 {
            w.subrange(s, e)
        } else {
            self.spec_prefix() + w.subrange(s, e)
        }
    }

    pub open spec fn spec_match(self, w: Seq<char>, s: int, e: int) -> bool {
        self.spec_vocab().spec_contains(self.spec_candidate(w, s, e))
    }

    /// The largest end in `(s, from]` whose candidate is in the vocabulary,
    /// or `-1` when no end matches.
    pub open spec fn spec_longest_end(self, w: Seq<char>, s: int, from: int) -> int
        decreases from - s,
    {
        if from <= s {
            -1
        } else if self.spec_match(w, s, from) {
            from
        } else {
            self.spec_longest_end(w, s, from - 1)
        }
    }

    /// The greedy segmentation of `w` from position `s`: the spans chosen by
    /// repeatedly taking the longest matching candidate, or `None` as soon
    /// as some position has no match at all.
    pub open spec fn spec_greedy(self, w: Seq<char>, s: int) -> Option<Seq<(int, int)>>
        decreases w.len() - s,
    {
        if s >= w.len() {
            Some(Seq::empty())
        } else {
            let e = self.spec_longest_end(w, s, w.len() as int);
            if e <= s || e > w.len() {
                None
            } else {
                match self.spec_greedy(w, e) {
                    Some(rest) => Some(seq![(s, e)] + rest),
                    None => None,
                }
            }
        }
    }

    /// The whole word collapsed to the single unknown token.
    pub open spec fn is_single_unk(self, w: Seq<char>, ts: Seq<Token>) -> bool {
        &&& ts.len() == 1
        &&& ts[0].id == self.spec_unk()
        &&& ts[0].value@ == self.spec_vocab().strs()[self.spec_unk() as int]
        &&& ts[0].offsets.0 == 0
        &&& ts[0].offsets.1 == byte_len(w)
    }

    /// The tokens spell out the greedy spans exactly.
    pub open spec fn matches_spans(self, w: Seq<char>, ts: Seq<Token>, spans: Seq<(int, int)>) -> bool {
        &&& ts.len() == spans.len()
        &&& forall|k: int| #![trigger ts[k]]
            0 <= k < spans.len() ==> {
                &&& ts[k].value@ == self.spec_candidate(w, spans[k].0, spans[k].1)
                &&& ts[k].id < self.spec_vocab().strs().len()
                &&& self.spec_vocab().strs()[ts[k].id as int] == ts[k].value@
                &&& ts[k].offsets.0 == byte_index(w, spans[k].0)
                &&& ts[k].offsets.1 == byte_index(w, spans[k].1)
            }
    }

    pub fn new(vocab: Vocabulary, unk: u32, prefix: String, max_input_chars_per_word: usize) -> (m:
        WordPiece)
        requires
            vocab.wf(),
            unk < vocab.strs().len(),
        ensures
            m.wf(),
            m.spec_vocab() == vocab,
            m.spec_unk() == unk,
            m.spec_prefix() == prefix@,
            m.spec_max_input() == max_input_chars_per_word,
    {
        WordPiece { vocab, unk, prefix, max_input_chars_per_word }
    }

    pub fn token_to_id(&self, token: &String) -> (r: Option<u32>)
        requires
            self.wf(),
        ensures
            match r {
                Some(id) => id < self.spec_vocab().strs().len()
                    && self.spec_vocab().strs()[id as int] == token@,
                None => !self.spec_vocab().spec_contains(token@),
            },
    {
        self.vocab.token_to_id(token)
    }

    pub fn id_to_token(&self, id: u32) -> (r: Option<String>)
        ensures
            match r {
                Some(s) => id < self.spec_vocab().strs().len()
                    && s@ == self.spec_vocab().strs()[id as int],
                None => id >= self.spec_vocab().strs().len(),
            },
    {
        self.vocab.id_to_token(id)
    }

    pub fn get_vocab(&self) -> (r: Vec<(String, u32)>)
        requires
            self.wf(),
        ensures
            r@.len() == self.spec_vocab().strs().len(),
            forall|i: int| #![trigger r@[i]]
                0 <= i < r@.len() ==> r@[i].0@ == self.spec_vocab().strs()[i] && r@[i].1 == i,
    {
        self.vocab.to_pairs()
    }

    pub fn get_vocab_size(&self) -> (n: usize)
        ensures
            n == self.spec_vocab().strs().len(),
    {
        self.vocab.len()
    }

    pub fn get_prefix(&self) -> (r: String)
        ensures
            r@ == self.spec_prefix(),
    {
        self.prefix.clone()
    }

    pub fn get_max_input(&self) -> (r: usize)
        ensures
            r == self.spec_max_input(),
    {
        self.max_input_chars_per_word
    }

    pub fn get_unk(&self) -> (r: u32)
        ensures
            r == self.spec_unk(),
    {
        self.unk
    }

    fn unk_token(&self, word: &String) -> (t: Token)
        requires
            self.wf(),
        ensures
            t.id == self.spec_unk(),
            t.value@ == self.spec_vocab().strs()[self.spec_unk() as int],
            t.offsets.0 == 0,
            t.offsets.1 == byte_len(word@),
    {
        let value = match self.vocab.id_to_token(self.unk) {
            Some(v) => v,
            None => {
                proof {
                    assert(false);
                }
                String::new()
            },
        };
        let s = word.as_str();
        let blen = s.len();
        proof {
            assert(s.spec_bytes() == encode_utf8(word@));
            assert(word@.subrange(0, word@.len() as int) =~= word@);
        }
        Token { id: self.unk, value, offsets: (0, blen) }
    }

    /// Exactly what `tokenize` returns on `w`: the greedy segmentation, or
    /// the single unknown token when any position fails to match (all or
    /// nothing) or the word is over-long.
    pub open spec fn tokenize_post(self, w: Seq<char>, r: Result<Vec<Token>, TokenizerError>) -> bool {
        &&& r is Ok
        &&& ({
            let ts = r.unwrap()@;
            if w.len() > self.spec_max_input() {
                self.is_single_unk(w, ts)
            } else {
                match self.spec_greedy(w, 0) {
                    Some(spans) => self.matches_spans(w, ts, spans),
                    None => self.is_single_unk(w, ts),
                }
            }
        })
    }

    /// Tokenize one word. Greedy longest-match-first; when any position has
    /// no matching candidate the whole word collapses to the single unknown
    /// token — never a partial list — and an over-long word does so without
    /// any matching.
    pub fn tokenize(&self, word: &String) -> (r: Result<Vec<Token>, TokenizerError>)
        requires
            self.wf(),
        ensures
            self.tokenize_post(word@, r),
    {
        let ghost w = word@;
        let n = word.as_str().unicode_len();
        if n > self.max_input_chars_per_word {
            return Ok(vec![self.unk_token(word)]);
        }
        let mut ts: Vec<Token> = Vec::new();
        let ghost mut spans: Seq<(int, int)> = Seq::empty();
        let mut start: usize = 0;
        while start < n
            invariant
                self.wf(),
                w == word@,
                n == w.len(),
                start <= n,
                self.matches_spans(w, ts@, spans),
                self.spec_greedy(w, 0) is Some <==> self.spec_greedy(w, start as int) is Some,
                self.spec_greedy(w, start as int) is Some ==> self.spec_greedy(w, 0).unwrap()
                    == spans + self.spec_greedy(w, start as int).unwrap(),
            decreases n - start,
        {
            let mut end = n;
            let mut hit: Option<(u32, String)> = None;
            while end > start
                invariant_except_break
                    hit is None,
                invariant
                    self.wf(),
                    w == word@,
                    n == w.len(),
                    start < n,
                    start <= end <= n,
                    self.spec_longest_end(w, start as int, n as int) == self.spec_longest_end(
                        w,
                        start as int,
                        end as int,
                    ),
                ensures
                    start <= end <= n,
                    match hit {
                        Some(p) => {
                            &&& start < end
                            &&& self.spec_longest_end(w, start as int, n as int) == end
                            &&& p.1@ == self.spec_candidate(w, start as int, end as int)
                            &&& p.0 < self.spec_vocab().strs().len()
                            &&& self.spec_vocab().strs()[p.0 as int] == p.1@
                        },
                        None => self.spec_longest_end(w, start as int, n as int) == -1,
                    },
                decreases end,
            {
                let sub = word.as_str().substring_char(start, end);
                let cand: String = if start == 0 {
                    sub.to_owned()
                } else {
                    self.prefix.clone().concat(sub)
                };
                assert(cand@ == self.spec_candidate(w, start as int, end as int));
                match self.vocab.token_to_id(&cand) {
                    Some(id) => {
                        hit = Some((id, cand));
                        break;
                    },
                    None => {
                        end = end - 1;
                    },
                }
            }
            match hit {
                Some(p) => {
                    let ghost gid = p.0;
                    let ghost gval = p.1@;
                    let s0 = word.as_str().substring_char(0, start);
                    let sb = s0.len();
                    let e0 = word.as_str().substring_char(0, end);
                    let eb = e0.len();
                    proof {
                        assert(s0.spec_bytes() == encode_utf8(w.subrange(0, start as int)));
                        assert(e0.spec_bytes() == encode_utf8(w.subrange(0, end as int)));
                    }
                    let (id, value) = p;
                    ts.push(Token { id, value, offsets: (sb, eb) });
                    proof {
                        let s = start as int;
                        let e = end as int;
                        let ghost old_spans = spans;
                        spans = spans.push((s, e));
                        assert(ts@.last().id == gid && ts@.last().value@ == gval);
                        assert(ts@.last().offsets.0 == byte_index(w, s));
                        assert(ts@.last().offsets.1 == byte_index(w, e));
                        assert(self.matches_spans(w, ts@, spans));
                        assert(self.spec_greedy(w, s) == match self.spec_greedy(w, e) {
                            Some(rest) => Some(seq![(s, e)] + rest),
                            None => None::<Seq<(int, int)>>,
                        });
                        if self.spec_greedy(w, e) is Some {
                            assert(spans + self.spec_greedy(w, e).unwrap() =~= old_spans + (seq![
                                (s, e),
                            ] + self.spec_greedy(w, e).unwrap()));
                        }
                    }
                    start = end;
                },
                None => {
                    proof {
                        assert(self.spec_greedy(w, start as int) is None);
                        assert(self.spec_greedy(w, 0) is None);
                    }
                    return Ok(vec![self.unk_token(word)]);
                },
            }
        }
        proof {
            assert(self.spec_greedy(w, start as int) == Some(Seq::<(int, int)>::empty()));
            assert(spans + Seq::<(int, int)>::empty() =~= spans);
        }
        Ok(ts)
    }
}

} // verus!
