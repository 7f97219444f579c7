//! Pre-tokenization (splitting text into word-like spans) is an external
//! collaborator's job; the dispatcher and the whitespace splitter live
//! here so the closed set of pre-tokenizer kinds stays complete.

use vstd::prelude::*;
use vstd::string::StrSliceExecFns;
use vstd::string::StringSliceAdditionalSpecFns;
use vstd::utf8::encode_utf8;
use crate::{byte_index, TokenizerError};

verus! {

pub open spec fn is_ws(c: char) -> bool {
    c == ' ' || c == '\t' || c == '\n' || c == '\r'
}

/// The spans are exactly the maximal whitespace-free runs of `w`, in
/// order.
pub open spec fn ws_spans_ok(w: Seq<char>, spans: Seq<(int, int)>) -> bool {
    &&& forall|k: int| #![trigger spans[k]]
        0 <= k < spans.len() ==> {
            &&& 0 <= spans[k].0 < spans[k].1 <= w.len()
            &&& (forall|p: int| spans[k].0 <= p < spans[k].1 ==> !is_ws(w[p]))
            &&& (spans[k].0 == 0 || is_ws(w[spans[k].0 - 1]))
            &&& (spans[k].1 == w.len() || is_ws(w[spans[k].1]))
        }
    &&& forall|k: int| 0 <= k < spans.len() - 1 ==> #[trigger] spans[k].1 < spans[k + 1].0
    &&& forall|p: int|
        0 <= p < w.len() && !is_ws(#[trigger] w[p]) ==> covered(spans, p)
}

/// Position `p` lies inside one of the spans.
pub open spec fn covered(spans: Seq<(int, int)>, p: int) -> bool {
    exists|k: int| 0 <= k < spans.len() && (#[trigger] spans[k]).0 <= p < spans[k].1
}

/// The split pieces spell out the spans: the covered text with its byte
/// extent.
pub open spec fn pieces_match(
    w: Seq<char>,
    pieces: Seq<(String, (usize, usize))>,
    spans: Seq<(int, int)>,
) -> bool {
    &&& pieces.len() == spans.len()
    &&& forall|k: int| #![trigger pieces[k]]
        0 <= k < spans.len() ==> {
            &&& pieces[k].0@ == w.subrange(spans[k].0, spans[k].1)
            &&& pieces[k].1.0 == byte_index(w, spans[k].0)
            &&& pieces[k].1.1 == byte_index(w, spans[k].1)
        }
}

/// Splitting on whitespace, the splits dropped.
#[derive(Debug, PartialEq)]
pub struct WhitespaceSplit;

impl WhitespaceSplit {
    /// Split a span into its maximal whitespace-free runs, each with its
    /// byte extent.
    #[verifier::rlimit(60)]
    pub fn pre_tokenize(&self, s: &String) -> (r: Result<
        Vec<(String, (usize, usize))>,
        TokenizerError,
    >)
        ensures
            r is Ok,
            exists|spans: Seq<(int, int)>|
                #![all_triggers]
                ws_spans_ok(s@, spans) && pieces_match(s@, r.unwrap()@, spans),
    {
        let ghost w = s@;
        let n = s.as_str().unicode_len();
        let mut pieces: Vec<(String, (usize, usize))> = Vec::new();
        let ghost mut spans: Seq<(int, int)> = Seq::empty();
        let mut i: usize = 0;
        while i < n
            invariant
                n == w.len(),
                w == s@,
                i <= n,
                pieces_match(w, pieces@, spans),
                forall|k: int| #![trigger spans[k]]
                    0 <= k < spans.len() ==> {
                        &&& 0 <= spans[k].0 < spans[k].1 <= i
                        &&& (forall|p: int| spans[k].0 <= p < spans[k].1 ==> !is_ws(w[p]))
                        &&& (spans[k].0 == 0 || is_ws(w[spans[k].0 - 1]))
                        &&& (spans[k].1 == n || is_ws(w[spans[k].1]))
                    },
                forall|k: int| 0 <= k < spans.len() - 1 ==> #[trigger] spans[k].1 < spans[k + 1].0,
                forall|p: int| 0 <= p < i && !is_ws(#[trigger] w[p]) ==> covered(spans, p),
                i > 0 && spans.len() > 0 ==> spans.last().1 <= i,
            decreases n - i,
        {
            let c = s.as_str().get_char(i);
            if c == ' ' || c == '\t' || c == '\n' || c == '\r' {
                i = i + 1;
            } else {
                let start = i;
                let mut end = i + 1;
                loop
                    invariant
                        n == w.len(),
                        w == s@,
                        start < end <= n,
                        forall|p: int| start <= p < end ==> !is_ws(w[p]),
                    ensures
                        start < end <= n,
                        forall|p: int| start <= p < end ==> !is_ws(w[p]),
                        end == n || is_ws(w[end as int]),
                    decreases n - end,
                {
                    if end >= n {
                        break;
                    }
                    let c2 = s.as_str().get_char(end);
                    if c2 == ' ' || c2 == '\t' || c2 == '\n' || c2 == '\r' {
                        break;
                    }
                    end = end + 1;
                }
                let value = s.as_str().substring_char(start, end).to_owned();
                let s0 = s.as_str().substring_char(0, start);
                let sb = s0.len();
                let e0 = s.as_str().substring_char(0, end);
                let eb = e0.len();
                proof {
                    assert(s0.spec_bytes() == encode_utf8(w.subrange(0, start as int)));
                    assert(e0.spec_bytes() == encode_utf8(w.subrange(0, end as int)));
                }
                pieces.push((value, (sb, eb)));
                let ghost old_spans = spans;
                proof {
                    spans = spans.push((start as int, end as int));
                    assert(spans.drop_last() =~= old_spans);
                    assert(pieces_match(w, pieces@, spans));
                    assert forall|p: int|
                        0 <= p < end && !is_ws(#[trigger] w[p]) implies covered(spans, p) by {
                        if p < start {
                            if p < i {
                                assert(covered(old_spans, p));
                                assert(covered(spans.drop_last(), p));
                                let k = choose|k: int|
                                    0 <= k < spans.drop_last().len() && (#[trigger] spans.drop_last()[k]).0
                                        <= p < spans.drop_last()[k].1;
                                assert(spans[k].0 <= p < spans[k].1);
                            }
                        } else {
                            assert(spans.last().0 <= p < spans.last().1);
                        }
                    }
                }
                i = end;
            }
        }
        proof {
            assert(ws_spans_ok(w, spans));
        }
        Ok(pieces)
    }
}

/// The closed set of pre-tokenizer kinds.
#[derive(Debug, PartialEq)]
pub enum PreTokenizerWrapper {
    WhitespaceSplit(WhitespaceSplit),
}

impl PreTokenizerWrapper {
    /// Split one text span into word-like pieces with the active variant.
    pub fn pre_tokenize(&self, s: &String) -> (r: Result<
        Vec<(String, (usize, usize))>,
        TokenizerError,
    >)
        ensures
            r is Ok,
            exists|spans: Seq<(int, int)>|
                #![all_triggers]
                ws_spans_ok(s@, spans) && pieces_match(s@, r.unwrap()@, spans),
    {
        match self {
            PreTokenizerWrapper::WhitespaceSplit(p) => p.pre_tokenize(s),
        }
    }
}

} // verus!
