//! The untagged serialized form of a model: a sequence of text lines with
//! no kind discriminant. Loading attempts each candidate shape in the
//! declared model order — BPE, WordPiece, WordLevel, Unigram — and the
//! order is a correctness contract: WordLevel's shape is a structural
//! subset of WordPiece's (and tolerates trailing sections), so WordPiece
//! must be attempted first. The unverified shell only writes the lines to
//! disk and reads them back.

use vstd::prelude::*;
use vstd::string::StrSliceExecFns;
use vstd::string::StringExecFns;
use crate::bpe::{BPE, Merge, DEFAULT_CACHE_CAPACITY};
use crate::models::ModelWrapper;
use crate::serial::{dec_signed, fmt_i64, fmt_u64, parse_i64, parse_u64, parse_dec, parse_dec_signed};
use crate::unigram::{Unigram, MIN_PIECE_SCORE};
use crate::vocab::Vocabulary;
use crate::wordlevel::WordLevel;
use crate::wordpiece::WordPiece;
use crate::TokenizerError;

verus! {

/// A token line: the marker `t` followed by the token itself, so that any
/// token string can stand on a line without colliding with a header.
pub open spec fn token_line(t: Seq<char>) -> Seq<char> {
    seq!['t'] + t
}

pub open spec fn is_token_line(l: Seq<char>) -> bool {
    l.len() >= 1 && l[0] == 't'
}

pub open spec fn payload(l: Seq<char>) -> Seq<char> {
    l.skip(1)
}

/// The serialized form of a word-level model: its vocabulary section and,
/// when configured, the unknown token.
pub open spec fn wl_ser(m: WordLevel) -> Seq<Seq<char>> {
    seq!["vocab"@] + Seq::new(m.spec_vocab().strs().len(), |k: int| token_line(m.spec_vocab().strs()[k]))
        + match m.spec_unk() {
        None => Seq::<Seq<char>>::empty(),
        Some(u) => seq!["unk"@, token_line(m.spec_vocab().strs()[u as int])],
    }
}

/// First position at or after `i` that is not a token line.
pub open spec fn token_run_end(ls: Seq<Seq<char>>, i: int) -> int
    decreases ls.len() - i,
{
    if i < 0 || i >= ls.len() {
        i
    } else if is_token_line(ls[i]) {
        token_run_end(ls, i + 1)
    } else {
        i
    }
}

pub open spec fn payloads_distinct(ls: Seq<Seq<char>>, i: int, end: int) -> bool {
    forall|k1: int, k2: int| i <= k1 < k2 < end ==> payload(ls[k1]) != payload(ls[k2])
}

/// The whole shape that `parse_vocab_section` accepts from `start`.
pub open spec fn vocab_shape_ok(ls: Seq<Seq<char>>, start: int) -> bool {
    &&& 0 <= start < ls.len()
    &&& ls[start] == "vocab"@
    &&& payloads_distinct(ls, start + 1, token_run_end(ls, start + 1))
    &&& token_run_end(ls, start + 1) - (start + 1) <= u32::MAX
}

/// A run of token lines ends exactly at the first non-token line.
proof fn lemma_token_run(ls: Seq<Seq<char>>, i: int, end: int)
    requires
        0 <= i <= end <= ls.len(),
        forall|k: int| i <= k < end ==> is_token_line(ls[k]),
        end == ls.len() || !is_token_line(ls[end]),
    ensures
        token_run_end(ls, i) == end,
    decreases end - i,
{
    if i < end {
        lemma_token_run(ls, i + 1, end);
    }
}

/// The run end never lies before its start.
proof fn lemma_run_ge(ls: Seq<Seq<char>>, s: int)
    requires
        0 <= s,
    ensures
        token_run_end(ls, s) >= s,
    decreases ls.len() - s,
{
    if s < ls.len() && is_token_line(ls[s]) {
        lemma_run_ge(ls, s + 1);
    }
}

/// Token lines through position `i` keep the run open past `i`.
proof fn lemma_run_partial(ls: Seq<Seq<char>>, s: int, i: int)
    requires
        0 <= s <= i < ls.len(),
        forall|k: int| s <= k <= i ==> is_token_line(#[trigger] ls[k]),
    ensures
        token_run_end(ls, s) > i,
    decreases i - s,
{
    if s < i {
        lemma_run_partial(ls, s + 1, i);
    } else {
        lemma_run_ge(ls, s + 1);
    }
}

/// Read one vocabulary section: the `vocab` header, then one token line
/// per entry until the first non-token line.
fn parse_vocab_section(lines: &Vec<String>, start: usize) -> (r: Result<
    (Vocabulary, usize),
    TokenizerError,
>)
    ensures
        match r {
            Ok(p) => {
                &&& p.0.wf()
                &&& start < p.1 <= lines@.len()
                &&& start < lines@.len()
                &&& lines@[start as int]@ == "vocab"@
                &&& p.1 - start - 1 == p.0.strs().len()
                &&& forall|k: int|
                    0 <= k < p.0.strs().len() ==> is_token_line(#[trigger] lines@[start + 1 + k]@)
                        && payload(lines@[start + 1 + k]@) == p.0.strs()[k]
                &&& p.1 == token_run_end(lines@.map_values(|l: String| l@), start + 1)
            },
            Err(e) => e == TokenizerError::MalformedVocabulary,
        },
        vocab_shape_ok(lines@.map_values(|l: String| l@), start as int) ==> r is Ok,
    {
        let ghost ls = lines@.map_values(|l: String| l@);
        let n = lines.len();
        if start >= n {
            return Err(TokenizerError::MalformedVocabulary);
        }
        let header = String::from_str("vocab");
        if !(lines[start] == header) {
            return Err(TokenizerError::MalformedVocabulary);
        }
        let mut v = Vocabulary::new();
        let mut i = start + 1;
        loop
            invariant
                n == lines@.len(),
                ls == lines@.map_values(|l: String| l@),
                start < i <= n,
                v.wf(),
                i - start - 1 == v.strs().len(),
                forall|k: int|
                    0 <= k < v.strs().len() ==> is_token_line(#[trigger] lines@[start + 1 + k]@)
                        && payload(lines@[start + 1 + k]@) == v.strs()[k],
                forall|k: int| start + 1 <= k < i ==> is_token_line(#[trigger] ls[k]),
                start < lines@.len() && lines@[start as int]@ == "vocab"@,
            ensures
                start < i <= n,
                v.wf(),
                i - start - 1 == v.strs().len(),
                forall|k: int|
                    0 <= k < v.strs().len() ==> is_token_line(#[trigger] lines@[start + 1 + k]@)
                        && payload(lines@[start + 1 + k]@) == v.strs()[k],
                forall|k: int| start + 1 <= k < i ==> is_token_line(#[trigger] ls[k]),
                i == n || !is_token_line(ls[i as int]),
            decreases n - i,
        {
            if i >= n {
                break;
            }
            let line = &lines[i];
            let ln = line.as_str().unicode_len();
            let is_tok = ln >= 1 && line.as_str().get_char(0) == 't';
            if !is_tok {
                break;
            }
            let tok = line.as_str().substring_char(1, ln).to_owned();
            proof {
                assert(tok@ =~= payload(ls[i as int]));
            }
            match v.token_to_id(&tok) {
                Some(dup) => {
                    proof {
                        lemma_run_partial(ls, start + 1, i as int);
                        if vocab_shape_ok(ls, start as int) {
                            assert(payload(ls[start + 1 + dup as int]) == tok@);
                            assert(payload(ls[i as int]) == tok@);
                            assert(false);
                        }
                    }
                    return Err(TokenizerError::MalformedVocabulary);
                },
                None => {},
            }
            if v.len() >= u32::MAX as usize {
                proof {
                    lemma_run_partial(ls, start + 1, i as int);
                    if vocab_shape_ok(ls, start as int) {
                        assert(token_run_end(ls, start + 1) - (start + 1) > u32::MAX);
                        assert(false);
                    }
                }
                return Err(TokenizerError::MalformedVocabulary);
            }
            v.add(tok);
            i = i + 1;
        }
        proof {
            lemma_token_run(ls, start + 1, i as int);
        }
        Ok((v, i))
    }


/// Make one token line.
fn make_token_line(t: &String) -> (r: String)
    ensures
        r@ == token_line(t@),
{
    let r = String::from_str("t").concat(t.as_str());
    proof {
        reveal_strlit("t");
        assert("t"@ =~= seq!['t']);
    }
    r
}

/// The serialized form of a WordPiece model: vocabulary, unknown token,
/// continuation marker, per-word length limit.
pub open spec fn wp_ser(m: WordPiece) -> Seq<Seq<char>> {
    seq!["vocab"@] + Seq::new(
        m.spec_vocab().strs().len(),
        |k: int| token_line(m.spec_vocab().strs()[k]),
    ) + seq![
        "unk"@,
        token_line(m.spec_vocab().strs()[m.spec_unk() as int]),
        "prefix"@,
        token_line(m.spec_prefix()),
        "maxlen"@,
        crate::serial::dec_digits(m.spec_max_input() as int),
    ]
}

/// The serialized form of a BPE model: vocabulary, the merge rules as
/// string pairs in rank order, and the unknown token when configured.
pub open spec fn bpe_ser(m: BPE) -> Seq<Seq<char>> {
    seq!["vocab"@] + Seq::new(
        m.spec_vocab().strs().len(),
        |k: int| token_line(m.spec_vocab().strs()[k]),
    ) + seq!["merges"@] + Seq::new(
        2 * m.spec_merges().len(),
        |k: int|
            if k % 2 == 0 {
                token_line(m.spec_vocab().strs()[m.spec_merges()[k / 2].0 as int])
            } else {
                token_line(m.spec_vocab().strs()[m.spec_merges()[k / 2].1 as int])
            },
    ) + match m.spec_unk() {
        None => Seq::<Seq<char>>::empty(),
        Some(u) => seq!["unk"@, token_line(m.spec_vocab().strs()[u as int])],
    }
}

/// The serialized form of a Unigram model: pieces with their scores, the
/// per-character unknown penalty, and the unknown id when configured.
pub open spec fn uni_ser(m: Unigram) -> Seq<Seq<char>> {
    seq!["pieces"@] + Seq::new(
        2 * m.spec_vocab().strs().len(),
        |k: int|
            if k % 2 == 0 {
                token_line(m.spec_vocab().strs()[k / 2])
            } else {
                dec_signed(m.spec_scores()[k / 2] as int)
            },
    ) + seq!["penalty"@, dec_signed(m.spec_unk_score() as int)] + match m.spec_unk() {
        None => Seq::<Seq<char>>::empty(),
        Some(u) => seq!["unkid"@, crate::serial::dec_digits(u as int)],
    }
}

/// Two Unigram models with identical persistent state.
pub open spec fn uni_equiv(a: Unigram, b: Unigram) -> bool {
    &&& a.spec_vocab().strs() == b.spec_vocab().strs()
    &&& a.spec_scores() == b.spec_scores()
    &&& a.spec_unk() == b.spec_unk()
    &&& a.spec_unk_score() == b.spec_unk_score()
}

/// Two word-level models that cannot be told apart.
pub open spec fn wl_equiv(a: WordLevel, b: WordLevel) -> bool {
    &&& a.spec_vocab().strs() == b.spec_vocab().strs()
    &&& a.spec_unk() == b.spec_unk()
}

/// Two BPE models with identical persistent state.
pub open spec fn bpe_equiv(a: BPE, b: BPE) -> bool {
    &&& a.spec_vocab().strs() == b.spec_vocab().strs()
    &&& a.spec_merges() == b.spec_merges()
    &&& a.spec_unk() == b.spec_unk()
}

/// Two WordPiece models that cannot be told apart.
pub open spec fn wp_equiv(a: WordPiece, b: WordPiece) -> bool {
    &&& a.spec_vocab().strs() == b.spec_vocab().strs()
    &&& a.spec_unk() == b.spec_unk()
    &&& a.spec_prefix() == b.spec_prefix()
    &&& a.spec_max_input() == b.spec_max_input()
}

/// Serialize the vocabulary section into `out`.
fn emit_vocab(out: &mut Vec<String>, pairs: &Vec<(String, u32)>)
    ensures
        final(out)@.len() == old(out)@.len() + 1 + pairs@.len(),
        final(out)@.map_values(|l: String| l@) =~= old(out)@.map_values(|l: String| l@) + seq![
            "vocab"@,
        ] + Seq::new(pairs@.len(), |k: int| token_line(pairs@[k].0@)),
{
    out.push(String::from_str("vocab"));
    let n = pairs.len();
    for i in 0..n
        invariant
            n == pairs@.len(),
            out@.len() == old(out)@.len() + 1 + i,
            out@.map_values(|l: String| l@) =~= old(out)@.map_values(|l: String| l@) + seq![
                "vocab"@,
            ] + Seq::new(i as nat, |k: int| token_line(pairs@[k].0@)),
    {
        let ghost prev = out@;
        out.push(make_token_line(&pairs[i].0));
        proof {
            assert(out@.map_values(|l: String| l@) =~= prev.map_values(|l: String| l@).push(
                token_line(pairs@[i as int].0@),
            ));
            assert(out@.map_values(|l: String| l@) =~= old(out)@.map_values(|l: String| l@)
                + seq!["vocab"@] + Seq::new((i + 1) as nat, |k: int| token_line(pairs@[k].0@)));
        }
    }
}

impl ModelWrapper {
    /// The serialized lines of the model: what the save operation hands
    /// the unverified shell to write, and what loading reads back.
    pub fn save(&self) -> (r: Vec<String>)
        requires
            self.wf(),
        ensures
            r@.map_values(|l: String| l@) == match *self {
                ModelWrapper::BPE(m) => bpe_ser(m),
                ModelWrapper::WordPiece(m) => wp_ser(m),
                ModelWrapper::WordLevel(m) => wl_ser(m),
                ModelWrapper::Unigram(m) => uni_ser(m),
            },
    {
        match self {
            ModelWrapper::WordLevel(m) => {
                let pairs = m.get_vocab();
                let mut out: Vec<String> = Vec::new();
                emit_vocab(&mut out, &pairs);
                proof {
                    assert(Seq::new(pairs@.len(), |k: int| token_line(pairs@[k].0@)) =~= Seq::new(
                        m.spec_vocab().strs().len(),
                        |k: int| token_line(m.spec_vocab().strs()[k]),
                    ));
                }
                match m.get_unk() {
                    Some(u) => {
                        let tok = match m.id_to_token(u) {
                            Some(t) => t,
                            None => {
                                proof {
                                    assert(false);
                                }
                                String::new()
                            },
                        };
                        out.push(String::from_str("unk"));
                        out.push(make_token_line(&tok));
                        proof {
                            assert(out@.map_values(|l: String| l@) =~= wl_ser(*m));
                        }
                        out
                    },
                    None => {
                        proof {
                            assert(out@.map_values(|l: String| l@) =~= wl_ser(*m));
                        }
                        out
                    },
                }
            },
            ModelWrapper::WordPiece(m) => {
                let pairs = m.get_vocab();
                let mut out: Vec<String> = Vec::new();
                emit_vocab(&mut out, &pairs);
                proof {
                    assert(Seq::new(pairs@.len(), |k: int| token_line(pairs@[k].0@)) =~= Seq::new(
                        m.spec_vocab().strs().len(),
                        |k: int| token_line(m.spec_vocab().strs()[k]),
                    ));
                }
                let u = m.get_unk();
                let tok = match m.id_to_token(u) {
                    Some(t) => t,
                    None => {
                        proof {
                            assert(false);
                        }
                        String::new()
                    },
                };
                out.push(String::from_str("unk"));
                out.push(make_token_line(&tok));
                out.push(String::from_str("prefix"));
                let pre = m.get_prefix();
                out.push(make_token_line(&pre));
                out.push(String::from_str("maxlen"));
                out.push(fmt_u64(m.get_max_input() as u64));
                proof {
                    assert(out@.map_values(|l: String| l@) =~= wp_ser(*m));
                }
                out
            },
            ModelWrapper::BPE(m) => {
                let pairs = m.get_vocab();
                let mut out: Vec<String> = Vec::new();
                emit_vocab(&mut out, &pairs);
                proof {
                    assert(Seq::new(pairs@.len(), |k: int| token_line(pairs@[k].0@)) =~= Seq::new(
                        m.spec_vocab().strs().len(),
                        |k: int| token_line(m.spec_vocab().strs()[k]),
                    ));
                }
                out.push(String::from_str("merges"));
                let merges = m.get_merges();
                let nm = merges.len();
                let ghost base = out@.map_values(|l: String| l@);
                for i in 0..nm
                    invariant
                        nm == merges@.len(),
                        merges@ == m.spec_merges(),
                        m.wf(),
                        base == seq!["vocab"@] + Seq::new(
                            m.spec_vocab().strs().len(),
                            |k: int| token_line(m.spec_vocab().strs()[k]),
                        ) + seq!["merges"@],
                        out@.map_values(|l: String| l@) =~= base + Seq::new(
                            (2 * i) as nat,
                            |k: int|
                                if k % 2 == 0 {
                                    token_line(
                                        m.spec_vocab().strs()[m.spec_merges()[k / 2].0 as int],
                                    )
                                } else {
                                    token_line(
                                        m.spec_vocab().strs()[m.spec_merges()[k / 2].1 as int],
                                    )
                                },
                        ),
                {
                    let mg = merges[i];
                    let lt = match m.id_to_token(mg.0) {
                        Some(t) => t,
                        None => {
                            proof {
                                assert(false);
                            }
                            String::new()
                        },
                    };
                    let rt = match m.id_to_token(mg.1) {
                        Some(t) => t,
                        None => {
                            proof {
                                assert(false);
                            }
                            String::new()
                        },
                    };
                    let ghost prev = out@;
                    out.push(make_token_line(&lt));
                    let ghost prev2 = out@;
                    out.push(make_token_line(&rt));
                    proof {
                        assert(prev2.map_values(|l: String| l@) =~= prev.map_values(
                            |l: String| l@,
                        ).push(token_line(m.spec_vocab().strs()[mg.0 as int])));
                        assert(out@.map_values(|l: String| l@) =~= prev2.map_values(
                            |l: String| l@,
                        ).push(token_line(m.spec_vocab().strs()[mg.1 as int])));
                        assert(out@.map_values(|l: String| l@) =~= base + Seq::new(
                            (2 * (i + 1)) as nat,
                            |k: int|
                                if k % 2 == 0 {
                                    token_line(
                                        m.spec_vocab().strs()[m.spec_merges()[k / 2].0 as int],
                                    )
                                } else {
                                    token_line(
                                        m.spec_vocab().strs()[m.spec_merges()[k / 2].1 as int],
                                    )
                                },
                        ));
                    }
                }
                match m.get_unk() {
                    Some(u) => {
                        let tok = match m.id_to_token(u) {
                            Some(t) => t,
                            None => {
                                proof {
                                    assert(false);
                                }
                                String::new()
                            },
                        };
                        out.push(String::from_str("unk"));
                        out.push(make_token_line(&tok));
                        proof {
                            assert(out@.map_values(|l: String| l@) =~= bpe_ser(*m));
                        }
                        out
                    },
                    None => {
                        proof {
                            assert(out@.map_values(|l: String| l@) =~= bpe_ser(*m));
                        }
                        out
                    },
                }
            },
            ModelWrapper::Unigram(m) => {
                let pairs = m.get_vocab();
                let mut out: Vec<String> = Vec::new();
                out.push(String::from_str("pieces"));
                let np = pairs.len();
                let ghost base = seq!["pieces"@];
                proof {
                    assert(out@.map_values(|l: String| l@) =~= base);
                }
                for i in 0..np
                    invariant
                        np == pairs@.len(),
                        m.wf(),
                        np == m.spec_vocab().strs().len(),
                        forall|k: int| #![trigger pairs@[k]]
                            0 <= k < np ==> pairs@[k].0@ == m.spec_vocab().strs()[k] && pairs@[k].1
                                == k,
                        base == seq!["pieces"@],
                        out@.map_values(|l: String| l@) =~= base + Seq::new(
                            (2 * i) as nat,
                            |k: int|
                                if k % 2 == 0 {
                                    token_line(m.spec_vocab().strs()[k / 2])
                                } else {
                                    dec_signed(m.spec_scores()[k / 2] as int)
                                },
                        ),
                {
                    let ghost prev = out@;
                    out.push(make_token_line(&pairs[i].0));
                    let sc = match m.get_score(pairs[i].1) {
                        Some(v) => v,
                        None => {
                            proof {
                                assert(false);
                            }
                            0
                        },
                    };
                    let ghost prev2 = out@;
                    out.push(fmt_i64(sc));
                    proof {
                        assert(prev2.map_values(|l: String| l@) =~= prev.map_values(
                            |l: String| l@,
                        ).push(token_line(m.spec_vocab().strs()[i as int])));
                        assert(out@.map_values(|l: String| l@) =~= prev2.map_values(
                            |l: String| l@,
                        ).push(dec_signed(m.spec_scores()[i as int] as int)));
                        assert(out@.map_values(|l: String| l@) =~= base + Seq::new(
                            (2 * (i + 1)) as nat,
                            |k: int|
                                if k % 2 == 0 {
                                    token_line(m.spec_vocab().strs()[k / 2])
                                } else {
                                    dec_signed(m.spec_scores()[k / 2] as int)
                                },
                        ));
                    }
                }
                out.push(String::from_str("penalty"));
                out.push(fmt_i64(m.get_unk_score()));
                match m.get_unk() {
                    Some(u) => {
                        out.push(String::from_str("unkid"));
                        out.push(fmt_u64(u as u64));
                        proof {
                            assert(out@.map_values(|l: String| l@) =~= uni_ser(*m));
                        }
                        out
                    },
                    None => {
                        proof {
                            assert(out@.map_values(|l: String| l@) =~= uni_ser(*m));
                        }
                        out
                    },
                }
            },
        }
    }
}


/// Attempt the BPE shape: vocabulary, `merges` with string pairs, then
/// optionally the unknown token.
#[verifier::rlimit(100)]
fn bpe_parse(lines: &Vec<String>) -> (r: Result<BPE, TokenizerError>)
    ensures
        match r {
            Ok(m) => m.wf() && (exists|i: int|
                0 <= i < lines@.len() && #[trigger] lines@[i]@ == "merges"@),
            Err(e) => e == TokenizerError::MalformedVocabulary,
        },
        forall|m: BPE|
            m.wf() && lines@.map_values(|l: String| l@) == bpe_ser(m) ==> r is Ok && bpe_equiv(
                r.unwrap(),
                m,
            ),
{
    let ghost ls = lines@.map_values(|l: String| l@);
    proof {
        reveal_strlit("vocab");
        reveal_strlit("merges");
        assert forall|m: BPE| m.wf() && ls == bpe_ser(m) implies vocab_shape_ok(ls, 0) && ls.len()
            == 2 + m.spec_vocab().strs().len() + 2 * m.spec_merges().len() + (
        if m.spec_unk() is Some {
            2int
        } else {
            0int
        }) by {
            let llen = m.spec_vocab().strs().len() as int;
            assert(ls[0] == "vocab"@);
            assert(forall|k: int| 0 <= k < llen ==> is_token_line(#[trigger] ls[1 + k]));
            assert(ls[1 + llen] == "merges"@);
            assert(("merges"@)[0] == 'm');
            assert(!is_token_line(ls[1 + llen]));
            lemma_token_run(ls, 1, 1 + llen);
            assert forall|k1: int, k2: int| 1 <= k1 < k2 < 1 + llen implies payload(ls[k1])
                != payload(ls[k2]) by {
                assert(payload(ls[k1]) =~= m.spec_vocab().strs()[k1 - 1]);
                assert(payload(ls[k2]) =~= m.spec_vocab().strs()[k2 - 1]);
            }
        }
    }
    let (v, next) = match parse_vocab_section(lines, 0) {
        Ok(p) => p,
        Err(_) => {
            return Err(TokenizerError::MalformedVocabulary);
        },
    };
    proof {
        reveal_strlit("merges");
        assert forall|m: BPE| m.wf() && ls == bpe_ser(m) implies v.strs()
            == m.spec_vocab().strs() && next == 1 + m.spec_vocab().strs().len() by {
            let llen = m.spec_vocab().strs().len() as int;
            assert(!is_token_line(ls[1 + llen]));
            lemma_token_run(ls, 1, 1 + llen);
            assert forall|k: int| 0 <= k < v.strs().len() implies v.strs()[k]
                == m.spec_vocab().strs()[k] by {
                assert(payload(ls[1 + k]) =~= m.spec_vocab().strs()[k]);
            }
            assert(v.strs() =~= m.spec_vocab().strs());
        }
    }
    let n = lines.len();
    if next >= n {
        proof {
            assert forall|m: BPE| m.wf() && ls == #[trigger] bpe_ser(m) implies false by {
                assert(ls[next as int] == "merges"@);
            }
        }
        return Err(TokenizerError::MalformedVocabulary);
    }
    let merges_header = String::from_str("merges");
    if !(lines[next] == merges_header) {
        proof {
            assert forall|m: BPE| m.wf() && ls == #[trigger] bpe_ser(m) implies false by {
                assert(ls[next as int] == "merges"@);
            }
        }
        return Err(TokenizerError::MalformedVocabulary);
    }
    let ghost merges_at = next as int;
    let mut merges: Vec<Merge> = Vec::new();
    let mut i = next + 1;
    loop
        invariant
            n == lines@.len(),
            ls == lines@.map_values(|l: String| l@),
            v.wf(),
            next + 1 <= i <= n,
            0 <= merges_at < n,
            lines@[merges_at]@ == "merges"@,
            forall|k: int| #![trigger merges@[k]]
                0 <= k < merges@.len() ==> {
                    &&& merges@[k].0 < v.strs().len()
                    &&& merges@[k].1 < v.strs().len()
                    &&& merges@[k].2 < v.strs().len()
                    &&& v.strs()[merges@[k].2 as int] == v.strs()[merges@[k].0 as int]
                        + v.strs()[merges@[k].1 as int]
                },
            (i - next - 1) % 2 == 0,
            merges@.len() == (i - next - 1) / 2,
            forall|m: BPE| #![trigger bpe_ser(m)]
                m.wf() && ls == bpe_ser(m) ==> {
                    &&& v.strs() == m.spec_vocab().strs()
                    &&& next == 1 + m.spec_vocab().strs().len()
                    &&& ls.len() == 2 + m.spec_vocab().strs().len() + 2 * m.spec_merges().len()
                        + (if m.spec_unk() is Some {
                        2int
                    } else {
                        0int
                    })
                    &&& (i - next - 1) / 2 <= m.spec_merges().len()
                    &&& merges@ == m.spec_merges().subrange(0, (i - next - 1) / 2)
                },
        ensures
            n == lines@.len(),
            ls == lines@.map_values(|l: String| l@),
            v.wf(),
            next + 1 <= i <= n,
            0 <= merges_at < n,
            lines@[merges_at]@ == "merges"@,
            forall|k: int| #![trigger merges@[k]]
                0 <= k < merges@.len() ==> {
                    &&& merges@[k].0 < v.strs().len()
                    &&& merges@[k].1 < v.strs().len()
                    &&& merges@[k].2 < v.strs().len()
                    &&& v.strs()[merges@[k].2 as int] == v.strs()[merges@[k].0 as int]
                        + v.strs()[merges@[k].1 as int]
                },
            forall|m: BPE| #![trigger bpe_ser(m)]
                m.wf() && ls == bpe_ser(m) ==> {
                    &&& v.strs() == m.spec_vocab().strs()
                    &&& next == 1 + m.spec_vocab().strs().len()
                    &&& merges@ == m.spec_merges()
                    &&& i == next + 1 + 2 * m.spec_merges().len()
                    &&& ls.len() == i + (if m.spec_unk() is Some {
                        2int
                    } else {
                        0int
                    })
                },
        decreases n - i,
    {
        if i >= n {
            proof {
                reveal_strlit("unk");
                assert forall|m: BPE| m.wf() && ls == #[trigger] bpe_ser(m) implies merges@
                    == m.spec_merges() && i == next + 1 + 2 * m.spec_merges().len() && ls.len()
                    == i + (if m.spec_unk() is Some {
                    2int
                } else {
                    0int
                }) by {
                    let mlen = m.spec_merges().len() as int;
                    let k = (i - next - 1) / 2;
                    if k < mlen {
                        assert(ls[i as int] == token_line(
                            m.spec_vocab().strs()[m.spec_merges()[k].0 as int],
                        ));
                        assert(i < ls.len());
                        assert(false);
                    }
                    assert(m.spec_merges().subrange(0, mlen) =~= m.spec_merges());
                }
            }
            break;
        }
        let line = &lines[i];
        let ln = line.as_str().unicode_len();
        if !(ln >= 1 && line.as_str().get_char(0) == 't') {
            proof {
                assert forall|m: BPE| m.wf() && ls == #[trigger] bpe_ser(m) implies merges@
                    == m.spec_merges() && i == next + 1 + 2 * m.spec_merges().len() && ls.len()
                    == i + (if m.spec_unk() is Some {
                    2int
                } else {
                    0int
                }) by {
                    let mlen = m.spec_merges().len() as int;
                    let k = (i - next - 1) / 2;
                    if k < mlen {
                        assert(ls[i as int] == token_line(
                            m.spec_vocab().strs()[m.spec_merges()[k].0 as int],
                        ));
                        assert(is_token_line(ls[i as int]));
                        assert(false);
                    }
                    assert(m.spec_merges().subrange(0, mlen) =~= m.spec_merges());
                }
            }
            break;
        }
        proof {
            assert forall|m: BPE| m.wf() && ls == #[trigger] bpe_ser(m) implies (i - next - 1) / 2
                < m.spec_merges().len() by {
                reveal_strlit("unk");
                let mlen = m.spec_merges().len() as int;
                let k = (i - next - 1) / 2;
                if k >= mlen {
                    assert(i == next + 1 + 2 * mlen);
                    if m.spec_unk() is Some {
                        assert(ls[i as int] == "unk"@);
                        assert(("unk"@)[0] == 'u');
                        assert(!is_token_line(ls[i as int]));
                    } else {
                        assert(i >= ls.len());
                    }
                    assert(false);
                }
            }
        }
        if i + 1 >= n {
            proof {
                assert forall|m: BPE| m.wf() && ls == #[trigger] bpe_ser(m) implies false by {
                    let k = (i - next - 1) / 2;
                    assert(ls[i + 1] == token_line(
                        m.spec_vocab().strs()[m.spec_merges()[k].1 as int],
                    ));
                    assert(i + 1 < ls.len());
                }
            }
            return Err(TokenizerError::MalformedVocabulary);
        }
        let line2 = &lines[i + 1];
        let ln2 = line2.as_str().unicode_len();
        if !(ln2 >= 1 && line2.as_str().get_char(0) == 't') {
            proof {
                assert forall|m: BPE| m.wf() && ls == #[trigger] bpe_ser(m) implies false by {
                    let k = (i - next - 1) / 2;
                    assert(ls[i + 1] == token_line(
                        m.spec_vocab().strs()[m.spec_merges()[k].1 as int],
                    ));
                    assert(is_token_line(ls[i + 1]));
                }
            }
            return Err(TokenizerError::MalformedVocabulary);
        }
        let lt = line.as_str().substring_char(1, ln).to_owned();
        let rt = line2.as_str().substring_char(1, ln2).to_owned();
        proof {
            assert(lt@ =~= payload(ls[i as int]));
            assert(rt@ =~= payload(ls[i + 1]));
        }
        let a = match v.token_to_id(&lt) {
            Some(a) => a,
            None => {
                proof {
                    assert forall|m: BPE| m.wf() && ls == #[trigger] bpe_ser(m) implies false by {
                        let k = (i - next - 1) / 2;
                        assert(ls[i as int] == token_line(
                            m.spec_vocab().strs()[m.spec_merges()[k].0 as int],
                        ));
                        assert(lt@ =~= m.spec_vocab().strs()[m.spec_merges()[k].0 as int]);
                        assert(v.strs()[m.spec_merges()[k].0 as int] == lt@);
                    }
                }
                return Err(TokenizerError::MalformedVocabulary);
            },
        };
        let b = match v.token_to_id(&rt) {
            Some(b) => b,
            None => {
                proof {
                    assert forall|m: BPE| m.wf() && ls == #[trigger] bpe_ser(m) implies false by {
                        let k = (i - next - 1) / 2;
                        assert(ls[i + 1] == token_line(
                            m.spec_vocab().strs()[m.spec_merges()[k].1 as int],
                        ));
                        assert(rt@ =~= m.spec_vocab().strs()[m.spec_merges()[k].1 as int]);
                        assert(v.strs()[m.spec_merges()[k].1 as int] == rt@);
                    }
                }
                return Err(TokenizerError::MalformedVocabulary);
            },
        };
        let joined = lt.concat(rt.as_str());
        let nid = match v.token_to_id(&joined) {
            Some(c) => c,
            None => {
                proof {
                    assert forall|m: BPE| m.wf() && ls == #[trigger] bpe_ser(m) implies false by {
                        let k = (i - next - 1) / 2;
                        assert(lt@ =~= m.spec_vocab().strs()[m.spec_merges()[k].0 as int]);
                        assert(rt@ =~= m.spec_vocab().strs()[m.spec_merges()[k].1 as int]);
                        assert(joined@ == m.spec_vocab().strs()[m.spec_merges()[k].2 as int]);
                        assert(v.strs()[m.spec_merges()[k].2 as int] == joined@);
                    }
                }
                return Err(TokenizerError::MalformedVocabulary);
            },
        };
        merges.push((a, b, nid));
        proof {
            assert forall|m: BPE| m.wf() && ls == #[trigger] bpe_ser(m) implies merges@
                == m.spec_merges().subrange(0, (i + 2 - next - 1) / 2) by {
                let k = (i - next - 1) / 2;
                assert(lt@ =~= m.spec_vocab().strs()[m.spec_merges()[k].0 as int]);
                assert(v.strs()[a as int] == v.strs()[m.spec_merges()[k].0 as int]);
                v.lemma_id_unique(a as int, m.spec_merges()[k].0 as int);
                assert(rt@ =~= m.spec_vocab().strs()[m.spec_merges()[k].1 as int]);
                assert(v.strs()[b as int] == v.strs()[m.spec_merges()[k].1 as int]);
                v.lemma_id_unique(b as int, m.spec_merges()[k].1 as int);
                assert(joined@ == m.spec_vocab().strs()[m.spec_merges()[k].2 as int]);
                assert(v.strs()[nid as int] == v.strs()[m.spec_merges()[k].2 as int]);
                v.lemma_id_unique(nid as int, m.spec_merges()[k].2 as int);
                assert((a, b, nid) == m.spec_merges()[k]);
                assert(merges@ =~= m.spec_merges().subrange(0, k + 1));
            }
        }
        i = i + 2;
    }
    let unk: Option<u32> = if i < n {
        let unk_header = String::from_str("unk");
        if lines[i] == unk_header {
            if i + 1 >= n {
                proof {
                    assert forall|m: BPE| m.wf() && ls == #[trigger] bpe_ser(m) implies false by {
                        reveal_strlit("unk");
                        if m.spec_unk() is None {
                            assert(ls.len() == i as int);
                        }
                    }
                }
                return Err(TokenizerError::MalformedVocabulary);
            }
            let line = &lines[i + 1];
            let ln = line.as_str().unicode_len();
            if !(ln >= 1 && line.as_str().get_char(0) == 't') {
                proof {
                    assert forall|m: BPE| m.wf() && ls == #[trigger] bpe_ser(m) implies false by {
                        if m.spec_unk() is Some {
                            assert(ls[i + 1] == token_line(
                                m.spec_vocab().strs()[m.spec_unk().unwrap() as int],
                            ));
                            assert(is_token_line(ls[i + 1]));
                        } else {
                            assert(ls.len() == i as int);
                        }
                    }
                }
                return Err(TokenizerError::MalformedVocabulary);
            }
            let tok = line.as_str().substring_char(1, ln).to_owned();
            proof {
                assert(tok@ =~= payload(ls[i + 1]));
            }
            match v.token_to_id(&tok) {
                Some(u) => Some(u),
                None => {
                    proof {
                        assert forall|m: BPE| m.wf() && ls == #[trigger] bpe_ser(m) implies false by {
                            if m.spec_unk() is Some {
                                let mu = m.spec_unk().unwrap();
                                assert(ls[i + 1] == token_line(
                                    m.spec_vocab().strs()[mu as int],
                                ));
                                assert(tok@ =~= m.spec_vocab().strs()[mu as int]);
                                assert(v.strs()[mu as int] == tok@);
                            } else {
                                assert(ls.len() == i as int);
                            }
                        }
                    }
                    return Err(TokenizerError::MalformedVocabulary);
                },
            }
        } else {
            None
        }
    } else {
        None
    };
    let out = BPE::new(v, merges, unk, DEFAULT_CACHE_CAPACITY);
    proof {
        reveal_strlit("unk");
        assert forall|m: BPE| m.wf() && ls == #[trigger] bpe_ser(m) implies bpe_equiv(out, m) by {
            if m.spec_unk() is Some {
                let mu = m.spec_unk().unwrap();
                assert(ls[i as int] == "unk"@);
                assert(ls[i + 1] == token_line(m.spec_vocab().strs()[mu as int]));
                assert(unk is Some);
                let u = unk.unwrap();
                assert(v.strs()[u as int] == payload(ls[i + 1]));
                assert(v.strs()[u as int] == v.strs()[mu as int]);
                v.lemma_id_unique(u as int, mu as int);
            } else {
                assert(ls.len() == i as int);
                assert(unk is None);
            }
        }
    }
    Ok(out)
}

/// A signed numeral starts with a minus sign or a digit, never a letter.
proof fn lemma_signed_first(v: int)
    ensures
        dec_signed(v).len() >= 1,
        dec_signed(v)[0] == '-' || ('0' <= dec_signed(v)[0] && dec_signed(v)[0] <= '9'),
{
    if v < 0 {
        crate::serial::lemma_dec_digits_first(-v);
    } else {
        crate::serial::lemma_dec_digits_first(v);
    }
}

/// Attempt the WordPiece shape: vocabulary, unknown token, continuation
/// marker, per-word length limit — all fields required.
fn wp_parse(lines: &Vec<String>) -> (r: Result<WordPiece, TokenizerError>)
    ensures
        match r {
            Ok(m) => m.wf() && (exists|i: int|
                0 <= i < lines@.len() && #[trigger] lines@[i]@ == "prefix"@),
            Err(e) => e == TokenizerError::MalformedVocabulary,
        },
        forall|m: WordPiece|
            m.wf() && lines@.map_values(|l: String| l@) == wp_ser(m) ==> r is Ok && wp_equiv(
                r.unwrap(),
                m,
            ),
{
    let ghost ls = lines@.map_values(|l: String| l@);
    proof {
        reveal_strlit("vocab");
        reveal_strlit("unk");
        reveal_strlit("prefix");
        reveal_strlit("maxlen");
        assert forall|m: WordPiece| m.wf() && ls == wp_ser(m) implies vocab_shape_ok(ls, 0)
            && ls.len() == 7 + m.spec_vocab().strs().len() by {
            let llen = m.spec_vocab().strs().len() as int;
            assert(ls[0] == "vocab"@);
            assert(forall|k: int| 0 <= k < llen ==> is_token_line(#[trigger] ls[1 + k]));
            assert(ls[1 + llen] == "unk"@);
            assert(!is_token_line(ls[1 + llen]));
            lemma_token_run(ls, 1, 1 + llen);
            assert forall|k1: int, k2: int| 1 <= k1 < k2 < 1 + llen implies payload(ls[k1])
                != payload(ls[k2]) by {
                assert(payload(ls[k1]) =~= m.spec_vocab().strs()[k1 - 1]);
                assert(payload(ls[k2]) =~= m.spec_vocab().strs()[k2 - 1]);
            }
        }
    }
    let (v, next) = match parse_vocab_section(lines, 0) {
        Ok(p) => p,
        Err(_) => {
            return Err(TokenizerError::MalformedVocabulary);
        },
    };
    proof {
        reveal_strlit("unk");
        assert forall|m: WordPiece| m.wf() && ls == wp_ser(m) implies v.strs()
            == m.spec_vocab().strs() && next == 1 + m.spec_vocab().strs().len() by {
            let llen = m.spec_vocab().strs().len() as int;
            assert(!is_token_line(ls[1 + llen]));
            lemma_token_run(ls, 1, 1 + llen);
            assert forall|k: int| 0 <= k < v.strs().len() implies v.strs()[k]
                == m.spec_vocab().strs()[k] by {
                assert(payload(ls[1 + k]) =~= m.spec_vocab().strs()[k]);
            }
            assert(v.strs() =~= m.spec_vocab().strs());
        }
    }
    let n = lines.len();
    if n - next < 6 {
        proof {
            assert forall|m: WordPiece| m.wf() && ls == wp_ser(m) implies false by {
                assert(ls.len() == 7 + m.spec_vocab().strs().len());
            }
        }
        return Err(TokenizerError::MalformedVocabulary);
    }
    let unk_header = String::from_str("unk");
    if !(lines[next] == unk_header) {
        proof {
            assert forall|m: WordPiece| m.wf() && ls == wp_ser(m) implies false by {
                assert(ls[next as int] == "unk"@);
            }
        }
        return Err(TokenizerError::MalformedVocabulary);
    }
    let uline = &lines[next + 1];
    let un = uline.as_str().unicode_len();
    if !(un >= 1 && uline.as_str().get_char(0) == 't') {
        proof {
            assert forall|m: WordPiece| m.wf() && ls == wp_ser(m) implies false by {
                assert(ls[next + 1] == token_line(
                    m.spec_vocab().strs()[m.spec_unk() as int],
                ));
                assert(is_token_line(ls[next + 1]));
            }
        }
        return Err(TokenizerError::MalformedVocabulary);
    }
    let utok = uline.as_str().substring_char(1, un).to_owned();
    proof {
        assert(utok@ =~= payload(ls[next + 1]));
    }
    let unk = match v.token_to_id(&utok) {
        Some(u) => u,
        None => {
            proof {
                assert forall|m: WordPiece| m.wf() && ls == wp_ser(m) implies false by {
                    let mu = m.spec_unk();
                    assert(payload(ls[next + 1]) =~= m.spec_vocab().strs()[mu as int]);
                    assert(v.strs()[mu as int] == m.spec_vocab().strs()[mu as int]);
                }
            }
            return Err(TokenizerError::MalformedVocabulary);
        },
    };
    let prefix_header = String::from_str("prefix");
    if !(lines[next + 2] == prefix_header) {
        proof {
            assert forall|m: WordPiece| m.wf() && ls == wp_ser(m) implies false by {
                assert(ls[next + 2] == "prefix"@);
            }
        }
        return Err(TokenizerError::MalformedVocabulary);
    }
    let ghost prefix_at = next + 2;
    let pline = &lines[next + 3];
    let pn = pline.as_str().unicode_len();
    if !(pn >= 1 && pline.as_str().get_char(0) == 't') {
        proof {
            assert forall|m: WordPiece| m.wf() && ls == wp_ser(m) implies false by {
                assert(ls[next + 3] == token_line(m.spec_prefix()));
                assert(is_token_line(ls[next + 3]));
            }
        }
        return Err(TokenizerError::MalformedVocabulary);
    }
    let prefix = pline.as_str().substring_char(1, pn).to_owned();
    let maxlen_header = String::from_str("maxlen");
    if !(lines[next + 4] == maxlen_header) {
        proof {
            assert forall|m: WordPiece| m.wf() && ls == wp_ser(m) implies false by {
                assert(ls[next + 4] == "maxlen"@);
            }
        }
        return Err(TokenizerError::MalformedVocabulary);
    }
    let max_input = match parse_u64(&lines[next + 5]) {
        Some(x) => {
            if x > usize::MAX as u64 {
                proof {
                    assert forall|m: WordPiece| m.wf() && ls == wp_ser(m) implies false by {
                        assert(ls[next + 5] == crate::serial::dec_digits(
                            m.spec_max_input() as int,
                        ));
                        crate::serial::lemma_dec_roundtrip(m.spec_max_input() as u64);
                    }
                }
                return Err(TokenizerError::MalformedVocabulary);
            }
            x as usize
        },
        None => {
            proof {
                assert forall|m: WordPiece| m.wf() && ls == wp_ser(m) implies false by {
                    assert(ls[next + 5] == crate::serial::dec_digits(
                        m.spec_max_input() as int,
                    ));
                    crate::serial::lemma_dec_roundtrip(m.spec_max_input() as u64);
                }
            }
            return Err(TokenizerError::MalformedVocabulary);
        },
    };
    proof {
        assert(lines@[prefix_at as int]@ == "prefix"@);
    }
    let out = WordPiece::new(v, unk, prefix, max_input);
    proof {
        assert forall|m: WordPiece| m.wf() && ls == wp_ser(m) implies wp_equiv(out, m) by {
            let mu = m.spec_unk();
            assert(payload(ls[next + 1]) =~= m.spec_vocab().strs()[mu as int]);
            assert(v.strs()[unk as int] == v.strs()[mu as int]);
            v.lemma_id_unique(unk as int, mu as int);
            assert(ls[next + 3] == token_line(m.spec_prefix()));
            assert(prefix@ =~= m.spec_prefix());
            assert(ls[next + 5] == crate::serial::dec_digits(m.spec_max_input() as int));
            crate::serial::lemma_dec_roundtrip(m.spec_max_input() as u64);
        }
    }
    Ok(out)
}

/// Attempt the WordLevel shape: a vocabulary and optionally the unknown
/// token; trailing sections are tolerated (this is why WordPiece must be
/// attempted first).
fn wl_parse(lines: &Vec<String>) -> (r: Result<WordLevel, TokenizerError>)
    ensures
        match r {
            Ok(m) => m.wf() && lines@.len() > 0 && lines@[0]@ == "vocab"@,
            Err(e) => e == TokenizerError::MalformedVocabulary,
        },
        forall|m: WordLevel|
            m.wf() && lines@.map_values(|l: String| l@) == wl_ser(m) ==> r is Ok && wl_equiv(
                r.unwrap(),
                m,
            ),
{
    let ghost ls = lines@.map_values(|l: String| l@);
    proof {
        reveal_strlit("vocab");
        reveal_strlit("unk");
        assert forall|m: WordLevel| m.wf() && ls == wl_ser(m) implies vocab_shape_ok(ls, 0) by {
            let llen = m.spec_vocab().strs().len() as int;
            assert(ls[0] == "vocab"@);
            assert(forall|k: int| 0 <= k < llen ==> is_token_line(#[trigger] ls[1 + k]));
            if m.spec_unk() is Some {
                assert(ls[1 + llen] == "unk"@);
                assert(!is_token_line(ls[1 + llen]));
            }
            lemma_token_run(ls, 1, 1 + llen);
            assert forall|k1: int, k2: int| 1 <= k1 < k2 < 1 + llen implies payload(ls[k1])
                != payload(ls[k2]) by {
                assert(payload(ls[k1]) =~= m.spec_vocab().strs()[k1 - 1]);
                assert(payload(ls[k2]) =~= m.spec_vocab().strs()[k2 - 1]);
            }
        }
    }
    let (v, next) = match parse_vocab_section(lines, 0) {
        Ok(p) => p,
        Err(_) => {
            return Err(TokenizerError::MalformedVocabulary);
        },
    };
    proof {
        assert forall|m: WordLevel| m.wf() && ls == wl_ser(m) implies v.strs()
            == m.spec_vocab().strs() && next == 1 + m.spec_vocab().strs().len() by {
            let llen = m.spec_vocab().strs().len() as int;
            if m.spec_unk() is Some {
                assert(!is_token_line(ls[1 + llen]));
            }
            lemma_token_run(ls, 1, 1 + llen);
            assert forall|k: int| 0 <= k < v.strs().len() implies v.strs()[k]
                == m.spec_vocab().strs()[k] by {
                assert(payload(ls[1 + k]) =~= m.spec_vocab().strs()[k]);
            }
            assert(v.strs() =~= m.spec_vocab().strs());
        }
    }
    let n = lines.len();
    if next < n {
        let unk_header = String::from_str("unk");
        if lines[next] == unk_header {
            if next + 1 >= n {
                proof {
                    assert forall|m: WordLevel| m.wf() && ls == wl_ser(m) implies false by {
                        assert(m.spec_unk() is Some);
                    }
                }
                return Err(TokenizerError::MalformedVocabulary);
            }
            let line = &lines[next + 1];
            let ln = line.as_str().unicode_len();
            if !(ln >= 1 && line.as_str().get_char(0) == 't') {
                proof {
                    assert forall|m: WordLevel| m.wf() && ls == wl_ser(m) implies false by {
                        assert(m.spec_unk() is Some);
                        assert(is_token_line(ls[next + 1]));
                    }
                }
                return Err(TokenizerError::MalformedVocabulary);
            }
            let tok = line.as_str().substring_char(1, ln).to_owned();
            proof {
                assert(tok@ =~= payload(ls[next + 1]));
            }
            match v.token_to_id(&tok) {
                Some(u) => {
                    let out = WordLevel::new(v, Some(u));
                    proof {
                        assert forall|m: WordLevel| m.wf() && ls == wl_ser(m) implies wl_equiv(
                            out,
                            m,
                        ) by {
                            let mu = m.spec_unk().unwrap();
                            assert(payload(ls[next + 1]) =~= m.spec_vocab().strs()[mu as int]);
                            assert(v.strs()[u as int] == v.strs()[mu as int]);
                            v.lemma_id_unique(u as int, mu as int);
                        }
                    }
                    return Ok(out);
                },
                None => {
                    proof {
                        assert forall|m: WordLevel| m.wf() && ls == wl_ser(m) implies false by {
                            let mu = m.spec_unk().unwrap();
                            assert(payload(ls[next + 1]) =~= m.spec_vocab().strs()[mu as int]);
                            assert(v.strs()[mu as int] == m.spec_vocab().strs()[mu as int]);
                        }
                    }
                    return Err(TokenizerError::MalformedVocabulary);
                },
            }
        }
    }
    let out = WordLevel::new(v, None);
    proof {
        reveal_strlit("unk");
        assert forall|m: WordLevel| m.wf() && ls == wl_ser(m) implies wl_equiv(out, m) by {
            if m.spec_unk() is Some {
                assert(ls[next as int] == "unk"@);
                assert(false);
            }
        }
    }
    Ok(out)
}

/// Attempt the Unigram shape: pieces with scores, optionally the unknown
/// id.
#[verifier::rlimit(100)]
fn uni_parse(lines: &Vec<String>) -> (r: Result<Unigram, TokenizerError>)
    ensures
        match r {
            Ok(m) => m.wf(),
            Err(e) => e == TokenizerError::MalformedVocabulary,
        },
        forall|m: Unigram|
            m.wf() && lines@.map_values(|l: String| l@) == uni_ser(m) ==> r is Ok && uni_equiv(
                r.unwrap(),
                m,
            ),
{
    let ghost ls = lines@.map_values(|l: String| l@);
    proof {
        reveal_strlit("pieces");
        reveal_strlit("penalty");
        assert forall|m: Unigram| m.wf() && ls == #[trigger] uni_ser(m) implies ls[0] == "pieces"@
            && ls.len() == 3 + 2 * m.spec_vocab().strs().len() + (if m.spec_unk() is Some {
            2int
        } else {
            0int
        }) by {}
    }
    let n = lines.len();
    if n == 0 {
        return Err(TokenizerError::MalformedVocabulary);
    }
    let pieces_header = String::from_str("pieces");
    if !(lines[0] == pieces_header) {
        return Err(TokenizerError::MalformedVocabulary);
    }
    let mut v = Vocabulary::new();
    let mut scores: Vec<i64> = Vec::new();
    let mut i: usize = 1;
    loop
        invariant
            n == lines@.len(),
            ls == lines@.map_values(|l: String| l@),
            1 <= i <= n,
            v.wf(),
            scores@.len() == v.strs().len(),
            forall|k: int|
                0 <= k < scores@.len() ==> MIN_PIECE_SCORE <= #[trigger] scores@[k] <= 0,
            (i - 1) % 2 == 0,
            v.strs().len() == (i - 1) / 2,
            forall|m: Unigram| #![trigger uni_ser(m)]
                m.wf() && ls == uni_ser(m) ==> {
                    &&& (i - 1) / 2 <= m.spec_vocab().strs().len()
                    &&& v.strs() == m.spec_vocab().strs().subrange(0, (i - 1) / 2)
                    &&& scores@ == m.spec_scores().subrange(0, (i - 1) / 2)
                    &&& ls.len() == 3 + 2 * m.spec_vocab().strs().len() + (
                    if m.spec_unk() is Some {
                        2int
                    } else {
                        0int
                    })
                },
        ensures
            n == lines@.len(),
            ls == lines@.map_values(|l: String| l@),
            1 <= i <= n,
            v.wf(),
            scores@.len() == v.strs().len(),
            forall|k: int|
                0 <= k < scores@.len() ==> MIN_PIECE_SCORE <= #[trigger] scores@[k] <= 0,
            forall|m: Unigram| #![trigger uni_ser(m)]
                m.wf() && ls == uni_ser(m) ==> {
                    &&& v.strs() == m.spec_vocab().strs()
                    &&& scores@ == m.spec_scores()
                    &&& i == 1 + 2 * m.spec_vocab().strs().len()
                    &&& ls.len() == i + 2 + (if m.spec_unk() is Some {
                        2int
                    } else {
                        0int
                    })
                },
        decreases n - i,
    {
        if i >= n {
            proof {
                assert forall|m: Unigram| m.wf() && ls == #[trigger] uni_ser(m) implies false by {
                    let llen = m.spec_vocab().strs().len() as int;
                    let k = (i - 1) / 2;
                    if k < llen {
                        assert(ls[i as int] == token_line(m.spec_vocab().strs()[k]));
                    } else {
                        reveal_strlit("penalty");
                        assert(ls[i as int] == "penalty"@);
                    }
                    assert(i < ls.len());
                }
            }
            break;
        }
        let line = &lines[i];
        let ln = line.as_str().unicode_len();
        if !(ln >= 1 && line.as_str().get_char(0) == 't') {
            proof {
                assert forall|m: Unigram| m.wf() && ls == #[trigger] uni_ser(m) implies v.strs()
                    == m.spec_vocab().strs() && scores@ == m.spec_scores() && i == 1 + 2
                    * m.spec_vocab().strs().len() by {
                    let llen = m.spec_vocab().strs().len() as int;
                    let k = (i - 1) / 2;
                    if k < llen {
                        assert(ls[i as int] == token_line(m.spec_vocab().strs()[k]));
                        assert(is_token_line(ls[i as int]));
                        assert(false);
                    }
                    assert(m.spec_vocab().strs().subrange(0, llen) =~= m.spec_vocab().strs());
                    assert(m.spec_scores().subrange(0, llen) =~= m.spec_scores());
                }
            }
            break;
        }
        proof {
            assert forall|m: Unigram| m.wf() && ls == #[trigger] uni_ser(m) implies (i - 1) / 2
                < m.spec_vocab().strs().len() by {
                reveal_strlit("penalty");
                let llen = m.spec_vocab().strs().len() as int;
                let k = (i - 1) / 2;
                if k >= llen {
                    assert(ls[i as int] == "penalty"@);
                    assert(("penalty"@)[0] == 'p');
                    assert(!is_token_line(ls[i as int]));
                    assert(false);
                }
            }
        }
        if i + 1 >= n {
            proof {
                assert forall|m: Unigram| m.wf() && ls == #[trigger] uni_ser(m) implies false by {
                    let k = (i - 1) / 2;
                    assert(ls[i + 1] == dec_signed(m.spec_scores()[k] as int));
                    assert(i + 1 < ls.len());
                }
            }
            return Err(TokenizerError::MalformedVocabulary);
        }
        let tok = line.as_str().substring_char(1, ln).to_owned();
        proof {
            assert(tok@ =~= payload(ls[i as int]));
        }
        match v.token_to_id(&tok) {
            Some(dup) => {
                proof {
                    assert forall|m: Unigram| m.wf() && ls == #[trigger] uni_ser(m) implies false by {
                        let k = (i - 1) / 2;
                        assert(ls[i as int] == token_line(m.spec_vocab().strs()[k]));
                        assert(tok@ =~= m.spec_vocab().strs()[k]);
                        assert(v.strs()[dup as int] == m.spec_vocab().strs()[dup as int]);
                        assert(m.spec_vocab().strs()[dup as int] == m.spec_vocab().strs()[k]);
                    }
                }
                return Err(TokenizerError::MalformedVocabulary);
            },
            None => {},
        }
        if v.len() >= u32::MAX as usize {
            proof {
                assert forall|m: Unigram| m.wf() && ls == #[trigger] uni_ser(m) implies false by {
                    let k = (i - 1) / 2;
                    assert(v.strs().len() == k);
                    assert(k < m.spec_vocab().strs().len());
                }
            }
            return Err(TokenizerError::MalformedVocabulary);
        }
        let score = match parse_i64(&lines[i + 1]) {
            Some(x) => {
                if !(MIN_PIECE_SCORE <= x && x <= 0) {
                    proof {
                        assert forall|m: Unigram| m.wf() && ls == #[trigger] uni_ser(m) implies false by {
                            let k = (i - 1) / 2;
                            assert(ls[i + 1] == dec_signed(m.spec_scores()[k] as int));
                            crate::serial::lemma_dec_signed_roundtrip(m.spec_scores()[k]);
                        }
                    }
                    return Err(TokenizerError::MalformedVocabulary);
                }
                x
            },
            None => {
                proof {
                    assert forall|m: Unigram| m.wf() && ls == #[trigger] uni_ser(m) implies false by {
                        let k = (i - 1) / 2;
                        assert(ls[i + 1] == dec_signed(m.spec_scores()[k] as int));
                        crate::serial::lemma_dec_signed_roundtrip(m.spec_scores()[k]);
                    }
                }
                return Err(TokenizerError::MalformedVocabulary);
            },
        };
        v.add(tok);
        scores.push(score);
        proof {
            assert forall|m: Unigram| m.wf() && ls == #[trigger] uni_ser(m) implies v.strs()
                == m.spec_vocab().strs().subrange(0, (i + 2 - 1) / 2) && scores@
                == m.spec_scores().subrange(0, (i + 2 - 1) / 2) by {
                let k = (i - 1) / 2;
                assert(ls[i as int] == token_line(m.spec_vocab().strs()[k]));
                assert(tok@ =~= m.spec_vocab().strs()[k]);
                assert(ls[i + 1] == dec_signed(m.spec_scores()[k] as int));
                crate::serial::lemma_dec_signed_roundtrip(m.spec_scores()[k]);
                assert(v.strs() =~= m.spec_vocab().strs().subrange(0, k + 1));
                assert(scores@ =~= m.spec_scores().subrange(0, k + 1));
            }
        }
        i = i + 2;
    }
    let penalty_header = String::from_str("penalty");
    if i >= n || !(lines[i] == penalty_header) {
        proof {
            reveal_strlit("penalty");
            assert forall|m: Unigram| m.wf() && ls == #[trigger] uni_ser(m) implies false by {
                assert(ls[i as int] == "penalty"@);
            }
        }
        return Err(TokenizerError::MalformedVocabulary);
    }
    if i + 1 >= n {
        proof {
            assert forall|m: Unigram| m.wf() && ls == #[trigger] uni_ser(m) implies false by {
                assert(ls[i + 1] == dec_signed(m.spec_unk_score() as int));
            }
        }
        return Err(TokenizerError::MalformedVocabulary);
    }
    let unk_score = match parse_i64(&lines[i + 1]) {
        Some(x) => {
            if !(MIN_PIECE_SCORE <= x && x <= 0) {
                proof {
                    assert forall|m: Unigram| m.wf() && ls == #[trigger] uni_ser(m) implies false by {
                        assert(ls[i + 1] == dec_signed(m.spec_unk_score() as int));
                        crate::serial::lemma_dec_signed_roundtrip(m.spec_unk_score());
                    }
                }
                return Err(TokenizerError::MalformedVocabulary);
            }
            x
        },
        None => {
            proof {
                assert forall|m: Unigram| m.wf() && ls == #[trigger] uni_ser(m) implies false by {
                    assert(ls[i + 1] == dec_signed(m.spec_unk_score() as int));
                    crate::serial::lemma_dec_signed_roundtrip(m.spec_unk_score());
                }
            }
            return Err(TokenizerError::MalformedVocabulary);
        },
    };
    let j = i + 2;
    let unk: Option<u32> = if j < n {
        let unkid_header = String::from_str("unkid");
        if lines[j] == unkid_header {
            if j + 1 >= n {
                proof {
                    assert forall|m: Unigram| m.wf() && ls == #[trigger] uni_ser(m) implies false by {
                        reveal_strlit("unkid");
                        if m.spec_unk() is None {
                            assert(ls.len() == j as int);
                        } else {
                            assert(ls[j + 1] == crate::serial::dec_digits(
                                m.spec_unk().unwrap() as int,
                            ));
                        }
                    }
                }
                return Err(TokenizerError::MalformedVocabulary);
            }
            match parse_u64(&lines[j + 1]) {
                Some(x) => {
                    if x as usize >= v.len() {
                        proof {
                            assert forall|m: Unigram| m.wf() && ls == #[trigger] uni_ser(m) implies false by {
                                reveal_strlit("unkid");
                                if m.spec_unk() is None {
                                    assert(ls.len() == j as int);
                                } else {
                                    assert(ls[j + 1] == crate::serial::dec_digits(
                                        m.spec_unk().unwrap() as int,
                                    ));
                                    crate::serial::lemma_dec_roundtrip(
                                        m.spec_unk().unwrap() as u64,
                                    );
                                }
                            }
                        }
                        return Err(TokenizerError::MalformedVocabulary);
                    }
                    Some(x as u32)
                },
                None => {
                    proof {
                        assert forall|m: Unigram| m.wf() && ls == #[trigger] uni_ser(m) implies false by {
                            reveal_strlit("unkid");
                            if m.spec_unk() is None {
                                assert(ls.len() == j as int);
                            } else {
                                assert(ls[j + 1] == crate::serial::dec_digits(
                                    m.spec_unk().unwrap() as int,
                                ));
                                crate::serial::lemma_dec_roundtrip(m.spec_unk().unwrap() as u64);
                            }
                        }
                    }
                    return Err(TokenizerError::MalformedVocabulary);
                },
            }
        } else {
            None
        }
    } else {
        None
    };
    let out = Unigram::new(v, scores, unk, unk_score);
    proof {
        reveal_strlit("unkid");
        assert forall|m: Unigram| m.wf() && ls == #[trigger] uni_ser(m) implies uni_equiv(
            out,
            m,
        ) by {
            assert(ls[i + 1] == dec_signed(m.spec_unk_score() as int));
            crate::serial::lemma_dec_signed_roundtrip(m.spec_unk_score());
            if m.spec_unk() is Some {
                assert(ls[j as int] == "unkid"@);
                assert(ls[j + 1] == crate::serial::dec_digits(m.spec_unk().unwrap() as int));
                crate::serial::lemma_dec_roundtrip(m.spec_unk().unwrap() as u64);
            } else {
                assert(ls.len() == j as int);
            }
        }
    }
    Ok(out)
}

impl ModelWrapper {
    /// Load a model from its untagged serialized lines: the candidate
    /// shapes are attempted in the declared model order (BPE, WordPiece,
    /// WordLevel, Unigram) until one parses; `MalformedVocabulary` when
    /// none does. A saved model of any variant loads back as that variant
    /// with identical persistent state — the save/load round-trip law —
    /// because the shapes attempted before a variant's own are certain to
    /// reject its serialized form.
    pub fn from_serialized(lines: &Vec<String>) -> (r: Result<ModelWrapper, TokenizerError>)
        ensures
            match r {
                Ok(m) => m.wf(),
                Err(e) => e == TokenizerError::MalformedVocabulary,
            },
            forall|m: WordLevel|
                m.wf() && lines@.map_values(|l: String| l@) == wl_ser(m) ==> r is Ok
                    && (r.unwrap() is WordLevel) && wl_equiv(r.unwrap()->WordLevel_0, m),
            forall|m: WordPiece|
                m.wf() && lines@.map_values(|l: String| l@) == wp_ser(m) ==> r is Ok
                    && (r.unwrap() is WordPiece) && wp_equiv(r.unwrap()->WordPiece_0, m),
            forall|m: BPE|
                m.wf() && lines@.map_values(|l: String| l@) == bpe_ser(m) ==> r is Ok
                    && (r.unwrap() is BPE) && bpe_equiv(r.unwrap()->BPE_0, m),
            forall|m: Unigram|
                m.wf() && lines@.map_values(|l: String| l@) == uni_ser(m) ==> r is Ok
                    && (r.unwrap() is Unigram) && uni_equiv(r.unwrap()->Unigram_0, m),
    {
        let ghost ls = lines@.map_values(|l: String| l@);
        proof {
            reveal_strlit("vocab");
            reveal_strlit("unk");
            reveal_strlit("merges");
            reveal_strlit("prefix");
            reveal_strlit("maxlen");
            reveal_strlit("pieces");
            reveal_strlit("penalty");
            reveal_strlit("unkid");
            assert forall|m: Unigram| m.wf() && ls == uni_ser(m) implies (forall|i: int|
                0 <= i < ls.len() ==> #[trigger] ls[i] != "merges"@ && ls[i] != "prefix"@)
                && ls[0] != "vocab"@ by {
                let llen = m.spec_vocab().strs().len() as int;
                assert(ls.len() == 3 + 2 * llen + (if m.spec_unk() is Some {
                    2int
                } else {
                    0int
                }));
                assert(("merges"@).len() == 6 && ("merges"@)[0] == 'm');
                assert(("prefix"@).len() == 6 && ("prefix"@)[0] == 'p' && ("prefix"@)[1] == 'r');
                assert(("pieces"@).len() == 6 && ("pieces"@)[0] == 'p' && ("pieces"@)[1] == 'i');
                assert(("penalty"@).len() == 7);
                assert(("unkid"@).len() == 5);
                assert(("vocab"@).len() == 5 && ("vocab"@)[0] == 'v' && ("unkid"@)[0] == 'u');
                assert forall|i: int| 0 <= i < ls.len() implies ls[i] != "merges"@ && ls[i]
                    != "prefix"@ by {
                    if i == 0 {
                        assert(ls[i] == "pieces"@);
                    } else if 1 <= i < 1 + 2 * llen {
                        let p = i - 1;
                        if p % 2 == 0 {
                            assert(ls[i] == token_line(m.spec_vocab().strs()[p / 2]));
                            assert(ls[i][0] == 't');
                        } else {
                            assert(ls[i] == dec_signed(m.spec_scores()[p / 2] as int));
                            lemma_signed_first(m.spec_scores()[p / 2] as int);
                        }
                    } else if i == 1 + 2 * llen {
                        assert(ls[i] == "penalty"@);
                    } else if i == 2 + 2 * llen {
                        assert(ls[i] == dec_signed(m.spec_unk_score() as int));
                        lemma_signed_first(m.spec_unk_score() as int);
                    } else if i == 3 + 2 * llen {
                        assert(ls[i] == "unkid"@);
                    } else {
                        assert(ls[i] == crate::serial::dec_digits(
                            m.spec_unk().unwrap() as int,
                        ));
                        crate::serial::lemma_dec_digits_first(m.spec_unk().unwrap() as int);
                    }
                }
                assert(ls[0] == "pieces"@);
            }
            assert forall|m: WordPiece| m.wf() && ls == wp_ser(m) implies (forall|i: int|
                0 <= i < ls.len() ==> #[trigger] ls[i] != "merges"@) by {
                let llen = m.spec_vocab().strs().len() as int;
                assert(ls.len() == 7 + llen);
                assert(("merges"@).len() == 6 && ("merges"@)[0] == 'm' && ("merges"@)[1] == 'e');
                assert(("maxlen"@)[1] == 'a');
                assert forall|i: int| 0 <= i < ls.len() implies ls[i] != "merges"@ by {
                    if i == 0 {
                        assert(ls[i] == "vocab"@);
                        assert(("vocab"@).len() == 5);
                    } else if 1 <= i < 1 + llen {
                        assert(ls[i] == token_line(m.spec_vocab().strs()[i - 1]));
                        assert(ls[i][0] == 't');
                    } else if i == 1 + llen {
                        assert(ls[i] == "unk"@);
                        assert(("unk"@).len() == 3);
                    } else if i == 2 + llen {
                        assert(ls[i] == token_line(
                            m.spec_vocab().strs()[m.spec_unk() as int],
                        ));
                        assert(ls[i][0] == 't');
                    } else if i == 3 + llen {
                        assert(ls[i] == "prefix"@);
                        assert(("prefix"@)[0] == 'p');
                    } else if i == 4 + llen {
                        assert(ls[i] == token_line(m.spec_prefix()));
                        assert(ls[i][0] == 't');
                    } else if i == 5 + llen {
                        assert(ls[i] == "maxlen"@);
                    } else {
                        assert(ls[i] == crate::serial::dec_digits(m.spec_max_input() as int));
                        crate::serial::lemma_dec_digits_first(m.spec_max_input() as int);
                        assert('0' <= ls[i][0] && ls[i][0] <= '9');
                    }
                }
            }
            assert forall|m: WordLevel| m.wf() && ls == wl_ser(m) implies (forall|i: int|
                0 <= i < ls.len() ==> #[trigger] ls[i] != "merges"@ && ls[i] != "prefix"@) by {
                let llen = m.spec_vocab().strs().len() as int;
                assert(ls.len() == 1 + llen + (if m.spec_unk() is Some {
                    2int
                } else {
                    0int
                }));
                assert(("merges"@).len() == 6 && ("merges"@)[0] == 'm');
                assert(("prefix"@).len() == 6 && ("prefix"@)[0] == 'p');
                assert forall|i: int| 0 <= i < ls.len() implies ls[i] != "merges"@ && ls[i]
                    != "prefix"@ by {
                    if i == 0 {
                        assert(ls[i] == "vocab"@);
                        assert(("vocab"@).len() == 5);
                    } else if 1 <= i < 1 + llen {
                        assert(ls[i] == token_line(m.spec_vocab().strs()[i - 1]));
                        assert(ls[i][0] == 't');
                    } else if m.spec_unk() is Some && i == 1 + llen {
                        assert(ls[i] == "unk"@);
                    } else {
                        assert(m.spec_unk() is Some && i == 2 + llen);
                        assert(ls[i] == token_line(
                            m.spec_vocab().strs()[m.spec_unk().unwrap() as int],
                        ));
                        assert(ls[i][0] == 't');
                    }
                }
            }
        }
        match bpe_parse(lines) {
            Ok(m) => {
                proof {
                    assert forall|mm: WordLevel| mm.wf() && ls == wl_ser(mm) implies false by {
                        let i = choose|i: int|
                            0 <= i < lines@.len() && #[trigger] lines@[i]@ == "merges"@;
                        assert(ls[i] == lines@[i]@);
                    }
                    assert forall|mm: WordPiece| mm.wf() && ls == wp_ser(mm) implies false by {
                        let i = choose|i: int|
                            0 <= i < lines@.len() && #[trigger] lines@[i]@ == "merges"@;
                        assert(ls[i] == lines@[i]@);
                    }
                    assert forall|mm: Unigram| mm.wf() && ls == uni_ser(mm) implies false by {
                        let i = choose|i: int|
                            0 <= i < lines@.len() && #[trigger] lines@[i]@ == "merges"@;
                        assert(ls[i] == lines@[i]@);
                    }
                }
                return Ok(ModelWrapper::BPE(m));
            },
            Err(_) => {},
        }
        match wp_parse(lines) {
            Ok(m) => {
                proof {
                    assert forall|mm: WordLevel| mm.wf() && ls == wl_ser(mm) implies false by {
                        let i = choose|i: int|
                            0 <= i < lines@.len() && #[trigger] lines@[i]@ == "prefix"@;
                        assert(ls[i] == lines@[i]@);
                    }
                    assert forall|mm: Unigram| mm.wf() && ls == uni_ser(mm) implies false by {
                        let i = choose|i: int|
                            0 <= i < lines@.len() && #[trigger] lines@[i]@ == "prefix"@;
                        assert(ls[i] == lines@[i]@);
                    }
                }
                return Ok(ModelWrapper::WordPiece(m));
            },
            Err(_) => {},
        }
        match wl_parse(lines) {
            Ok(m) => {
                proof {
                    assert forall|mm: Unigram| mm.wf() && ls == uni_ser(mm) implies false by {
                        assert(ls[0] == lines@[0]@);
                    }
                }
                return Ok(ModelWrapper::WordLevel(m));
            },
            Err(_) => {},
        }
        match uni_parse(lines) {
            Ok(m) => {
                return Ok(ModelWrapper::Unigram(m));
            },
            Err(_) => {},
        }
        Err(TokenizerError::MalformedVocabulary)
    }
}

} // verus!
