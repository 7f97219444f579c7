//! Decoding token strings back into text is an external collaborator's
//! job; the dispatcher and the two rule-based decoders live here so the
//! closed set of decoder kinds stays complete.

use vstd::prelude::*;
use vstd::string::StrSliceExecFns;
use vstd::string::StringExecFns;
use crate::TokenizerError;

verus! {

/// Joining of decoded pieces: the first as it stands; a later piece either
/// continues the word (its marker stripped) or starts a new one behind a
/// space.
pub open spec fn wordpiece_join(prefix: Seq<char>, toks: Seq<Seq<char>>) -> Seq<char>
    decreases toks.len(),
{
    if toks.len() == 0 {
        Seq::empty()
    } else if toks.len() == 1 {
        toks[0]
    } else {
        let rest = toks.last();
        wordpiece_join(prefix, toks.drop_last()) + (if prefix.len() <= rest.len()
            && rest.subrange(0, prefix.len() as int) == prefix {
            rest.skip(prefix.len() as int)
        } else {
            seq![' '] + rest
        })
    }
}

/// Joining with a word-end suffix: each piece as it stands, a space after
/// every piece that carries the suffix (with the suffix dropped).
pub open spec fn bpe_join(suffix: Seq<char>, toks: Seq<Seq<char>>) -> Seq<char>
    decreases toks.len(),
{
    if toks.len() == 0 {
        Seq::empty()
    } else {
        let last = toks.last();
        bpe_join(suffix, toks.drop_last()) + (if suffix.len() > 0 && suffix.len() <= last.len()
            && last.subrange(last.len() - suffix.len(), last.len() as int) == suffix {
            last.subrange(0, last.len() - suffix.len()) + seq![' ']
        } else {
            last
        })
    }
}

/// The WordPiece decoder: strips the continuation marker, separates words
/// by spaces.
#[derive(Debug, PartialEq)]
pub struct WordPieceDecoder {
    prefix: String,
}

impl WordPieceDecoder {
    pub closed spec fn spec_prefix(self) -> Seq<char> {
        self.prefix@
    }

    pub fn new(prefix: String) -> (d: WordPieceDecoder)
        ensures
            d.spec_prefix() == prefix@,
    {
        WordPieceDecoder { prefix }
    }

    pub fn decode(&self, tokens: Vec<String>) -> (r: Result<String, TokenizerError>)
        ensures
            r is Ok,
            r.unwrap()@ == wordpiece_join(self.spec_prefix(), tokens@.map_values(|t: String| t@)),
    {
        let ghost toks = tokens@.map_values(|t: String| t@);
        let mut out = String::new();
        let n = tokens.len();
        for i in 0..n
            invariant
                n == tokens@.len(),
                toks == tokens@.map_values(|t: String| t@),
                out@ == wordpiece_join(self.spec_prefix(), toks.subrange(0, i as int)),
        {
            let t = &tokens[i];
            let tn = t.as_str().unicode_len();
            let pn = self.prefix.as_str().unicode_len();
            let continues = i > 0 && pn <= tn && {
                let head = t.as_str().substring_char(0, pn).to_owned();
                head == self.prefix
            };
            if i == 0 {
                out.append(t.as_str());
            } else if continues {
                out.append(t.as_str().substring_char(pn, tn));
            } else {
                out.append(" ");
                out.append(t.as_str());
            }
            proof {
                let pre = toks.subrange(0, i + 1);
                assert(pre.drop_last() =~= toks.subrange(0, i as int));
                assert(pre.last() == toks[i as int]);
                let plen = self.spec_prefix().len() as int;
                let rest = toks[i as int];
                if i > 0 {
                    if continues {
                        assert(rest.subrange(0, plen) == self.spec_prefix());
                        assert(out@ == wordpiece_join(self.spec_prefix(), pre.drop_last())
                            + rest.subrange(plen, rest.len() as int));
                        assert(rest.skip(plen) =~= rest.subrange(plen, rest.len() as int));
                    } else {
                        if plen <= rest.len() {
                            assert(rest.subrange(0, plen) != self.spec_prefix());
                        }
                        reveal_strlit(" ");
                        assert(out@ =~= wordpiece_join(self.spec_prefix(), pre.drop_last()) + (seq![
                            ' ',
                        ] + rest));
                    }
                    assert(out@ =~= wordpiece_join(self.spec_prefix(), pre));
                } else {
                    assert(out@ =~= wordpiece_join(self.spec_prefix(), pre));
                }
            }
        }
        proof {
            assert(toks.subrange(0, toks.len() as int) =~= toks);
        }
        Ok(out)
    }
}

/// The BPE decoder: drops the word-end suffix and puts a space there.
#[derive(Debug, PartialEq)]
pub struct BPEDecoder {
    suffix: String,
}

impl BPEDecoder {
    pub closed spec fn spec_suffix(self) -> Seq<char> {
        self.suffix@
    }

    pub fn new(suffix: String) -> (d: BPEDecoder)
        ensures
            d.spec_suffix() == suffix@,
    {
        BPEDecoder { suffix }
    }

    pub fn decode(&self, tokens: Vec<String>) -> (r: Result<String, TokenizerError>)
        ensures
            r is Ok,
            r.unwrap()@ == bpe_join(self.spec_suffix(), tokens@.map_values(|t: String| t@)),
    {
        let ghost toks = tokens@.map_values(|t: String| t@);
        let mut out = String::new();
        let n = tokens.len();
        for i in 0..n
            invariant
                n == tokens@.len(),
                toks == tokens@.map_values(|t: String| t@),
                out@ == bpe_join(self.spec_suffix(), toks.subrange(0, i as int)),
        {
            let t = &tokens[i];
            let tn = t.as_str().unicode_len();
            let sn = self.suffix.as_str().unicode_len();
            let ends = sn > 0 && sn <= tn && {
                let tail = t.as_str().substring_char(tn - sn, tn).to_owned();
                tail == self.suffix
            };
            if ends {
                out.append(t.as_str().substring_char(0, tn - sn));
                out.append(" ");
            } else {
                out.append(t.as_str());
            }
            proof {
                let pre = toks.subrange(0, i + 1);
                assert(pre.drop_last() =~= toks.subrange(0, i as int));
                assert(pre.last() == toks[i as int]);
                if ends {
                    assert(toks[i as int].subrange(
                        toks[i as int].len() - self.spec_suffix().len(),
                        toks[i as int].len() as int,
                    ) == self.spec_suffix());
                    reveal_strlit(" ");
                    assert(out@ =~= bpe_join(self.spec_suffix(), pre.drop_last()) + (toks[i as int].subrange(
                        0,
                        toks[i as int].len() - self.spec_suffix().len(),
                    ) + seq![' ']));
                } else if self.spec_suffix().len() > 0 && self.spec_suffix().len()
                    <= toks[i as int].len() {
                    assert(toks[i as int].subrange(
                        toks[i as int].len() - self.spec_suffix().len(),
                        toks[i as int].len() as int,
                    ) != self.spec_suffix());
                }
                assert(out@ =~= bpe_join(self.spec_suffix(), pre));
            }
        }
        proof {
            assert(toks.subrange(0, toks.len() as int) =~= toks);
        }
        Ok(out)
    }
}

/// The closed set of decoder kinds.
#[derive(Debug, PartialEq)]
pub enum DecoderWrapper {
    BPE(BPEDecoder),
    WordPiece(WordPieceDecoder),
}

impl DecoderWrapper {
    /// Decode a sequence of token strings back into one string with the
    /// active variant.
    pub fn decode(&self, tokens: Vec<String>) -> (r: Result<String, TokenizerError>)
        ensures
            r is Ok,
            r.unwrap()@ == match *self {
                DecoderWrapper::BPE(d) => bpe_join(
                    d.spec_suffix(),
                    tokens@.map_values(|t: String| t@),
                ),
                DecoderWrapper::WordPiece(d) => wordpiece_join(
                    d.spec_prefix(),
                    tokens@.map_values(|t: String| t@),
                ),
            },
    {
        match self {
            DecoderWrapper::BPE(d) => d.decode(tokens),
            DecoderWrapper::WordPiece(d) => d.decode(tokens),
        }
    }
}

} // verus!
