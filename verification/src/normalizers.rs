//! Text normalization is an external collaborator's job; the dispatcher
//! and two rule-based normalizers live here so the closed set of
//! normalizer kinds stays complete.

use vstd::prelude::*;
use vstd::string::StrSliceExecFns;
use crate::parallelism::{lower_ascii, lower_char};
use crate::{push_char, TokenizerError};

verus! {

/// ASCII lowercasing.
#[derive(Debug, PartialEq)]
pub struct Lowercase;

impl Lowercase {
    pub fn normalize(&self, s: &String) -> (r: Result<String, TokenizerError>)
        ensures
            r is Ok,
            r.unwrap()@ == lower_ascii(s@),
    {
        let n = s.as_str().unicode_len();
        let mut out = String::new();
        for i in 0..n
            invariant
                n == s@.len(),
                out@.len() == i,
                forall|k: int| 0 <= k < i ==> out@[k] == lower_char(s@[k]),
        {
            let c = s.as_str().get_char(i);
            let lc: char = if 'A' <= c && c <= 'Z' {
                (((c as u32) + 32) as u8) as char
            } else {
                c
            };
            push_char(&mut out, lc);
        }
        proof {
            assert(out@ =~= lower_ascii(s@));
        }
        Ok(out)
    }
}

/// The BERT-style normalizer, reduced to its case-folding switch.
#[derive(Debug, PartialEq)]
pub struct BertNormalizer {
    pub lowercase: bool,
}

impl BertNormalizer {
    pub fn new(lowercase: bool) -> (b: BertNormalizer)
        ensures
            b.lowercase == lowercase,
    {
        BertNormalizer { lowercase }
    }

    pub fn normalize(&self, s: &String) -> (r: Result<String, TokenizerError>)
        ensures
            r is Ok,
            r.unwrap()@ == if self.lowercase {
                lower_ascii(s@)
            } else {
                s@
            },
    {
        if self.lowercase {
            let lc = Lowercase;
            lc.normalize(s)
        } else {
            Ok(s.clone())
        }
    }
}

/// The closed set of normalizer kinds.
#[derive(Debug, PartialEq)]
pub enum NormalizerWrapper {
    BertNormalizer(BertNormalizer),
    Lowercase(Lowercase),
}

impl NormalizerWrapper {
    /// Normalize one text span with the active variant.
    pub fn normalize(&self, s: &String) -> (r: Result<String, TokenizerError>)
        ensures
            r is Ok,
            r.unwrap()@ == match *self {
                NormalizerWrapper::BertNormalizer(b) => if b.lowercase {
                    lower_ascii(s@)
                } else {
                    s@
                },
                NormalizerWrapper::Lowercase(_) => lower_ascii(s@),
            },
    {
        match self {
            NormalizerWrapper::BertNormalizer(b) => b.normalize(s),
            NormalizerWrapper::Lowercase(l) => l.normalize(s),
        }
    }
}

} // verus!
