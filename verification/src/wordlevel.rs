//! The word-level model: exact dictionary lookup of the whole word.

use vstd::prelude::*;
use vstd::string::StringSliceAdditionalSpecFns;
use crate::vocab::Vocabulary;
use crate::{byte_len, Token, TokenizerError};

verus! {

/// A model that maps each whole word to one vocabulary id; an absent word
/// maps to the unknown token, or fails when none is configured.
#[derive(Debug, PartialEq)]
pub struct WordLevel {
    vocab: Vocabulary,
    unk: Option<u32>,
}

impl Clone for WordLevel {
    fn clone(&self) -> (m: WordLevel)
        ensures
            m.spec_vocab().strs() == self.spec_vocab().strs(),
            m.spec_unk() == self.spec_unk(),
    {
        WordLevel { vocab: self.vocab.clone(), unk: self.unk }
    }
}

impl WordLevel {
    pub closed spec fn spec_vocab(self) -> Vocabulary {
        self.vocab
    }

    pub closed spec fn spec_unk(self) -> Option<u32> {
        self.unk
    }

    pub open spec fn wf(self) -> bool {
        &&& self.spec_vocab().wf()
        &&& match self.spec_unk() {
            Some(u) => u < self.spec_vocab().strs().len(),
            None => true,
        }
    }

    /// What tokenizing `w` yields: the id of `w` itself, else the unknown
    /// id, else no id at all.
    pub open spec fn spec_lookup(self, w: Seq<char>) -> Option<u32> {
        if self.spec_vocab().spec_contains(w) {
            Some(self.spec_vocab().spec_id_of(w) as u32)
        } else {
            self.spec_unk()
        }
    }

    pub fn new(vocab: Vocabulary, unk: Option<u32>) -> (m: WordLevel)
        requires
            vocab.wf(),
            match unk {
                Some(u) => u < vocab.strs().len(),
                None => true,
            },
        ensures
            m.wf(),
            m.spec_vocab() == vocab,
            m.spec_unk() == unk,
    {
        WordLevel { vocab, unk }
    }

    pub fn token_to_id(&self, token: &String) -> (r: Option<u32>)
        requires
            self.wf(),
        ensures
            match r {
                Some(id) => id < self.spec_vocab().strs().len()
                    && self.spec_vocab().strs()[id as int] == token@,
                None => !self.spec_vocab().spec_contains(token@),
            },
    {
        self.vocab.token_to_id(token)
    }

    pub fn id_to_token(&self, id: u32) -> (r: Option<String>)
        ensures
            match r {
                Some(s) => id < self.spec_vocab().strs().len()
                    && s@ == self.spec_vocab().strs()[id as int],
                None => id >= self.spec_vocab().strs().len(),
            },
    {
        self.vocab.id_to_token(id)
    }

    pub fn get_vocab(&self) -> (r: Vec<(String, u32)>)
        requires
            self.wf(),
        ensures
            r@.len() == self.spec_vocab().strs().len(),
            forall|i: int| #![trigger r@[i]]
                0 <= i < r@.len() ==> r@[i].0@ == self.spec_vocab().strs()[i] && r@[i].1 == i,
    {
        self.vocab.to_pairs()
    }

    pub fn get_vocab_size(&self) -> (n: usize)
        ensures
            n == self.spec_vocab().strs().len(),
    {
        self.vocab.len()
    }

    pub fn get_unk(&self) -> (r: Option<u32>)
        ensures
            r == self.spec_unk(),
    {
        self.unk
    }

    /// Exactly what `tokenize` returns on `w`.
    pub open spec fn tokenize_post(self, w: Seq<char>, r: Result<Vec<Token>, TokenizerError>) -> bool {
        match r {
            Ok(ts) => {
                &&& self.spec_lookup(w) is Some
                &&& ts@.len() == 1
                &&& ts@[0].id == self.spec_lookup(w).unwrap()
                &&& ts@[0].value@ == self.spec_vocab().strs()[ts@[0].id as int]
                &&& ts@[0].offsets.0 == 0
                &&& ts@[0].offsets.1 == byte_len(w)
            },
            Err(e) => {
                &&& e == TokenizerError::UnknownSymbol
                &&& self.spec_lookup(w) is None
            },
        }
    }

    /// Tokenize one word: exactly one token, whose id is `spec_lookup` and
    /// whose extent is the whole word; `UnknownSymbol` when the word is
    /// absent and no unknown token is configured.
    pub fn tokenize(&self, word: &String) -> (r: Result<Vec<Token>, TokenizerError>)
        requires
            self.wf(),
        ensures
            self.tokenize_post(word@, r),
    {
        let s = word.as_str();
        let end = s.len();
        proof {
            assert(word@.subrange(0, word@.len() as int) =~= word@);
            assert(s.spec_bytes() == vstd::utf8::encode_utf8(word@));
        }
        let id_opt = match self.vocab.token_to_id(word) {
            Some(id) => {
                proof {
                    self.spec_vocab().lemma_id_unique(
                        id as int,
                        self.spec_vocab().spec_id_of(word@),
                    );
                }
                Some(id)
            },
            None => self.unk,
        };
        match id_opt {
            Some(id) => {
                let value = match self.vocab.id_to_token(id) {
                    Some(v) => v,
                    None => {
                        // unreachable: wf bounds both the found id and the unknown id
                        proof {
                            assert(false);
                        }
                        String::new()
                    },
                };
                Ok(vec![Token { id, value, offsets: (0, end) }])
            },
            None => Err(TokenizerError::UnknownSymbol),
        }
    }
}

} // verus!
