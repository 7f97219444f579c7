//! Subword tokenization core: models that turn pre-tokenized word spans into
//! sequences of vocabulary identifiers, the trainers that learn those
//! vocabularies from a word-frequency corpus, and the conditional
//! parallel-execution switch that batch operations consult.
//!
//! Text normalization, pre-tokenization, post-processing and decoding are
//! external collaborators; only thin rule-based forms of them live here so
//! that the dispatcher enums stay complete.

pub mod bpe;
pub mod decoders;
pub mod model_serial;
pub mod models;
pub mod normalizers;
pub mod parallelism;
pub mod pre_tokenizers;
pub mod processors;
pub mod serial;
pub mod trainers;
pub mod wordcounts;
pub mod unigram;
pub mod vocab;
pub mod wordlevel;
pub mod wordpiece;

use vstd::prelude::*;
use vstd::utf8::encode_utf8;

verus! {

/// Relies on `String::push`: appends exactly the one character to the end
/// of the string.
#[verifier::external_body]
pub fn push_char(s: &mut String, c: char)
    ensures
        final(s)@ == old(s)@.push(c),
{
    s.push(c)
}

/// Byte position of char index `i` inside `w`: the UTF-8 length of the
/// prefix of `w` before `i`. Token offsets are stated with it.
pub open spec fn byte_index(w: Seq<char>, i: int) -> usize {
    encode_utf8(w.subrange(0, i)).len() as usize
}

/// UTF-8 byte length of a whole word.
pub open spec fn byte_len(w: Seq<char>) -> usize {
    byte_index(w, w.len() as int)
}

/// The error kinds every fallible operation of the core reports.
///
/// * `IoFailure` — reading or writing vocabulary files (raised by the
///   unverified shell around the library, never by the core itself).
/// * `MalformedVocabulary` — structural parse failure, including the case
///   where no model shape matches an untagged serialized form.
/// * `UnknownSymbol` — an atom or word with no unknown-token fallback
///   configured.
/// * `TrainerModelMismatch` — a trainer paired with a model of another kind.
/// * `InvalidConfiguration` — contradictory training parameters.
#[derive(Debug, Clone, Copy, PartialEq, Eq, Structural)]
pub enum TokenizerError {
    IoFailure,
    MalformedVocabulary,
    UnknownSymbol,
    TrainerModelMismatch,
    InvalidConfiguration,
}

/// One produced token: a vocabulary identifier, the token string, and the
/// byte extent of the span it covers in the word it was produced from.
#[derive(Debug, PartialEq)]
pub struct Token {
    pub id: u32,
    pub value: String,
    pub offsets: (usize, usize),
}

impl Clone for Token {
    fn clone(&self) -> (t: Token)
        ensures
            t == *self,
    {
        Token { id: self.id, value: self.value.clone(), offsets: (self.offsets.0, self.offsets.1) }
    }
}

impl Token {
    pub fn new(id: u32, value: String, start: usize, end: usize) -> (t: Token)
        ensures
            t.id == id,
            t.value == value,
            t.offsets == (start, end),
    {
        Token { id, value, offsets: (start, end) }
    }
}

/// A vocabulary entry injected outside the learned algorithm, such as a
/// special or control symbol reserved by a trainer.
#[derive(Debug, PartialEq)]
pub struct AddedToken {
    pub content: String,
    pub special: bool,
    pub single_word: bool,
}

impl Clone for AddedToken {
    fn clone(&self) -> (t: AddedToken)
        ensures
            t == *self,
    {
        AddedToken {
            content: self.content.clone(),
            special: self.special,
            single_word: self.single_word,
        }
    }
}

impl AddedToken {
    pub fn from(content: String, special: bool) -> (t: AddedToken)
        ensures
            t.content == content,
            t.special == special,
            t.single_word == false,
    {
        AddedToken { content, special, single_word: false }
    }
}

} // verus!
