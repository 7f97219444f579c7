//! The model and trainer dispatchers: one closed enum per side, forwarding
//! the whole contract to the single active variant, and refusing a trainer
//! paired with a model of another kind.

use vstd::prelude::*;
use crate::bpe::BPE;
use crate::trainers::{feed_post, BpeTrainer, UnigramTrainer, WordLevelTrainer, WordPieceTrainer};
use crate::unigram::Unigram;
use crate::vocab::Vocabulary;
use crate::wordlevel::WordLevel;
use crate::wordpiece::WordPiece;
use crate::{AddedToken, Token, TokenizerError};

verus! {

/// The closed set of model kinds.
///
/// WordPiece must stay before WordLevel here: untagged loading tries the
/// declared shapes in this order, and WordLevel's shape is a structural
/// subset of WordPiece's.
#[derive(Debug, PartialEq)]
pub enum ModelWrapper {
    BPE(BPE),
    WordPiece(WordPiece),
    WordLevel(WordLevel),
    Unigram(Unigram),
}

impl ModelWrapper {
    pub open spec fn wf(self) -> bool {
        match self {
            ModelWrapper::BPE(m) => m.wf(),
            ModelWrapper::WordPiece(m) => m.wf(),
            ModelWrapper::WordLevel(m) => m.wf(),
            ModelWrapper::Unigram(m) => m.wf(),
        }
    }

    /// The id-to-string mapping of the active variant.
    pub open spec fn spec_strs(self) -> Seq<Seq<char>> {
        match self {
            ModelWrapper::BPE(m) => m.spec_vocab().strs(),
            ModelWrapper::WordPiece(m) => m.spec_vocab().strs(),
            ModelWrapper::WordLevel(m) => m.spec_vocab().strs(),
            ModelWrapper::Unigram(m) => m.spec_vocab().strs(),
        }
    }

    pub open spec fn spec_vocab(self) -> Vocabulary {
        match self {
            ModelWrapper::BPE(m) => m.spec_vocab(),
            ModelWrapper::WordPiece(m) => m.spec_vocab(),
            ModelWrapper::WordLevel(m) => m.spec_vocab(),
            ModelWrapper::Unigram(m) => m.spec_vocab(),
        }
    }

    /// What tokenizing returns: exactly the active variant's contract.
    pub open spec fn spec_tokenize_post(
        self,
        w: Seq<char>,
        r: Result<Vec<Token>, TokenizerError>,
    ) -> bool {
        match self {
            ModelWrapper::BPE(m) => m.spec_tokenize_post(w, r),
            ModelWrapper::WordPiece(m) => m.tokenize_post(w, r),
            ModelWrapper::WordLevel(m) => m.tokenize_post(w, r),
            ModelWrapper::Unigram(m) => m.tokenize_post(w, r),
        }
    }

    /// Tokenizing may touch only the BPE cache: the variant and all its
    /// persistent state stay as they were.
    pub open spec fn core_unchanged(self, other: ModelWrapper) -> bool {
        match (self, other) {
            (ModelWrapper::BPE(a), ModelWrapper::BPE(b)) => a.same_core(b)
                && a.spec_cache_capacity() == b.spec_cache_capacity(),
            (ModelWrapper::WordPiece(a), ModelWrapper::WordPiece(b)) => a == b,
            (ModelWrapper::WordLevel(a), ModelWrapper::WordLevel(b)) => a == b,
            (ModelWrapper::Unigram(a), ModelWrapper::Unigram(b)) => a == b,
            _ => false,
        }
    }

    /// Tokenize one pre-split word span with the active variant.
    pub fn tokenize(&mut self, word: &String) -> (r: Result<Vec<Token>, TokenizerError>)
        requires
            old(self).wf(),
        ensures
            final(self).wf(),
            old(self).core_unchanged(*final(self)),
            old(self).spec_tokenize_post(word@, r),
            match (*old(self), *final(self)) {
                (ModelWrapper::BPE(a), ModelWrapper::BPE(b)) => a.cache_evolution(b, word@, r),
                _ => true,
            },
    {
        match self {
            ModelWrapper::BPE(m) => m.tokenize(word),
            ModelWrapper::WordPiece(m) => m.tokenize(word),
            ModelWrapper::WordLevel(m) => m.tokenize(word),
            ModelWrapper::Unigram(m) => m.tokenize(word),
        }
    }

    pub fn token_to_id(&self, token: &String) -> (r: Option<u32>)
        requires
            self.wf(),
        ensures
            match r {
                Some(id) => id < self.spec_strs().len() && self.spec_strs()[id as int] == token@,
                None => forall|i: int| 0 <= i < self.spec_strs().len() ==> self.spec_strs()[i]
                    != token@,
            },
    {
        match self {
            ModelWrapper::BPE(m) => m.token_to_id(token),
            ModelWrapper::WordPiece(m) => m.token_to_id(token),
            ModelWrapper::WordLevel(m) => m.token_to_id(token),
            ModelWrapper::Unigram(m) => m.token_to_id(token),
        }
    }

    pub fn id_to_token(&self, id: u32) -> (r: Option<String>)
        ensures
            match r {
                Some(s) => id < self.spec_strs().len() && s@ == self.spec_strs()[id as int],
                None => id >= self.spec_strs().len(),
            },
    {
        match self {
            ModelWrapper::BPE(m) => m.id_to_token(id),
            ModelWrapper::WordPiece(m) => m.id_to_token(id),
            ModelWrapper::WordLevel(m) => m.id_to_token(id),
            ModelWrapper::Unigram(m) => m.id_to_token(id),
        }
    }

    pub fn get_vocab(&self) -> (r: Vec<(String, u32)>)
        requires
            self.wf(),
        ensures
            r@.len() == self.spec_strs().len(),
            forall|i: int| #![trigger r@[i]]
                0 <= i < r@.len() ==> r@[i].0@ == self.spec_strs()[i] && r@[i].1 == i,
    {
        match self {
            ModelWrapper::BPE(m) => m.get_vocab(),
            ModelWrapper::WordPiece(m) => m.get_vocab(),
            ModelWrapper::WordLevel(m) => m.get_vocab(),
            ModelWrapper::Unigram(m) => m.get_vocab(),
        }
    }

    pub fn get_vocab_size(&self) -> (n: usize)
        ensures
            n == self.spec_strs().len(),
    {
        match self {
            ModelWrapper::BPE(m) => m.get_vocab_size(),
            ModelWrapper::WordPiece(m) => m.get_vocab_size(),
            ModelWrapper::WordLevel(m) => m.get_vocab_size(),
            ModelWrapper::Unigram(m) => m.get_vocab_size(),
        }
    }

    /// A fresh trainer of the matching kind.
    pub fn get_trainer(&self) -> (t: TrainerWrapper)
        ensures
            match *self {
                ModelWrapper::BPE(_) => t is BpeTrainer,
                ModelWrapper::WordPiece(_) => t is WordPieceTrainer,
                ModelWrapper::WordLevel(_) => t is WordLevelTrainer,
                ModelWrapper::Unigram(_) => t is UnigramTrainer,
            },
    {
        match self {
            ModelWrapper::BPE(_) => TrainerWrapper::BpeTrainer(BpeTrainer::default()),
            ModelWrapper::WordPiece(_) => TrainerWrapper::WordPieceTrainer(
                WordPieceTrainer::default(),
            ),
            ModelWrapper::WordLevel(_) => TrainerWrapper::WordLevelTrainer(
                WordLevelTrainer::default(),
            ),
            ModelWrapper::Unigram(_) => TrainerWrapper::UnigramTrainer(UnigramTrainer::default()),
        }
    }
}

/// The closed set of trainer kinds, mirroring the model kinds.
#[derive(Debug)]
pub enum TrainerWrapper {
    BpeTrainer(BpeTrainer),
    WordPieceTrainer(WordPieceTrainer),
    WordLevelTrainer(WordLevelTrainer),
    UnigramTrainer(UnigramTrainer),
}

impl TrainerWrapper {
    /// Trainer and model agree in kind.
    pub open spec fn matches_model(self, m: ModelWrapper) -> bool {
        match (self, m) {
            (TrainerWrapper::BpeTrainer(_), ModelWrapper::BPE(_)) => true,
            (TrainerWrapper::WordPieceTrainer(_), ModelWrapper::WordPiece(_)) => true,
            (TrainerWrapper::WordLevelTrainer(_), ModelWrapper::WordLevel(_)) => true,
            (TrainerWrapper::UnigramTrainer(_), ModelWrapper::Unigram(_)) => true,
            _ => false,
        }
    }

    pub fn should_show_progress(&self) -> (b: bool)
        ensures
            b == match *self {
                TrainerWrapper::BpeTrainer(t) => t.show_progress,
                TrainerWrapper::WordPieceTrainer(t) => t.bpe.show_progress,
                TrainerWrapper::WordLevelTrainer(t) => t.show_progress,
                TrainerWrapper::UnigramTrainer(t) => t.show_progress,
            },
    {
        match self {
            TrainerWrapper::BpeTrainer(t) => t.should_show_progress(),
            TrainerWrapper::WordPieceTrainer(t) => t.should_show_progress(),
            TrainerWrapper::WordLevelTrainer(t) => t.should_show_progress(),
            TrainerWrapper::UnigramTrainer(t) => t.should_show_progress(),
        }
    }

    /// Train the model — only when the kinds agree. A mismatched pairing
    /// fails with `TrainerModelMismatch` and leaves the model unmutated.
    pub fn train(&self, model: &mut ModelWrapper) -> (r: Result<Vec<AddedToken>, TokenizerError>)
        ensures
            !self.matches_model(*old(model)) ==> r == Result::<
                Vec<AddedToken>,
                TokenizerError,
            >::Err(TokenizerError::TrainerModelMismatch) && *final(model) == *old(model),
            match (*self, *old(model)) {
                (TrainerWrapper::BpeTrainer(t), ModelWrapper::BPE(m)) => *final(model) is BPE
                    && t.train_post(m, (*final(model))->BPE_0, r),
                (TrainerWrapper::WordPieceTrainer(t), ModelWrapper::WordPiece(m)) => *final(model) is WordPiece
                    && t.train_post(m, (*final(model))->WordPiece_0, r),
                (TrainerWrapper::WordLevelTrainer(t), ModelWrapper::WordLevel(m)) => *final(model) is WordLevel
                    && t.train_post(m, (*final(model))->WordLevel_0, r),
                (TrainerWrapper::UnigramTrainer(t), ModelWrapper::Unigram(m)) => *final(model) is Unigram
                    && t.train_post(m, (*final(model))->Unigram_0, r),
                _ => true,
            },
    {
        match self {
            TrainerWrapper::BpeTrainer(t) => match model {
                ModelWrapper::BPE(m) => t.train(m),
                _ => Err(TokenizerError::TrainerModelMismatch),
            },
            TrainerWrapper::WordPieceTrainer(t) => match model {
                ModelWrapper::WordPiece(m) => t.train(m),
                _ => Err(TokenizerError::TrainerModelMismatch),
            },
            TrainerWrapper::WordLevelTrainer(t) => match model {
                ModelWrapper::WordLevel(m) => t.train(m),
                _ => Err(TokenizerError::TrainerModelMismatch),
            },
            TrainerWrapper::UnigramTrainer(t) => match model {
                ModelWrapper::Unigram(m) => t.train(m),
                _ => Err(TokenizerError::TrainerModelMismatch),
            },
        }
    }

    /// Feed corpus lines through the caller's line-to-words function into
    /// the active trainer's word counts.
    pub fn feed<F: Fn(&String) -> Result<Vec<String>, TokenizerError>>(
        &mut self,
        lines: &Vec<String>,
        process: &F,
    ) -> (r: Result<(), TokenizerError>)
        requires
            forall|l: &String| call_requires(*process, (l,)),
        ensures
            match (*old(self), *final(self)) {
                (TrainerWrapper::BpeTrainer(a), TrainerWrapper::BpeTrainer(b)) => feed_post(
                    *process,
                    lines@,
                    a.words,
                    b.words,
                    r,
                ),
                (
                    TrainerWrapper::WordPieceTrainer(a),
                    TrainerWrapper::WordPieceTrainer(b),
                ) => feed_post(*process, lines@, a.bpe.words, b.bpe.words, r),
                (
                    TrainerWrapper::WordLevelTrainer(a),
                    TrainerWrapper::WordLevelTrainer(b),
                ) => feed_post(*process, lines@, a.words, b.words, r),
                (TrainerWrapper::UnigramTrainer(a), TrainerWrapper::UnigramTrainer(b)) => feed_post(
                    *process,
                    lines@,
                    a.words,
                    b.words,
                    r,
                ),
                _ => false,
            },
    {
        match self {
            TrainerWrapper::BpeTrainer(t) => t.feed(lines, process),
            TrainerWrapper::WordPieceTrainer(t) => t.feed(lines, process),
            TrainerWrapper::WordLevelTrainer(t) => t.feed(lines, process),
            TrainerWrapper::UnigramTrainer(t) => t.feed(lines, process),
        }
    }
}

/// Wraps a vocabulary so that its pairs are emitted in order of token id,
/// smallest to largest, when the mapping is written out.
pub struct OrderedVocabIter {
    entries: Vec<(String, u32)>,
}

impl OrderedVocabIter {
    pub closed spec fn spec_entries(self) -> Seq<(String, u32)> {
        self.entries@
    }

    pub fn new(vocab_r: &Vocabulary) -> (it: OrderedVocabIter)
        requires
            vocab_r.wf(),
        ensures
            it.spec_entries().len() == vocab_r.strs().len(),
            forall|i: int| #![trigger it.spec_entries()[i]]
                0 <= i < it.spec_entries().len() ==> it.spec_entries()[i].0@ == vocab_r.strs()[i]
                    && it.spec_entries()[i].1 == i,
    {
        OrderedVocabIter { entries: vocab_r.to_pairs() }
    }

    /// The ordered `(token, id)` pairs.
    pub fn entries(&self) -> (r: &Vec<(String, u32)>)
        ensures
            r@ == self.spec_entries(),
    {
        &self.entries
    }
}

} // verus!
