//! The model and trainer dispatchers: kind matching, forwarding, and the
//! fresh-trainer mapping.

use tokenizers::models::{ModelWrapper, TrainerWrapper};
use tokenizers::trainers::BpeTrainer;
use tokenizers::unigram::Unigram;
use tokenizers::vocab::Vocabulary;
use tokenizers::wordlevel::WordLevel;
use tokenizers::TokenizerError;

#[test]
fn trainer_wrapper_train_model_wrapper() {
    let trainer = TrainerWrapper::BpeTrainer(BpeTrainer::default());
    let mut model = ModelWrapper::Unigram(Unigram::default());

    let result = trainer.train(&mut model);
    assert!(result.is_err());
}

#[test]
fn mismatched_training_reports_the_right_error_and_keeps_the_model() {
    let trainer = TrainerWrapper::BpeTrainer(BpeTrainer::default());
    let mut vocab = Vocabulary::new();
    vocab.add(String::from("hello"));
    let mut model = ModelWrapper::WordLevel(WordLevel::new(vocab, None));

    let result = trainer.train(&mut model);
    assert_eq!(result.unwrap_err(), TokenizerError::TrainerModelMismatch);
    // the model is left unmutated
    match &model {
        ModelWrapper::WordLevel(m) => {
            assert_eq!(m.get_vocab_size(), 1);
            assert_eq!(m.token_to_id(&String::from("hello")), Some(0));
        }
        _ => panic!("model changed kind"),
    }
}

#[test]
fn get_trainer_matches_the_model_kind() {
    let model = ModelWrapper::Unigram(Unigram::default());
    match model.get_trainer() {
        TrainerWrapper::UnigramTrainer(_) => {}
        _ => panic!("wrong trainer kind"),
    }
    let mut vocab = Vocabulary::new();
    vocab.add(String::from("a"));
    let model = ModelWrapper::WordLevel(WordLevel::new(vocab, None));
    match model.get_trainer() {
        TrainerWrapper::WordLevelTrainer(_) => {}
        _ => panic!("wrong trainer kind"),
    }
}

#[test]
fn wrapper_forwards_vocab_queries() {
    let mut vocab = Vocabulary::new();
    vocab.add(String::from("alpha"));
    vocab.add(String::from("beta"));
    let model = ModelWrapper::WordLevel(WordLevel::new(vocab, Some(0)));
    assert_eq!(model.get_vocab_size(), 2);
    assert_eq!(model.token_to_id(&String::from("beta")), Some(1));
    assert_eq!(model.id_to_token(0), Some(String::from("alpha")));
    assert_eq!(model.id_to_token(7), None);
    let pairs = model.get_vocab();
    assert_eq!(
        pairs,
        vec![(String::from("alpha"), 0), (String::from("beta"), 1)]
    );
}
