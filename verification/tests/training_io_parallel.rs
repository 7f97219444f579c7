//! Trainers fed from a corpus, the save/load round trip, and the
//! parallel/sequential equivalence of batch encoding.

use tokenizers::models::{ModelWrapper, TrainerWrapper};
use tokenizers::parallelism::{
    parallelism_enabled_from, tokenize_batch, ConditionalExecutor,
};
use tokenizers::trainers::{BpeTrainer, UnigramTrainer, WordLevelTrainer, WordPieceTrainer};
use tokenizers::unigram::Unigram;
use tokenizers::vocab::Vocabulary;
use tokenizers::wordlevel::WordLevel;
use tokenizers::wordpiece::WordPiece;
use tokenizers::bpe::BPE;
use tokenizers::{AddedToken, TokenizerError};

fn split_words(line: &String) -> Result<Vec<String>, TokenizerError> {
    Ok(line
        .split_whitespace()
        .map(|w| w.to_string())
        .collect::<Vec<String>>())
}

#[test]
fn bpe_training_learns_merges() {
    let mut trainer = BpeTrainer::default();
    trainer.vocab_size = 30;
    trainer.special_tokens = vec![AddedToken::from(String::from("<pad>"), true)];
    let lines = vec![
        String::from("low low low lower lower"),
        String::from("low lowest"),
    ];
    trainer.feed(&lines, &split_words).unwrap();
    let mut model = BPE::new(Vocabulary::new(), vec![], None, 0);
    let added = trainer.train(&mut model).unwrap();
    assert_eq!(added.len(), 1);
    assert_eq!(added[0].content, String::from("<pad>"));
    // the special token holds id 0
    assert_eq!(model.id_to_token(0), Some(String::from("<pad>")));
    // the most frequent word ends up as a single learned token
    let ts = model.tokenize(&String::from("low")).unwrap();
    assert_eq!(ts.len(), 1);
    assert_eq!(ts[0].value, String::from("low"));
}

#[test]
fn duplicate_special_tokens_are_invalid_configuration() {
    let mut trainer = WordLevelTrainer::default();
    trainer.special_tokens = vec![
        AddedToken::from(String::from("<s>"), true),
        AddedToken::from(String::from("<s>"), true),
    ];
    let mut model = WordLevel::new(Vocabulary::new(), None);
    assert_eq!(
        trainer.train(&mut model).unwrap_err(),
        TokenizerError::InvalidConfiguration
    );
}

#[test]
fn wordlevel_training_keeps_frequent_words() {
    let mut trainer = WordLevelTrainer::default();
    trainer.vocab_size = 3;
    trainer.min_frequency = 2;
    let lines = vec![String::from("hi hi hi there there you")];
    trainer.feed(&lines, &split_words).unwrap();
    let mut model = WordLevel::new(Vocabulary::new(), None);
    trainer.train(&mut model).unwrap();
    assert_eq!(model.token_to_id(&String::from("hi")), Some(0));
    assert_eq!(model.token_to_id(&String::from("there")), Some(1));
    // "you" occurs once, below the threshold
    assert_eq!(model.token_to_id(&String::from("you")), None);
}

#[test]
fn wordpiece_training_wraps_pair_merging() {
    let mut trainer = WordPieceTrainer::default();
    trainer.bpe.vocab_size = 20;
    trainer.bpe.special_tokens = vec![AddedToken::from(String::from("[UNK]"), true)];
    let lines = vec![String::from("hug hug hugs")];
    trainer.feed(&lines, &split_words).unwrap();
    let mut model = WordPiece::new(
        {
            let mut v = Vocabulary::new();
            v.add(String::from("[UNK]"));
            v
        },
        0,
        String::from("##"),
        100,
    );
    trainer.train(&mut model).unwrap();
    assert_eq!(model.id_to_token(0), Some(String::from("[UNK]")));
    assert!(model.get_vocab_size() > 1);
}

#[test]
fn unigram_training_covers_the_alphabet() {
    let mut trainer = UnigramTrainer::default();
    trainer.vocab_size = 10;
    trainer.special_tokens = vec![AddedToken::from(String::from("<unk>"), true)];
    let lines = vec![String::from("ab ab abc")];
    trainer.feed(&lines, &split_words).unwrap();
    let mut model = Unigram::default();
    trainer.train(&mut model).unwrap();
    assert_eq!(model.id_to_token(0), Some(String::from("<unk>")));
    // every observed word tokenizes
    let ts = model.tokenize(&String::from("abc")).unwrap();
    assert!(ts.len() >= 1);
}

#[test]
fn failing_line_fails_the_whole_feed() {
    let mut trainer = BpeTrainer::default();
    let lines = vec![String::from("fine"), String::from("bad")];
    let process = |line: &String| {
        if line == "bad" {
            Err(TokenizerError::InvalidConfiguration)
        } else {
            Ok(vec![line.clone()])
        }
    };
    assert!(trainer.feed(&lines, &process).is_err());
}

fn assert_roundtrip(model: &ModelWrapper, probe: &str) {
    let lines = model.save();
    let loaded = ModelWrapper::from_serialized(&lines).unwrap();
    assert_eq!(loaded.get_vocab(), model.get_vocab());
    let mut a = loaded;
    let mut b = match ModelWrapper::from_serialized(&lines) {
        Ok(m) => m,
        Err(_) => unreachable!(),
    };
    // same kind as the saved model
    assert_eq!(
        std::mem::discriminant(&b),
        std::mem::discriminant(model)
    );
    let word = String::from(probe);
    let mut orig = ModelWrapper::from_serialized(&model.save()).unwrap();
    assert_eq!(a.tokenize(&word).ok(), orig.tokenize(&word).ok());
    assert_eq!(b.tokenize(&word).ok(), orig.tokenize(&word).ok());
}

#[test]
fn save_then_load_restores_every_model_kind() {
    let mut v = Vocabulary::new();
    let a = v.add(String::from("a"));
    let b = v.add(String::from("b"));
    let ab = v.add(String::from("ab"));
    let bpe = ModelWrapper::BPE(BPE::new(v, vec![(a, b, ab)], Some(a), 10));
    assert_roundtrip(&bpe, "ab");

    let mut v = Vocabulary::new();
    let unk = v.add(String::from("[UNK]"));
    v.add(String::from("un"));
    v.add(String::from("##able"));
    let wp = ModelWrapper::WordPiece(WordPiece::new(v, unk, String::from("##"), 50));
    assert_roundtrip(&wp, "unable");

    let mut v = Vocabulary::new();
    let unk = v.add(String::from("<unk>"));
    v.add(String::from("hello"));
    let wl = ModelWrapper::WordLevel(WordLevel::new(v, Some(unk)));
    assert_roundtrip(&wl, "hello");

    let mut v = Vocabulary::new();
    let unk = v.add(String::from("<unk>"));
    v.add(String::from("ab"));
    let uni = ModelWrapper::Unigram(Unigram::new(v, vec![-7, -3], Some(unk), -100));
    assert_roundtrip(&uni, "ab");
    // the per-character unknown penalty survives the round trip too
    match ModelWrapper::from_serialized(&uni.save()).unwrap() {
        ModelWrapper::Unigram(m) => {
            assert_eq!(m.get_unk_score(), -100);
            assert_eq!(m.get_unk(), Some(unk));
        }
        _ => panic!("wrong kind after loading"),
    }
}

#[test]
fn wordlevel_roundtrip_without_unknown_token() {
    let mut v = Vocabulary::new();
    v.add(String::from("only"));
    let wl = ModelWrapper::WordLevel(WordLevel::new(v, None));
    let lines = wl.save();
    let loaded = ModelWrapper::from_serialized(&lines).unwrap();
    match loaded {
        ModelWrapper::WordLevel(m) => {
            assert_eq!(m.get_unk(), None);
            assert_eq!(m.get_vocab_size(), 1);
        }
        _ => panic!("wrong kind after loading"),
    }
}

#[test]
fn malformed_lines_are_rejected() {
    assert_eq!(
        ModelWrapper::from_serialized(&vec![]).unwrap_err(),
        TokenizerError::MalformedVocabulary
    );
    assert_eq!(
        ModelWrapper::from_serialized(&vec![String::from("nonsense")]).unwrap_err(),
        TokenizerError::MalformedVocabulary
    );
    // a vocabulary with a duplicate entry is structurally broken
    let lines = vec![
        String::from("vocab"),
        String::from("tdup"),
        String::from("tdup"),
    ];
    assert_eq!(
        ModelWrapper::from_serialized(&lines).unwrap_err(),
        TokenizerError::MalformedVocabulary
    );
}

#[test]
fn parallel_and_sequential_batches_agree_on_ten_thousand_lines() {
    let mut v = Vocabulary::new();
    let a = v.add(String::from("a"));
    let b = v.add(String::from("b"));
    let ab = v.add(String::from("ab"));
    let mut model = ModelWrapper::BPE(BPE::new(v, vec![(a, b, ab)], Some(a), 100));

    let mut inputs: Vec<String> = Vec::new();
    for i in 0..10000 {
        inputs.push(match i % 3 {
            0 => String::from("ab"),
            1 => String::from("aab"),
            _ => String::from("ba"),
        });
    }

    let mut seq_exec = ConditionalExecutor::new(true);
    let sequential = tokenize_batch(&mut model, &inputs, &mut seq_exec, false).unwrap();
    assert!(!seq_exec.has_been_used());

    let mut par_exec = ConditionalExecutor::new(true);
    let parallel = tokenize_batch(&mut model, &inputs, &mut par_exec, true).unwrap();
    assert!(par_exec.has_been_used());

    assert_eq!(sequential.len(), 10000);
    assert_eq!(sequential, parallel);
}

#[test]
fn batch_fails_fast_with_the_first_error() {
    let mut v = Vocabulary::new();
    v.add(String::from("a"));
    let mut model = ModelWrapper::BPE(BPE::new(v, vec![], None, 10));
    let inputs = vec![String::from("a"), String::from("zz"), String::from("a")];
    let mut exec = ConditionalExecutor::new(true);
    assert_eq!(
        tokenize_batch(&mut model, &inputs, &mut exec, true).unwrap_err(),
        TokenizerError::UnknownSymbol
    );
}

#[test]
fn parallelism_configuration_values() {
    assert!(parallelism_enabled_from(None));
    for off in ["", "off", "OFF", "false", "F", "no", "N", "0"] {
        assert!(!parallelism_enabled_from(Some(&String::from(off))), "{off}");
    }
    for on in ["1", "true", "yes", "anything"] {
        assert!(parallelism_enabled_from(Some(&String::from(on))), "{on}");
    }
}

#[test]
fn executor_decision_needs_both_sides() {
    let mut e = ConditionalExecutor::new(false);
    assert!(!e.decide(true));
    assert!(!e.has_been_used());
    let mut e = ConditionalExecutor::new(true);
    assert!(!e.decide(false));
    assert!(e.decide(true));
    assert!(e.has_been_used());
    // the record is sticky
    assert!(!e.decide(false));
    assert!(e.has_been_used());
}
