//! The four model kinds on concrete words: merge order, caching, greedy
//! matching, lattice search and the unknown-token rules.

use tokenizers::bpe::BPE;
use tokenizers::unigram::Unigram;
use tokenizers::vocab::Vocabulary;
use tokenizers::wordlevel::WordLevel;
use tokenizers::wordpiece::WordPiece;
use tokenizers::{Token, TokenizerError};

fn lower_bpe(cache_capacity: usize) -> BPE {
    // vocabulary {"low":0, "er":1, "lower":2} plus the atoms, with the
    // merge chain ending in (low, er) -> lower
    let mut v = Vocabulary::new();
    let low = v.add(String::from("low"));
    let er = v.add(String::from("er"));
    let lower = v.add(String::from("lower"));
    let l = v.add(String::from("l"));
    let o = v.add(String::from("o"));
    let w = v.add(String::from("w"));
    let e = v.add(String::from("e"));
    let r = v.add(String::from("r"));
    let lo = v.add(String::from("lo"));
    let merges = vec![(l, o, lo), (lo, w, low), (e, r, er), (low, er, lower)];
    assert_eq!((low, er, lower), (0, 1, 2));
    BPE::new(v, merges, None, cache_capacity)
}

#[test]
fn bpe_merges_lower_to_one_token() {
    let mut m = lower_bpe(100);
    let ts = m.tokenize(&String::from("lower")).unwrap();
    assert_eq!(ts.len(), 1);
    assert_eq!(ts[0].id, 2);
    assert_eq!(ts[0].value, String::from("lower"));
    assert_eq!(ts[0].offsets, (0, 5));
}

#[test]
fn bpe_cache_warm_and_cold_agree() {
    let mut m = lower_bpe(100);
    let cold = m.tokenize(&String::from("lower")).unwrap();
    let warm = m.tokenize(&String::from("lower")).unwrap();
    assert_eq!(cold, warm);
}

#[test]
fn bpe_cache_capacity_does_not_change_results() {
    let mut none = lower_bpe(0);
    let mut big = lower_bpe(1000);
    let word = String::from("lower");
    assert_eq!(none.tokenize(&word).unwrap(), big.tokenize(&word).unwrap());
    // run the cached side again: still identical
    assert_eq!(none.tokenize(&word).unwrap(), big.tokenize(&word).unwrap());
}

#[test]
fn bpe_single_char_entry_is_itself() {
    let mut m = lower_bpe(10);
    let ts = m.tokenize(&String::from("l")).unwrap();
    assert_eq!(ts.len(), 1);
    assert_eq!(ts[0].value, String::from("l"));
    assert_eq!(ts[0].offsets, (0, 1));
}

#[test]
fn bpe_unknown_atom_without_unk_fails() {
    let mut m = lower_bpe(10);
    let err = m.tokenize(&String::from("lox")).unwrap_err();
    assert_eq!(err, TokenizerError::UnknownSymbol);
}

#[test]
fn bpe_unknown_atom_with_unk_substitutes() {
    let mut v = Vocabulary::new();
    let unk = v.add(String::from("[UNK]"));
    let a = v.add(String::from("a"));
    let m2 = BPE::new(v, vec![], Some(unk), 10);
    let mut m2 = m2;
    let ts = m2.tokenize(&String::from("ab")).unwrap();
    assert_eq!(ts.len(), 2);
    assert_eq!(ts[0].id, a);
    assert_eq!(ts[1].id, unk);
    assert_eq!(ts[1].value, String::from("[UNK]"));
    assert_eq!(ts[1].offsets, (1, 2));
}

fn sample_wordpiece() -> WordPiece {
    let mut v = Vocabulary::new();
    let unk = v.add(String::from("[UNK]"));
    v.add(String::from("un"));
    v.add(String::from("##able"));
    v.add(String::from("##a"));
    v.add(String::from("able"));
    WordPiece::new(v, unk, String::from("##"), 100)
}

#[test]
fn wordpiece_greedy_longest_match() {
    let m = sample_wordpiece();
    let ts = m.tokenize(&String::from("unable")).unwrap();
    let values: Vec<String> = ts.iter().map(|t| t.value.clone()).collect();
    assert_eq!(values, vec![String::from("un"), String::from("##able")]);
    assert_eq!(ts[0].offsets, (0, 2));
    assert_eq!(ts[1].offsets, (2, 6));
}

#[test]
fn wordpiece_all_or_nothing_unknown() {
    let m = sample_wordpiece();
    // "una" matches "un" then "##a", but "unabz" fails after "un" + "##ab?"
    let ts = m.tokenize(&String::from("unabz")).unwrap();
    assert_eq!(ts.len(), 1);
    assert_eq!(ts[0].value, String::from("[UNK]"));
    assert_eq!(ts[0].offsets, (0, 5));
}

#[test]
fn wordpiece_long_word_is_unknown_directly() {
    let mut v = Vocabulary::new();
    let unk = v.add(String::from("[UNK]"));
    v.add(String::from("a"));
    let m = WordPiece::new(v, unk, String::from("##"), 3);
    let ts = m.tokenize(&String::from("aaaa")).unwrap();
    assert_eq!(ts.len(), 1);
    assert_eq!(ts[0].id, unk);
}

#[test]
fn wordlevel_lookup_and_unknown() {
    let mut v = Vocabulary::new();
    let unk = v.add(String::from("<unk>"));
    let hello = v.add(String::from("hello"));
    let m = WordLevel::new(v, Some(unk));
    let ts = m.tokenize(&String::from("hello")).unwrap();
    assert_eq!(ts, vec![Token::new(hello, String::from("hello"), 0, 5)]);
    let ts = m.tokenize(&String::from("misc")).unwrap();
    assert_eq!(ts[0].id, unk);

    let mut v2 = Vocabulary::new();
    v2.add(String::from("hello"));
    let m2 = WordLevel::new(v2, None);
    assert_eq!(
        m2.tokenize(&String::from("misc")).unwrap_err(),
        TokenizerError::UnknownSymbol
    );
}

#[test]
fn unigram_prefers_higher_scoring_paths() {
    // scores are fixed-point micro-log-probabilities, at most zero
    let mut v = Vocabulary::new();
    v.add(String::from("ab"));
    v.add(String::from("a"));
    v.add(String::from("b"));
    let m = Unigram::new(v, vec![-1000, -100, -100], None, -2000);
    let ts = m.tokenize(&String::from("ab")).unwrap();
    let values: Vec<String> = ts.iter().map(|t| t.value.clone()).collect();
    // the split path scores -200, the whole piece -1000
    assert_eq!(values, vec![String::from("a"), String::from("b")]);

    let mut v2 = Vocabulary::new();
    v2.add(String::from("ab"));
    v2.add(String::from("a"));
    v2.add(String::from("b"));
    let m2 = Unigram::new(v2, vec![-100, -1000, -1000], None, -2000);
    let ts2 = m2.tokenize(&String::from("ab")).unwrap();
    let values2: Vec<String> = ts2.iter().map(|t| t.value.clone()).collect();
    assert_eq!(values2, vec![String::from("ab")]);
}

#[test]
fn unigram_unknown_chars_need_an_unknown_token() {
    let mut v = Vocabulary::new();
    let unk = v.add(String::from("<unk>"));
    v.add(String::from("a"));
    let m = Unigram::new(v, vec![0, -100], Some(unk), -500);
    let ts = m.tokenize(&String::from("ax")).unwrap();
    assert_eq!(ts.len(), 2);
    assert_eq!(ts[0].value, String::from("a"));
    assert_eq!(ts[1].id, unk);
    assert_eq!(ts[1].offsets, (1, 2));

    let mut v2 = Vocabulary::new();
    v2.add(String::from("a"));
    let m2 = Unigram::new(v2, vec![-100], None, -500);
    assert_eq!(
        m2.tokenize(&String::from("ax")).unwrap_err(),
        TokenizerError::UnknownSymbol
    );
}

#[test]
fn offsets_are_byte_positions_for_multibyte_text() {
    let mut v = Vocabulary::new();
    let unk = v.add(String::from("<unk>"));
    let word = v.add(String::from("héllo"));
    let m = WordLevel::new(v, Some(unk));
    let ts = m.tokenize(&String::from("héllo")).unwrap();
    assert_eq!(ts[0].id, word);
    // é takes two bytes
    assert_eq!(ts[0].offsets, (0, 6));
}
