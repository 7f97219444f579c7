//! The thin rule-based collaborators: decoders, normalizers,
//! pre-tokenizers and post-processors.

use tokenizers::decoders::{BPEDecoder, DecoderWrapper, WordPieceDecoder};
use tokenizers::normalizers::{BertNormalizer, Lowercase, NormalizerWrapper};
use tokenizers::pre_tokenizers::{PreTokenizerWrapper, WhitespaceSplit};
use tokenizers::processors::{BertProcessing, Encoding, PostProcessorWrapper, RobertaProcessing};

#[test]
fn wordpiece_decoder_strips_continuations() {
    let d = DecoderWrapper::WordPiece(WordPieceDecoder::new(String::from("##")));
    let out = d
        .decode(vec![
            String::from("un"),
            String::from("##able"),
            String::from("now"),
        ])
        .unwrap();
    assert_eq!(out, String::from("unable now"));
}

#[test]
fn bpe_decoder_turns_suffixes_into_spaces() {
    let d = DecoderWrapper::BPE(BPEDecoder::new(String::from("</w>")));
    let out = d
        .decode(vec![String::from("hello</w>"), String::from("world")])
        .unwrap();
    assert_eq!(out, String::from("hello world"));
}

#[test]
fn lowercase_normalizer_folds_ascii() {
    let n = NormalizerWrapper::Lowercase(Lowercase);
    assert_eq!(
        n.normalize(&String::from("Hello WORLD")).unwrap(),
        String::from("hello world")
    );
    let b = NormalizerWrapper::BertNormalizer(BertNormalizer::new(false));
    assert_eq!(
        b.normalize(&String::from("Hello")).unwrap(),
        String::from("Hello")
    );
    let b = NormalizerWrapper::BertNormalizer(BertNormalizer::new(true));
    assert_eq!(
        b.normalize(&String::from("Hello")).unwrap(),
        String::from("hello")
    );
}

#[test]
fn whitespace_split_keeps_byte_offsets() {
    let p = PreTokenizerWrapper::WhitespaceSplit(WhitespaceSplit);
    let pieces = p.pre_tokenize(&String::from("  hey you ")).unwrap();
    assert_eq!(
        pieces,
        vec![
            (String::from("hey"), (2, 5)),
            (String::from("you"), (6, 9)),
        ]
    );
    let empty = p.pre_tokenize(&String::from("   ")).unwrap();
    assert_eq!(empty, vec![]);
}

#[test]
fn bert_processing_frames_sequences() {
    let b = PostProcessorWrapper::Bert(BertProcessing::new(
        (String::from("[SEP]"), 102),
        (String::from("[CLS]"), 101),
    ));
    assert_eq!(b.added_tokens(false), 2);
    assert_eq!(b.added_tokens(true), 3);
    let e = Encoding::new(vec![5, 6], vec![0, 0]);
    let out = b.process(e, None, true).unwrap();
    assert_eq!(out.ids, vec![101, 5, 6, 102]);
    assert_eq!(out.type_ids, vec![0, 0, 0, 0]);

    let e = Encoding::new(vec![5], vec![0]);
    let p = Encoding::new(vec![7, 8], vec![0, 0]);
    let out = b.process(e, Some(p), true).unwrap();
    assert_eq!(out.ids, vec![101, 5, 102, 7, 8, 102]);
    assert_eq!(out.type_ids, vec![0, 0, 0, 1, 1, 1]);
}

#[test]
fn roberta_processing_doubles_the_separator() {
    let r = PostProcessorWrapper::Roberta(RobertaProcessing::new(
        (String::from("</s>"), 2),
        (String::from("<s>"), 0),
    ));
    assert_eq!(r.added_tokens(false), 2);
    assert_eq!(r.added_tokens(true), 4);
    let e = Encoding::new(vec![5], vec![0]);
    let p = Encoding::new(vec![7], vec![0]);
    let out = r.process(e, Some(p), true).unwrap();
    assert_eq!(out.ids, vec![0, 5, 2, 2, 7, 2]);
    assert_eq!(out.type_ids, vec![0, 0, 0, 0, 0, 0]);
}
