use aetherium::text::{is_ascii_punctuation_char, is_whitespace_char, join_strings, reversed, usize_to_string};
use aetherium::tfidf::sentence_splitter::SentenceSplitter;
use aetherium::tfidf::text_extractor::TextChunk;
use aetherium::tfidf::tokenizer::Tokenizer;

#[test]
fn whitespace_class_matches_std_for_every_char() {
    for u in 0u32..=0x10FFFF {
        if let Some(c) = char::from_u32(u) {
            assert_eq!(is_whitespace_char(c), c.is_whitespace(), "char {:?}", c);
        }
    }
}

#[test]
fn ascii_punctuation_matches_std() {
    for u in 0u32..=0x2FF {
        if let Some(c) = char::from_u32(u) {
            assert_eq!(is_ascii_punctuation_char(c), c.is_ascii_punctuation(), "char {:?}", c);
        }
    }
}

#[test]
fn std_char_classes_are_passed_on() {
    assert_eq!(Tokenizer::tokenize_chunk("HeLLo ÄÖ é2 x\u{2603}y"), vec!["hello", "äö", "é2"]);
    let para = TextChunk { text: "Item \u{663}. Next one. End".to_string(), start_char: 0 };
    let texts: Vec<String> = SentenceSplitter::split(&para).into_iter().map(|s| s.text).collect();
    assert_eq!(texts, vec!["Item \u{663}. Next one.", " End"]);
}

#[test]
fn decimal_text() {
    assert_eq!(usize_to_string(0), "0");
    assert_eq!(usize_to_string(7), "7");
    assert_eq!(usize_to_string(1203), "1203");
    assert_eq!(usize_to_string(usize::MAX), usize::MAX.to_string());
}

#[test]
fn joining_and_reversing() {
    let parts = vec!["a".to_string(), "bc".to_string(), "".to_string()];
    assert_eq!(join_strings(&parts, '/'), "a/bc/");
    assert_eq!(join_strings(&Vec::new(), '/'), "");
    assert_eq!(reversed(vec![1, 2, 3]), vec![3, 2, 1]);
}
