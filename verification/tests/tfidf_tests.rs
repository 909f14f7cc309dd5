use aetherium::storage::error::StorageError;
use aetherium::tfidf::bigram::BigramIterator;
use aetherium::tfidf::chunkreader::{read_all, ChunkReader, ReadStep};
use aetherium::tfidf::codeblock_filter::CodeBlockFilter;
use aetherium::tfidf::doc_counter::DocumentCounter;
use aetherium::tfidf::sentence_chunker::{split_by_tokens, SentenceChunker, SentenceChunkerBatcher};
use aetherium::tfidf::sentence_splitter::{Sentence, SentenceSplitter};
use aetherium::tfidf::term_counter::{TermCounter, TermCounts};
use aetherium::tfidf::text_extractor::{TextChunk, TextExtractor};
use aetherium::tfidf::tokenizer::Tokenizer;
use aetherium::tfidf::utils::split_complete_buffer;
use aetherium::tfidf::TFIDFCorpus;
use aetherium::storage::sqlite_version::FileInSQL;

fn ok(s: &str) -> Result<String, StorageError> {
    Ok(s.to_string())
}

fn count_of(c: &TermCounts, t: &str) -> usize {
    c.get(t)
}

#[test]
fn tokenize_chunk_lowercases_and_drops_mixed_pieces() {
    let t = Tokenizer::tokenize_chunk("Hello, World! foo_bar x2 caf\u{e9} a-b 3.14 don't");
    assert_eq!(t, vec!["hello", "world", "foo", "bar", "x2", "café", "a", "b", "3", "14", "don", "t"]);
    assert!(Tokenizer::tokenize_chunk("  \t ,,, ").is_empty());
}

#[test]
fn tokenize_chunk_drops_pieces_with_symbols() {
    assert_eq!(Tokenizer::tokenize_chunk("price 5€ ok"), vec!["price", "ok"]);
}

#[test]
fn tokenizer_streams_tokens_and_failures() {
    let mut t = Tokenizer::new(vec![ok("A b"), Err(StorageError::Io("x".into())), ok(""), ok("c")]);
    assert_eq!(t.next(), Some(Ok("a".to_string())));
    assert_eq!(t.next(), Some(Ok("b".to_string())));
    assert_eq!(t.next(), Some(Err(StorageError::Io("x".into()))));
    assert_eq!(t.next(), Some(Ok("c".to_string())));
    assert_eq!(t.next(), None);
    assert_eq!(t.next(), None);
}

#[test]
fn split_complete_buffer_cuts_after_last_delimiter() {
    let (a, b) = split_complete_buffer(b"hello wor");
    assert_eq!(a, b"hello ".to_vec());
    assert_eq!(b, b"wor".to_vec());
    let (a, b) = split_complete_buffer(b"nodelim");
    assert!(a.is_empty());
    assert_eq!(b, b"nodelim".to_vec());
    let (a, b) = split_complete_buffer(b"end.");
    assert_eq!(a, b"end.".to_vec());
    assert!(b.is_empty());
    for buf in [&b"a/b:c"[..], b"", b"x y\tz!", b";;"] {
        let (a, b) = split_complete_buffer(buf);
        let mut joined = a.clone();
        joined.extend_from_slice(&b);
        assert_eq!(joined, buf.to_vec());
    }
}

#[test]
fn chunk_reader_hands_on_complete_words() {
    let mut r = ChunkReader::new();
    match r.on_read(Ok(b"hello wo".to_vec())) {
        ReadStep::Chunk(Ok(s)) => assert_eq!(s, "hello "),
        _ => panic!("expected a chunk"),
    }
    assert!(matches!(r.on_read(Ok(b"rl".to_vec())), ReadStep::NeedMore));
    match r.on_read(Ok(Vec::new())) {
        ReadStep::Chunk(Ok(s)) => assert_eq!(s, "worl"),
        _ => panic!("expected the carried chunk"),
    }
    assert!(r.is_done());
    assert_eq!(r.drain(), None);
}

#[test]
fn chunk_reader_reports_bad_utf8_and_read_failures() {
    let mut r = ChunkReader::new();
    match r.on_read(Err(StorageError::Io("disk".into()))) {
        ReadStep::Chunk(Err(e)) => assert_eq!(e, StorageError::Io("disk".into())),
        _ => panic!("expected the failure"),
    }
    match r.on_read(Ok(vec![0xff, b' '])) {
        ReadStep::Chunk(Err(e)) => assert_eq!(e, StorageError::Corrupt("invalid utf-8 in carry".into())),
        _ => panic!("expected a utf-8 failure"),
    }
    assert!(matches!(r.on_read(Ok(Vec::new())), ReadStep::Finished));
}

#[test]
fn read_all_keeps_every_byte() {
    let reads = vec![Ok(b"one tw".to_vec()), Ok(b"o three".to_vec()), Ok(Vec::new()), Ok(b"ignored".to_vec())];
    let chunks = read_all(reads);
    let texts: Vec<String> = chunks.into_iter().map(|c| c.unwrap()).collect();
    assert_eq!(texts, vec!["one ", "two ", "three"]);
    assert_eq!(texts.concat(), "one two three");
    let none = read_all(Vec::new());
    assert!(none.is_empty());
}

#[test]
fn term_count_counts_and_stops_at_failure() {
    let c = TermCounter::count(vec![ok("a"), ok("b"), ok("a")]).unwrap();
    assert_eq!(c.len(), 2);
    assert_eq!(count_of(&c, "a"), 2);
    assert_eq!(count_of(&c, "b"), 1);
    assert_eq!(count_of(&c, "z"), 0);
    let e = TermCounter::count(vec![ok("a"), Err(StorageError::Corrupt("bad".into())), Err(StorageError::Io("x".into()))]);
    assert_eq!(e.err(), Some(StorageError::Corrupt("bad".into())));
    let s = TermCounter::count_from_str(vec!["x".into(), "x".into()]);
    assert_eq!(count_of(&s, "x"), 2);
    let entries = s.entries();
    assert_eq!(entries, vec![("x".to_string(), 2)]);
}

#[test]
fn count_from_file_runs_the_whole_pipeline() {
    let reads = vec![Ok(b"The cat. The ".to_vec()), Ok(b"DOG".to_vec()), Ok(Vec::new())];
    let c = TermCounter::count_from_file(reads).unwrap();
    assert_eq!(count_of(&c, "the"), 2);
    assert_eq!(count_of(&c, "cat"), 1);
    assert_eq!(count_of(&c, "dog"), 1);
    let bad = TermCounter::count_from_file(vec![Ok(vec![b'a', 0xc3, b' ']), Ok(Vec::new())]);
    assert_eq!(bad.err(), Some(StorageError::Corrupt("invalid utf-8 in carry".into())));
}

#[test]
fn bigrams_follow_stop_words() {
    let stops = vec!["the".to_string(), "a".to_string()];
    let mut it = BigramIterator::new(vec![ok("the"), ok("cat"), ok("a"), ok("the")], stops.clone());
    let mut out = Vec::new();
    while let Some(x) = it.next() {
        out.push(x.unwrap());
    }
    assert_eq!(out, vec!["the", "the cat", "a", "cat a", "the"]);
    let c = TermCounter::count_with_bigrams(vec![ok("x"), ok("y")], stops).unwrap();
    assert_eq!(count_of(&c, "x y"), 1);
    assert_eq!(count_of(&c, "x"), 0);
}

#[test]
fn unique_terms_and_document_counts() {
    let u = DocumentCounter::unique_terms(vec![ok("a"), ok("b"), ok("a")]).unwrap();
    assert_eq!(u, vec!["a", "b"]);
    let mut df = TermCounts::new();
    DocumentCounter::accumulate(&mut df, u);
    DocumentCounter::accumulate(&mut df, vec!["b".to_string()]);
    assert_eq!(df.get("a"), 1);
    assert_eq!(df.get("b"), 2);
    let e = DocumentCounter::unique_terms(vec![Err(StorageError::Io("r".into()))]);
    assert_eq!(e.err(), Some(StorageError::Io("r".into())));
}

#[test]
fn code_blocks_are_dropped_across_chunks() {
    let mut f = CodeBlockFilter::new(vec![
        ok("text\n```rust\nfn x() {}\n"),
        ok("still code\n```\nafter\r\n```ad-note\nkept\n"),
        ok("```\nhidden"),
    ]);
    assert_eq!(f.next(), Some(Ok("text\n".to_string())));
    assert_eq!(f.next(), Some(Ok("after\n```ad-note\nkept\n".to_string())));
    assert_eq!(f.next(), None);
    let mut g = CodeBlockFilter::new(Vec::new());
    assert_eq!(g.filter_chunk("a\n  ```\nb\n```\nc"), "a\nc\n");
}

#[test]
fn paragraphs_are_cut_at_blank_lines() {
    let mut t = TextExtractor::new(vec![ok("first para\n\nsecond "), ok("part\n\n\n\nthird")]);
    let a = t.next().unwrap().unwrap();
    assert_eq!((a.text.as_str(), a.start_char), ("first para", 0));
    let b = t.next().unwrap().unwrap();
    assert_eq!((b.text.as_str(), b.start_char), ("second part", 12));
    let c = t.next().unwrap().unwrap();
    assert_eq!((c.text.as_str(), c.start_char), ("\n\nthird", 25));
    assert!(t.next().is_none());
}

#[test]
fn text_extractor_passes_failures_on() {
    let mut t = TextExtractor::new(vec![ok("lost"), Err(StorageError::Io("e".into())), ok("kept")]);
    assert_eq!(t.next().unwrap().err(), Some(StorageError::Io("e".into())));
    let k = t.next().unwrap().unwrap();
    assert_eq!((k.text.as_str(), k.start_char), ("kept", 0));
}

#[test]
fn sentences_are_split_at_delimiters() {
    let para = TextChunk { text: "Hi there. Mr. Smith came! Ok".to_string(), start_char: 5 };
    let s = SentenceSplitter::split(&para);
    let texts: Vec<&str> = s.iter().map(|x| x.text.as_str()).collect();
    assert_eq!(texts, vec!["Hi there.", " Mr. Smith came!", " Ok"]);
    assert_eq!((s[0].start_char, s[0].end_char), (5, 14));
    assert_eq!((s[1].start_char, s[1].end_char), (22, 38));
    assert_eq!((s[2].start_char, s[2].end_char), (38, 41));
    assert!(SentenceSplitter::try_split(&para).is_some());
}

fn sentence(text: &str, start: usize) -> Sentence {
    Sentence { text: text.to_string(), start_char: start, end_char: start + text.len() }
}

#[test]
fn split_by_tokens_cuts_at_the_limit() {
    let ss = vec![sentence("a b", 0), sentence("c d e", 3), sentence("f", 8)];
    let (a, b) = split_by_tokens(ss, 4);
    assert_eq!(a.len(), 1);
    assert_eq!(b.len(), 2);
    let (a, b) = split_by_tokens(vec![sentence("a b", 0)], 10);
    assert_eq!((a.len(), b.len()), (1, 0));
    let (a, b) = split_by_tokens(vec![sentence("a b", 0)], 0);
    assert_eq!((a.len(), b.len()), (0, 1));
}

#[test]
fn chunker_groups_sentences() {
    let src = vec![ok("One two. Three four.\n\nFive six seven.")];
    let mut c = SentenceChunker::try_new(src, 3, 0, 1).unwrap();
    let first = c.next().unwrap().unwrap();
    assert_eq!(first.index, 0);
    assert_eq!(first.chunks.len(), 1);
    assert_eq!(first.chunks[0].text, "One two.");
    assert_eq!((first.start_at, first.end_at), (0, 8));
    let second = c.next().unwrap().unwrap();
    assert_eq!(second.index, 1);
    let texts: Vec<&str> = second.chunks.iter().map(|x| x.text.as_str()).collect();
    assert_eq!(texts, vec!["One two."]);
    let third = c.next().unwrap().unwrap();
    assert_eq!(third.index, 2);
    let texts: Vec<&str> = third.chunks.iter().map(|x| x.text.as_str()).collect();
    assert_eq!(texts, vec!["One two.", " Three four.", "Five six seven."]);
    assert_eq!((third.start_at, third.end_at), (0, 37));
    assert!(c.next().is_none());
}

#[test]
fn batcher_gathers_chunks() {
    let src = vec![ok("a b c.\n\nd e f.\n\ng h i.")];
    let mut b = SentenceChunkerBatcher::new(src, 2, 4, 0);
    let first = b.next().unwrap().unwrap();
    assert_eq!(first.len(), 2);
    assert_eq!((first[0].index, first[1].index), (0, 1));
    let second = b.next().unwrap().unwrap();
    assert_eq!(second.len(), 1);
    assert_eq!(second[0].chunks[0].text, "g h i.");
    assert!(b.next().is_none());
}

#[test]
fn corpus_records_documents() {
    let mut c = TFIDFCorpus::new();
    let file = FileInSQL {
        id: "doc1".into(),
        name: "n".into(),
        hash: "h".into(),
        extension: "text/plain".into(),
        created_at: None,
        modified_at: None,
        indexed_at: None,
        embedded_at: None,
    };
    c.add_document(&file, vec![Ok(b"apple apple pear".to_vec()), Ok(Vec::new())]).unwrap();
    assert_eq!(c.total_docs(), 1);
    assert_eq!(c.term_count("doc1", "apple"), 2);
    assert_eq!(c.document_count("apple"), 1);
    let bad = c.add_document(&file, vec![Err(StorageError::Io("gone".into()))]);
    assert_eq!(bad.err(), Some(StorageError::Io("gone".into())));
    assert_eq!(c.total_docs(), 1);
    c.add_document(&file, vec![Ok(b"pear".to_vec())]).unwrap();
    assert_eq!(c.total_docs(), 2);
    assert_eq!(c.term_count("doc1", "apple"), 0);
    assert_eq!(c.document_count("pear"), 2);
    assert_eq!(c.term_count("other", "pear"), 0);
    let tf = TFIDFCorpus::compute_tf(vec![Ok(b"z z".to_vec())]).unwrap();
    assert_eq!(tf.get("z"), 2);
}

#[test]
fn tokens_do_not_depend_on_where_text_is_cut() {
    let whole = Tokenizer::tokenize_chunk("Alpha beta. Gamma, delta!");
    let mut parts = Tokenizer::tokenize_chunk("Alpha beta.");
    parts.extend(Tokenizer::tokenize_chunk(" Gamma, delta!"));
    assert_eq!(whole, parts);
    let by_small = TermCounter::count_from_file(vec![Ok(b"Alpha be".to_vec()), Ok(b"ta. Gam".to_vec()), Ok(b"ma".to_vec()), Ok(Vec::new())]).unwrap();
    let by_large = TermCounter::count_from_file(vec![Ok(b"Alpha beta. Gamma".to_vec()), Ok(Vec::new())]).unwrap();
    for t in ["alpha", "beta", "gamma"] {
        assert_eq!(count_of(&by_small, t), 1);
        assert_eq!(count_of(&by_large, t), 1);
    }
}

#[test]
fn chunks_before_the_last_stay_under_the_limit() {
    let src = vec![ok("a b. c d. e f g h.\n\ni j. k.")];
    let mut c = SentenceChunker::try_new(src, 3, 5, 0).unwrap();
    let mut got = Vec::new();
    while let Some(item) = c.next() {
        got.push(item.unwrap());
    }
    assert!(!got.is_empty());
    for (k, ch) in got.iter().enumerate() {
        assert_eq!(ch.index, 5 + k);
        assert!(!ch.chunks.is_empty());
        assert_eq!(ch.start_at, ch.chunks[0].start_char);
        assert_eq!(ch.end_at, ch.chunks[ch.chunks.len() - 1].end_char);
        if k + 1 < got.len() {
            let words: usize = ch.chunks.iter().map(|s| s.text.split_whitespace().count()).sum();
            assert!(words < 3);
        }
    }
}

#[test]
fn compute_tf_counts_the_whole_text_for_any_block_size() {
    let text = "Héllo wörld. Ça va, héllo!".as_bytes().to_vec();
    let whole = TermCounter::count_from_str(Tokenizer::tokenize_chunk("Héllo wörld. Ça va, héllo!"));
    for size in [1usize, 2, 3, 5, 64] {
        let mut reads: Vec<Result<Vec<u8>, StorageError>> = text.chunks(size).map(|b| Ok(b.to_vec())).collect();
        reads.push(Ok(Vec::new()));
        let c = TFIDFCorpus::compute_tf(reads).unwrap();
        for t in ["héllo", "wörld", "ça", "va"] {
            assert_eq!(count_of(&c, t), count_of(&whole, t), "term {} at block size {}", t, size);
        }
        assert_eq!(c.len(), whole.len());
    }
}
