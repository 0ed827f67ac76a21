use traitclaw::chunker::{Chunker, FixedSizeChunker, RecursiveChunker, SentenceChunker};

#[test]
fn test_fixed_size_empty_input() {
    let c = FixedSizeChunker::new(200, 50);
    assert!(c.chunk("").is_empty());
}

#[test]
fn test_fixed_size_short_text() {
    let c = FixedSizeChunker::new(200, 50);
    let chunks = c.chunk("short");
    assert_eq!(chunks.len(), 1);
    assert_eq!(chunks[0], "short");
}

#[test]
fn test_fixed_size_produces_overlap() {
    let text = "a".repeat(1000);
    let c = FixedSizeChunker::new(200, 50);
    let chunks = c.chunk(&text);
    assert!(chunks.len() >= 5, "expected >= 5 chunks, got {}", chunks.len());
    let end_of_first: String = chunks[0]
        .chars()
        .rev()
        .take(50)
        .collect::<String>()
        .chars()
        .rev()
        .collect();
    let start_of_second: String = chunks[1].chars().take(50).collect();
    assert_eq!(end_of_first, start_of_second, "overlap not maintained");
}

#[test]
fn test_fixed_size_each_chunk_not_exceeds_size() {
    let text = "x".repeat(500);
    let c = FixedSizeChunker::new(100, 25);
    for chunk in c.chunk(&text) {
        assert!(chunk.chars().count() <= 100);
    }
}

#[test]
fn test_sentence_chunker_empty() {
    let c = SentenceChunker::new(3);
    assert!(c.chunk("").is_empty());
}

#[test]
fn test_sentence_chunker_10_sentences_gives_4_chunks() {
    let sents: Vec<String> = (1..=10).map(|i| format!("Sentence {i}.")).collect();
    let text = sents.join(" ");
    let c = SentenceChunker::new(3);
    let chunks = c.chunk(&text);
    assert_eq!(chunks.len(), 4, "expected 4 chunks, got {}: {:?}", chunks.len(), chunks);
}

#[test]
fn test_sentence_chunker_single() {
    let c = SentenceChunker::new(3);
    let chunks = c.chunk("One sentence.");
    assert_eq!(chunks.len(), 1);
}

#[test]
fn test_sentence_chunker_exclamation_question() {
    let c = SentenceChunker::new(2);
    let chunks = c.chunk("Hello! How are you? I'm fine.");
    assert_eq!(chunks.len(), 2);
}

#[test]
fn test_recursive_chunker_empty() {
    let c = RecursiveChunker::new(200);
    assert!(c.chunk("").is_empty());
}

#[test]
fn test_recursive_chunker_paragraph_split() {
    let text = "Short paragraph one.\n\nShort paragraph two.";
    let c = RecursiveChunker::new(200);
    let chunks = c.chunk(text);
    assert_eq!(chunks.len(), 2);
}

#[test]
fn test_recursive_chunker_long_paragraph_splits_to_sentences() {
    let long_sentence = "word ".repeat(20);
    let text = format!(
        "{}. {}. {}.",
        long_sentence.trim(),
        long_sentence.trim(),
        long_sentence.trim()
    );
    let c = RecursiveChunker::new(110);
    let chunks = c.chunk(&text);
    assert!(chunks.len() >= 2, "expected multiple chunks for long paragraph");
}

#[test]
fn test_recursive_chunker_each_chunk_within_limit() {
    let long_text = format!("word. {}", "sentence text here. ".repeat(50));
    let c = RecursiveChunker::new(100);
    for chunk in c.chunk(&long_text) {
        assert!(
            chunk.chars().count() <= 100,
            "chunk exceeds max_chunk_size: {} chars",
            chunk.chars().count()
        );
    }
}

#[test]
fn fixed_size_windows_exact() {
    let c = FixedSizeChunker::new(4, 1);
    let chunks = c.chunk("abcdefghij");
    assert_eq!(chunks, vec!["abcd", "defg", "ghij"]);
}

#[test]
fn fixed_size_counts_characters_not_bytes() {
    let c = FixedSizeChunker::new(2, 0);
    let chunks = c.chunk("éàü");
    assert_eq!(chunks, vec!["éà", "ü"]);
}

#[test]
fn split_sentences_trims_and_keeps_remainder() {
    let s = SentenceChunker::split_sentences("  One.  Two!  tail ");
    assert_eq!(s, vec!["One.", "Two!", "tail"]);
}

#[test]
fn split_sentences_drops_empty_pieces() {
    let s = SentenceChunker::split_sentences(" . ..");
    assert_eq!(s, vec![".", ".", "."]);
    assert!(SentenceChunker::split_sentences("   ").is_empty());
}

#[test]
fn sentence_chunker_joins_with_spaces() {
    let c = SentenceChunker::new(2);
    let chunks = c.chunk("A. B. C.");
    assert_eq!(chunks, vec!["A. B.", "C."]);
}

#[test]
fn sentence_chunker_whitespace_only_gives_nothing() {
    let c = SentenceChunker::new(2);
    assert!(c.chunk("   \n ").is_empty());
}

#[test]
fn recursive_chunker_skips_blank_paragraphs() {
    let c = RecursiveChunker::new(50);
    let chunks = c.chunk("  First.  \n\n   \n\nSecond.");
    assert_eq!(chunks, vec!["First.", "Second."]);
}

#[test]
fn recursive_chunker_packs_sentences_greedily() {
    let c = RecursiveChunker::new(12);
    let chunks = c.chunk("Aaaa. Bbbb. Cccc.");
    assert_eq!(chunks, vec!["Aaaa. Bbbb.", "Cccc."]);
}

#[test]
fn recursive_chunker_falls_back_to_characters() {
    let c = RecursiveChunker::new(4);
    let chunks = c.chunk("abcdefghij");
    assert_eq!(chunks, vec!["abcd", "efgh", "ij"]);
}

#[test]
fn fixed_chunks_rejoin_to_the_text() {
    let chunker = FixedSizeChunker::new(4, 1);
    let chunks = chunker.chunk("abcdefghij");
    assert_eq!(chunks, vec!["abcd".to_string(), "defg".to_string(), "ghij".to_string()]);
    let mut joined = chunks[0].clone();
    for c in &chunks[1..] {
        joined.extend(c.chars().skip(1));
    }
    assert_eq!(joined, "abcdefghij");
    assert_eq!(FixedSizeChunker::new(4, 1).chunk("abcdefghijk").len(), 4);
}
