use handy_text::{
    extract_punctuation, filter_transcription_output, is_gpu_contention_hallucination,
    is_likely_hallucination, preserve_case_pattern,
};

#[test]
fn test_preserve_case_pattern() {
    assert_eq!(preserve_case_pattern("HELLO", "world"), "WORLD");
    assert_eq!(preserve_case_pattern("Hello", "world"), "World");
    assert_eq!(preserve_case_pattern("hello", "WORLD"), "WORLD");
}

#[test]
fn test_extract_punctuation() {
    assert_eq!(extract_punctuation("hello"), ("", ""));
    assert_eq!(extract_punctuation("!hello?"), ("!", "?"));
    assert_eq!(extract_punctuation("...hello..."), ("...", "..."));
}

#[test]
fn test_filter_filler_words() {
    let text = "So um I was thinking uh about this";
    let result = filter_transcription_output(text);
    assert_eq!(result, "So I was thinking about this");
}

#[test]
fn test_filter_filler_words_case_insensitive() {
    let text = "UM this is UH a test";
    let result = filter_transcription_output(text);
    assert_eq!(result, "this is a test");
}

#[test]
fn test_filter_filler_words_with_punctuation() {
    let text = "Well, um, I think, uh. that's right";
    let result = filter_transcription_output(text);
    assert_eq!(result, "Well, I think, that's right");
}

#[test]
fn test_filter_cleans_whitespace() {
    let text = "Hello    world   test";
    let result = filter_transcription_output(text);
    assert_eq!(result, "Hello world test");
}

#[test]
fn test_filter_trims() {
    let text = "  Hello world  ";
    let result = filter_transcription_output(text);
    assert_eq!(result, "Hello world");
}

#[test]
fn test_filter_combined() {
    let text = "  Um, so I was, uh, thinking about this  ";
    let result = filter_transcription_output(text);
    assert_eq!(result, "so I was, thinking about this");
}

#[test]
fn test_filter_preserves_valid_text() {
    let text = "This is a completely normal sentence.";
    let result = filter_transcription_output(text);
    assert_eq!(result, "This is a completely normal sentence.");
}

#[test]
fn test_filter_stutter_collapse() {
    let text = "w wh wh wh wh wh wh wh wh wh why";
    let result = filter_transcription_output(text);
    assert_eq!(result, "w wh why");
}

#[test]
fn test_filter_stutter_short_words() {
    let text = "I I I I think so so so so";
    let result = filter_transcription_output(text);
    assert_eq!(result, "I think so");
}

#[test]
fn test_filter_stutter_mixed_case() {
    let text = "No NO no NO no";
    let result = filter_transcription_output(text);
    assert_eq!(result, "No");
}

#[test]
fn test_filter_stutter_preserves_two_repetitions() {
    let text = "no no is fine";
    let result = filter_transcription_output(text);
    assert_eq!(result, "no no is fine");
}

#[test]
fn test_filter_repeated_punctuation() {
    let text = "Hello!!! World???";
    let result = filter_transcription_output(text);
    assert_eq!(result, "Hello! World?");
}

#[test]
fn test_filter_repeated_chars() {
    // 5+ repetitions of single chars are removed as hallucinations
    let text = "f f f f f f hello";
    let result = filter_transcription_output(text);
    assert_eq!(result, "hello");
}

#[test]
fn test_filter_preserves_normal_exclamation() {
    let text = "Really?! That's amazing!";
    let result = filter_transcription_output(text);
    assert_eq!(result, "Really?! That's amazing!");
}

#[test]
fn test_is_hallucination_empty() {
    assert!(is_likely_hallucination(""));
    assert!(is_likely_hallucination("   "));
    assert!(is_likely_hallucination("a"));
}

#[test]
fn test_is_hallucination_known_phrases() {
    assert!(is_likely_hallucination("Thank you for watching"));
    assert!(is_likely_hallucination("thanks for watching this video"));
    assert!(is_likely_hallucination("[music]"));
    assert!(is_likely_hallucination("[applause]"));
}

#[test]
fn test_is_hallucination_non_alpha() {
    assert!(is_likely_hallucination("!!!!!!!!"));
    assert!(is_likely_hallucination("..........."));
    assert!(is_likely_hallucination("???!???!???"));
}

#[test]
fn test_is_hallucination_repetitive() {
    assert!(is_likely_hallucination("ffffffffff"));
    assert!(is_likely_hallucination("aaaaaaaaaaaa"));
}

#[test]
fn test_is_not_hallucination_valid() {
    assert!(!is_likely_hallucination("Hello world"));
    assert!(!is_likely_hallucination("This is a normal sentence."));
    assert!(!is_likely_hallucination("Testing 123"));
}

#[test]
fn test_gpu_hallucination_all_punctuation() {
    // All-punctuation outputs are GPU contention hallucinations
    assert!(is_gpu_contention_hallucination("!!!!!!!!"));
    assert!(is_gpu_contention_hallucination("...???..."));
    assert!(is_gpu_contention_hallucination("!?!?!?!?"));
    assert!(is_gpu_contention_hallucination("---...---"));
    assert!(is_gpu_contention_hallucination(",,,"));
}

#[test]
fn test_gpu_hallucination_short_with_punctuation() {
    // Short text with >50% punctuation is hallucination
    assert!(is_gpu_contention_hallucination("a!"));
    assert!(is_gpu_contention_hallucination("!a!"));
    assert!(is_gpu_contention_hallucination("..a"));
    // But normal short text is fine
    assert!(!is_gpu_contention_hallucination("hello"));
    assert!(!is_gpu_contention_hallucination("Hi"));
}

#[test]
fn test_gpu_hallucination_repetitive_words() {
    // Repetitive single-word nonsense is hallucination
    assert!(is_gpu_contention_hallucination("you you you you"));
    assert!(is_gpu_contention_hallucination("the the the the the"));
    assert!(is_gpu_contention_hallucination("a a a a a a"));
    // But normal text with some repetition is fine
    assert!(!is_gpu_contention_hallucination("I think I think we should go"));
    assert!(!is_gpu_contention_hallucination("hello world"));
}

#[test]
fn test_gpu_hallucination_unicode_garbage() {
    // Unicode garbage with control characters
    assert!(is_gpu_contention_hallucination("hello\x00world"));
    assert!(is_gpu_contention_hallucination("test\x1Fdata"));
    // Private use area characters
    assert!(is_gpu_contention_hallucination("text\u{E000}here"));
    // Normal unicode is fine
    assert!(!is_gpu_contention_hallucination("Hello café"));
    assert!(!is_gpu_contention_hallucination("日本語テスト"));
}

#[test]
fn test_valid_transcriptions_not_flagged() {
    // Normal transcriptions should not be flagged
    assert!(!is_gpu_contention_hallucination("Hello, how are you today?"));
    assert!(!is_gpu_contention_hallucination("The quick brown fox jumps over the lazy dog."));
    assert!(!is_gpu_contention_hallucination("Testing 1 2 3"));
    assert!(!is_gpu_contention_hallucination("What's going on?"));
    assert!(!is_gpu_contention_hallucination("I can't believe it!"));
    // Short but valid
    assert!(!is_gpu_contention_hallucination("OK"));
    assert!(!is_gpu_contention_hallucination("yes"));
    assert!(!is_gpu_contention_hallucination("no"));
}

#[test]
fn test_gpu_hallucination_empty_and_whitespace() {
    assert!(is_gpu_contention_hallucination(""));
    assert!(is_gpu_contention_hallucination("   "));
    assert!(is_gpu_contention_hallucination("\t\n"));
}
