use handy_text::{
    apply_word_choices, custom_word_candidates, extract_punctuation, filter_transcription_output,
    filter_with, is_gpu_contention_hallucination, is_likely_hallucination, preserve_case_pattern,
    FilterPatterns,
};

fn strings(words: &[&str]) -> Vec<String> {
    words.iter().map(|w| w.to_string()).collect()
}

#[test]
fn gpu_garbage_is_also_likely_hallucination() {
    for text in ["!!!!!!!!", "a!", "you you you you", "test\x1Fdata", "", "..a"] {
        assert!(is_gpu_contention_hallucination(text));
        assert!(is_likely_hallucination(text));
    }
}

#[test]
fn checks_ignore_surrounding_whitespace() {
    for text in ["hello world", "a!", "Thank you for watching", "ffffffffff", "OK"] {
        let padded = format!(" \t {} \n", text);
        assert_eq!(is_gpu_contention_hallucination(&padded), is_gpu_contention_hallucination(text));
        assert_eq!(is_likely_hallucination(&padded), is_likely_hallucination(text));
    }
}

#[test]
fn blank_text_is_garbage() {
    assert!(is_gpu_contention_hallucination(" \t\n "));
    assert!(is_likely_hallucination(" \t\n "));
}

#[test]
fn repeated_word_check_ignores_case() {
    assert!(is_gpu_contention_hallucination("you YOU You yOu"));
    assert!(!is_gpu_contention_hallucination("you me you me"));
}

#[test]
fn exactly_three_quarters_repeated_is_not_dominated() {
    // 3 of 4 words is 75%, not more than 75%.
    assert!(!is_gpu_contention_hallucination("hey hey hey there"));
    assert!(is_gpu_contention_hallucination("hey hey hey hey there"));
}

#[test]
fn short_text_half_punctuation() {
    assert!(is_gpu_contention_hallucination("ab!!"));
    assert!(!is_gpu_contention_hallucination("abc!"));
    // more than 5 bytes: the ratio is not looked at
    assert!(!is_gpu_contention_hallucination("abc!!!"));
}

#[test]
fn short_text_without_letters() {
    assert!(is_gpu_contention_hallucination("1 2"));
    assert!(!is_gpu_contention_hallucination("1 2 3"));
}

#[test]
fn specials_block_is_garbage() {
    assert!(is_gpu_contention_hallucination("hello \u{FFFD} there"));
    assert!(!is_gpu_contention_hallucination("line one\nline two"));
}

#[test]
fn single_character_is_hallucination() {
    assert!(is_likely_hallucination("é"));
    assert!(is_likely_hallucination("  x  "));
    assert!(!is_likely_hallucination("ok"));
}

#[test]
fn known_phrase_in_uppercase_is_found() {
    assert!(is_likely_hallucination("PLEASE SUBSCRIBE to my channel"));
    assert!(is_likely_hallucination("Subtitled by the community"));
}

#[test]
fn mostly_non_alphabetic_is_hallucination() {
    // 3 letters of 11 non-space characters
    assert!(is_likely_hallucination("abc 12345678"));
    // 3 letters of 10: exactly 30% is kept
    assert!(!is_likely_hallucination("abc 1234567"));
}

#[test]
fn two_distinct_characters_repeated() {
    assert!(is_likely_hallucination("ababababab"));
    assert!(is_likely_hallucination("AbAb abab ab"));
    assert!(!is_likely_hallucination("abcabcabca"));
    assert!(!is_likely_hallucination("ababababa"));
}

#[test]
fn filter_result_has_no_surrounding_whitespace() {
    assert_eq!(filter_transcription_output("  um  hello  \n"), "hello");
    assert_eq!(filter_transcription_output(" \t "), "");
}

#[test]
fn filter_collapses_long_punctuation_runs() {
    assert_eq!(filter_transcription_output("Wait...... what,,, no---"), "Wait... what, no--");
    // "Hmm." is the filler with its period
    assert_eq!(filter_transcription_output("Hmm... ok"), ".. ok");
}

#[test]
fn filter_keeps_four_single_letters_as_stutter() {
    assert_eq!(filter_transcription_output("f f f f hello"), "f hello");
    assert_eq!(filter_transcription_output("F f F f f hello"), "hello");
}

#[test]
fn filter_letter_runs_can_meet_after_removal() {
    // the b-run is removed; the a's around it then collapse as a stutter
    assert_eq!(filter_transcription_output("a a a b b b b b a a"), "a");
}

#[test]
fn filter_leaves_no_stutter_and_is_stable_on_stutters() {
    let once = filter_transcription_output("so so so I I I I mean it it it");
    assert_eq!(once, "so I mean it");
    assert_eq!(filter_transcription_output(&once), once);
}

#[test]
fn filter_with_compiled_patterns_agrees() {
    let patterns = FilterPatterns::new().unwrap();
    for text in ["So um I was thinking uh about this", "Hello!!! World???", "  x  "] {
        assert_eq!(filter_with(text, &patterns), filter_transcription_output(text));
    }
}

#[test]
fn preserve_case_on_empty_and_lowercase() {
    assert_eq!(preserve_case_pattern("", "word"), "WORD");
    assert_eq!(preserve_case_pattern("Hello", ""), "");
    assert_eq!(preserve_case_pattern("hELLO", "world"), "world");
    assert_eq!(preserve_case_pattern("Über", "ärger"), "Ärger");
    assert_eq!(preserve_case_pattern("HELLO!", "world"), "WORLD");
    assert_eq!(preserve_case_pattern("7", "world"), "world");
    assert_eq!(preserve_case_pattern("...", "World"), "World");
    assert_eq!(preserve_case_pattern("¿Hola?", "world"), "World");
    assert_eq!(preserve_case_pattern("\"hello\"", "World"), "World");
}

#[test]
fn extract_punctuation_of_symbols_only() {
    assert_eq!(extract_punctuation("..."), ("...", "..."));
    assert_eq!(extract_punctuation("(hi)"), ("(", ")"));
    assert_eq!(extract_punctuation("héllo!"), ("", "!"));
    assert_eq!(extract_punctuation("¿hola"), ("¿", ""));
    assert_eq!(extract_punctuation("¿¿hola»"), ("¿¿", "»"));
    assert_eq!(extract_punctuation(""), ("", ""));
}

#[test]
fn candidates_record_distance_length_and_sound() {
    let custom = strings(&["hello", "world", "something"]);
    let all = custom_word_candidates("Helo, wrold!", &custom).unwrap();
    assert_eq!(all.len(), 2);
    let first: Vec<(usize, usize, usize, bool)> = all[0]
        .iter()
        .map(|c| (c.index, c.distance, c.max_len, c.sounds_alike))
        .collect();
    assert_eq!(first, vec![(0, 1, 5, true), (1, 4, 5, false), (2, 8, 9, false)]);
    let second: Vec<(usize, usize)> = all[1].iter().map(|c| (c.index, c.distance)).collect();
    assert_eq!(second, vec![(0, 4), (1, 2), (2, 9)]);
}

#[test]
fn candidates_skip_far_lengths_and_bare_punctuation() {
    let custom = strings(&["a", "extraordinarily"]);
    let all = custom_word_candidates("cat ... extraordinary", &custom).unwrap();
    assert_eq!(all.len(), 3);
    let indices: Vec<Vec<usize>> =
        all.iter().map(|cs| cs.iter().map(|c| c.index).collect()).collect();
    assert_eq!(indices, vec![vec![0], vec![], vec![1]]);
}

#[test]
fn candidates_refuse_empty_custom_word() {
    let custom = strings(&["", "hello"]);
    assert!(custom_word_candidates("hi there", &custom).is_none());
    // no word is compared with the empty custom word: all are too long
    assert!(custom_word_candidates("wonderful", &custom).is_some());
}

#[test]
fn word_choices_rewrite_with_case_and_punctuation() {
    let custom = strings(&["Hello", "World"]);
    let out = apply_word_choices("hello world", &custom, &[Some(0), Some(1)]);
    assert_eq!(out, "Hello World");
    let custom = strings(&["hello", "world"]);
    let out = apply_word_choices("helo wrold", &custom, &[Some(0), Some(1)]);
    assert_eq!(out, "hello world");
    // the case pattern is read from the letters of the word
    let out = apply_word_choices("\"HELO,\"  Wrold... helo", &custom, &[Some(0), Some(1), Some(0)]);
    assert_eq!(out, "\"HELLO,\" World... hello");
}

#[test]
fn word_choices_without_choice_keep_words() {
    let custom = strings(&["hello"]);
    let out = apply_word_choices("  keep   these  words ", &custom, &[None, Some(7)]);
    assert_eq!(out, "keep these words");
    let out = apply_word_choices("", &custom, &[]);
    assert_eq!(out, "");
}

#[test]
fn word_choices_without_custom_words_keep_text() {
    let out = apply_word_choices("  keep   these  words ", &[], &[Some(0), None]);
    assert_eq!(out, "  keep   these  words ");
}

#[test]
fn word_choices_keep_non_ascii_punctuation() {
    let custom = strings(&["hola", "hello"]);
    assert_eq!(apply_word_choices("¿hola", &custom, &[Some(0)]), "¿hola");
    assert_eq!(apply_word_choices("«helo»", &custom, &[Some(1)]), "«hello»");
    assert_eq!(apply_word_choices("¿¿Hola?", &custom, &[Some(1)]), "¿¿Hello?");
    let all = custom_word_candidates("¿hola", &custom).unwrap();
    assert_eq!(all[0][0].index, 0);
    assert_eq!(all[0][0].distance, 0);
}
