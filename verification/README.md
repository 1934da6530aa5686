# handy_text

Post-processing of speech-to-text transcriptions, verified with Verus.

- `src/chars.rs` — character classes (Unicode properties behind trusted
  wrappers of `char`/`str` methods), UTF-8 byte lengths.
- `src/text.rs` — strings as character sequences: trimming, splitting on
  whitespace, joining with single spaces.
- `src/hallucination.rs` — `is_gpu_contention_hallucination` and
  `is_likely_hallucination`, each specified as an exact boolean formula.
- `src/pattern.rs` — the `regex` crate behind trusted wrappers.
- `src/filter.rs` — `filter_transcription_output`: repeated punctuation,
  long single-letter runs, filler words, stutters and whitespace.
- `src/custom_words.rs` — the verified parts of custom-word correction:
  punctuation and case handling, candidate listing (Levenshtein distance
  from `strsim`, Soundex from `natural`), and rewriting the text once a
  candidate is chosen for each word.
- `src/laws.rs` — properties relating the functions above.
- `app/lib.rs` — `apply_custom_words`, which weighs the candidates in
  floating point and calls the library around that choice.
