//! Post-processing of speech-to-text output: hallucination detection,
//! filler-word and stutter removal, and custom-word correction.

pub mod chars;
pub mod text;
pub mod pattern;
pub mod hallucination;
pub mod filter;
pub mod custom_words;
pub mod laws;

pub use custom_words::{
    apply_word_choices, custom_word_candidates, extract_punctuation, preserve_case_pattern,
    WordCandidate,
};
pub use filter::{filter_transcription_output, filter_with, FilterPatterns};
pub use hallucination::{is_gpu_contention_hallucination, is_likely_hallucination};
