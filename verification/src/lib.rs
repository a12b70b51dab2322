//! A reversible, rule-based text substitution engine.
//!
//! An ordered list of `(original, replacement)` rules is applied to a
//! text: forward to anonymize sensitive strings, and inverted (reverse
//! order, roles swapped) to restore the original text. Matching is
//! literal, optionally case-insensitive and optionally constrained to
//! whole words; case-insensitive substitutions mirror the case pattern
//! of the text they replace.

pub mod casing;
pub mod config_files;
pub mod engine;
pub mod laws;
pub mod matching;
pub mod rules;
pub mod text;

pub use casing::preserve_case_pattern;
pub use engine::{anonymize_text, deanonymize_text};
pub use rules::{sample_config, AnonymizationResult, AnonymizerConfig, ReplacementRule};
