//! A small text-analysis pipeline: Unicode normalization, sentence
//! segmentation, whitespace tokenization and a heuristic annotation of each
//! token.
//!
//! Every stage is a function on text whose result is pinned down by a
//! specification over `Seq<char>`:
//!
//! - [`normalizer`] brings the text into Normalization Form C;
//! - [`segmenter`] cuts it into sentences;
//! - [`tokenizer`] cuts a sentence into words;
//! - [`annotator`] builds a token for a word;
//! - [`analysis`] runs the stages in turn;
//! - [`boundary`] serves callers that hand over raw bytes.
//!
//! [`text`] and [`cover`] hold the vocabulary the stages share, and
//! [`trusted`] holds the contracts that are believed without proof.

pub mod analysis;
pub mod annotator;
pub mod boundary;
pub mod cover;
pub mod normalizer;
pub mod segmenter;
pub mod text;
pub mod tokenizer;
pub mod trusted;

pub use crate::analysis::{analyze_normalized, analyze_text_internal, AnalysisResult, Sentence};
pub use crate::annotator::{create_token, guess_pos, pos_for_lowercase, Token};
pub use crate::boundary::{analyze_text, reply_text};
pub use crate::normalizer::normalize_text;
pub use crate::segmenter::split_sentences;
pub use crate::tokenizer::tokenize;
