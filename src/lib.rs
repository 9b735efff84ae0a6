//! Extractive summarization: pick the sentences of a document that best
//! represent it, and return them in document order.
//!
//! A "core" sentence is the one whose tf-idf vector is closest (by cosine) to
//! the whole document; every sentence is then ranked by its similarity to the
//! core, and the best-ranked sentences are kept, by count or by length budget.
//!
//! This crate holds the verified parts of that pipeline: segmentation, term
//! normalization, term and document frequencies, ranking, selection and
//! assembly. Similarities enter as `u64` keys whose order is the order of the
//! similarities.
pub mod frequency;
pub mod language;
pub mod laws;
pub mod normalize;
pub mod outside;
pub mod select;
pub mod summarizer;

pub use select::summarize_impl;
pub use language::Language;
pub use normalize::{StopWords, Stemmer};
pub use summarizer::{sentences, Analysis, Ratio, Summarizer, SummaryError, MAX_TEXT_LEN};
