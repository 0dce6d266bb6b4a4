//! Bibliography model, index and OPDS catalog logic of CiteSync.

pub mod bib;
pub mod config;
pub mod content;
pub mod crossref;
pub mod errors;
pub mod graph;
pub mod index;
pub mod item;
pub mod json;
pub mod opds;
pub mod seqs;
pub mod sort;
pub mod state;
pub mod tags;
pub mod text;
