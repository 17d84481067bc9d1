//! Turns a plain-text document in a lightweight markup dialect into a
//! sequence of slides for sequential terminal presentation.
//!
//! The pipeline has two stages: a line classifier that splits the raw text
//! into typed structural pieces (headers, paragraphs, list items, quotes),
//! and a slide builder that groups those pieces into slides with
//! width-aware, styled body text. Styling is abstract: the caller supplies
//! the concrete escape sequences through [`slides::Style`].

pub mod chars;
pub mod ordinal;
pub mod parse;
pub mod slides;
pub mod wrap;
