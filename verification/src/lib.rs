//! A Markdown front end: from Markdown text to a document tree, and back.
//!
//! - [`parse::MarkdownParser`] reads a text line by line and builds an
//!   [`elems::Document`]; the blocks are recognised in [`parser`].
//! - [`parser::content::ContentParser`] scans one line for inline markers.
//!   The markers are patterns ([`parser::marker`]) that the `regex` crate
//!   searches for ([`pattern`]).
//! - [`writer`] writes a document as Markdown, in the form that [`render`]
//!   defines.
//!
//! Every function is verified against a contract over the views of the tree
//! types in [`elems`]. What a pattern matches is not proved: [`pattern`]
//! names it, and the contracts of the scanner speak of that name.
//! [`theorems`], [`round_trip`] and [`idempotence`] hold what is proved of
//! every parse.

pub mod error;
pub mod text;

pub mod elems;
pub mod pattern;

pub mod parse;
pub mod parser;

pub mod render;
pub mod writer;

pub mod idempotence;
pub mod round_trip;
pub mod theorems;
