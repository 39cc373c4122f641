//! The scanners of a single line, and the recognisers of blocks of lines.

pub mod block;
pub mod code;
pub mod content;
pub mod list;
pub mod marker;
pub mod paragraph;
pub mod quote;
pub mod table;
