//! A small markup language for terminal documents: lexing, the document
//! header, style resolution, line building and the pager's scroll state.

pub mod decimal;
pub mod grammar;
pub mod pager;
pub mod segmentation;
pub mod text_types;
pub mod tokenizer;
