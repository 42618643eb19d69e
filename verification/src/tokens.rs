//! The token shape produced by the lexical scanner.
//!
//! Tokenisation itself is a collaborator concern outside this core:
//! the scanner only has to deliver tokens of this shape.

use vstd::prelude::*;

verus! {

/// One token of source text: its kind, its text, and where it starts.
#[derive(Clone, Debug)]
pub struct Token {
    pub type_: String,
    pub string_: String,
    pub line: usize,
    pub col: usize,
}

} // verus!
