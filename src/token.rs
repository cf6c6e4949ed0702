//! Tokens and source locations.
use vstd::prelude::*;

verus! {

/// A place in a source file: the file's key, and a 1-based line and column.
#[derive(Clone, Copy, Debug, PartialEq, Eq, Structural)]
pub struct Location {
    pub file: usize,
    pub line: usize,
    pub column: usize,
}

#[derive(Clone, Copy, Debug, PartialEq, Eq, Structural)]
pub enum TokenKind {
    Word,
    Text,
    LeftParen,
    RightParen,
    LeftAngle,
    RightAngle,
    Quote,
    Semicolon,
    Eof,
}

/// The mathematical form of a token.
pub struct TokV {
    pub kind: TokenKind,
    pub value: Seq<u8>,
    pub loc: Location,
}

/// A token: its kind, its value (empty for delimiters) and where it starts.
#[derive(Debug)]
pub struct Token {
    pub kind: TokenKind,
    pub value: Vec<u8>,
    pub loc: Location,
}

impl View for Token {
    type V = TokV;

    open spec fn view(&self) -> TokV {
        TokV { kind: self.kind, value: self.value@, loc: self.loc }
    }
}

} // verus!
