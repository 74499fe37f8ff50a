//! Failures reported by the parser.

use crate::text::byte_offset;
use crate::types::BasicType;
use vstd::prelude::*;

verus! {

/// A grammar production, named in a syntax failure as what was expected.
#[derive(Clone, Copy, Debug, PartialEq, Eq, Structural)]
pub enum Production {
    PackageName,
    FieldName,
    MessageName,
    ConstantName,
    BinLiteral,
    OctLiteral,
    DecLiteral,
    HexLiteral,
    IntegerLiteral,
    FloatLiteral,
    FloatExponent,
    BoolLiteral,
    IntegerType,
    FloatType,
    BoolType,
    TypeName,
    Size,
    CloseBracket,
    Space,
    Equals,
    LineComment,
    BlockComment,
    BlockCommentEnd,
}

/// Why an input was not accepted.
#[derive(Clone, Copy, Debug, PartialEq, Eq, Structural)]
pub enum ParseError {
    /// The production `expected` was attempted `offset` bytes into the
    /// input and did not match there.
    Syntax { offset: usize, expected: Production },
    /// An integer literal was read as `value`, which `target` cannot hold.
    Range { value: i128, target: BasicType },
    /// An integer literal has a prefix but no digit.
    EmptyLiteral,
    /// An integer literal is too large for 128 bits.
    LiteralOverflow,
    /// The line of index `line`, counted from 0 in the text without its
    /// comments, is neither a field nor a constant declaration.
    InvalidLine { line: usize },
    /// A service document has `found` blocks where `wanted` are due.
    InvalidServiceSpecification { wanted: usize, found: usize },
    /// An action document has `found` blocks where `wanted` are due.
    InvalidActionSpecification { wanted: usize, found: usize },
    /// The pattern of the separator line was refused by the engine that
    /// splits a document into blocks.
    InvalidSeparator,
}

impl ParseError {
    /// Whether the offset of a syntax failure in `input` lies inside the
    /// input and counts bytes as well as characters: as many characters
    /// stand before it as bytes.
    pub open spec fn counts_bytes_of(self, input: Seq<char>) -> bool {
        self matches ParseError::Syntax { offset, .. } ==> offset <= input.len() && byte_offset(
            input,
            offset as nat,
        ) == offset
    }
}

} // verus!
