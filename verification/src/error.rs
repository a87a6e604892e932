//! The ways in which assembling fails. The first failure ends the run.

use vstd::prelude::*;

verus! {

/// A statement that the assembler cannot read.
#[derive(Debug, PartialEq, Eq)]
pub enum SyntaxError {
    /// The first token of a line is no directive and no opcode mnemonic.
    UnknownInstruction(String),
    /// A line begins with `$` and holds no `:` after it.
    MalformedLabel,
    /// The operand of `.data` is neither a literal, a label nor a string.
    InvalidDataOperand,
    /// The operand of an opcode instruction is a string.
    InvalidOperand,
}

/// Syntax that is reserved and not implemented.
#[derive(Debug, Clone, Copy, PartialEq, Eq)]
pub enum UnsupportedFeature {
    /// An operand that begins with `%`.
    RegisterOperand,
    /// An operand that is an expression.
    ExpressionOperand,
    /// A literal that is neither `0x` with hexadecimal digits, `0d` with a
    /// decimal number that fits a word, nor blank.
    LiteralFormat,
}

/// Why assembling failed.
#[derive(Debug, PartialEq, Eq)]
pub enum AsmError {
    SyntaxError(SyntaxError),
    UnsupportedFeature(UnsupportedFeature),
    /// A word refers to a label that no word defines.
    LinkError { label: String },
    /// More words were generated than the memory holds.
    CapacityError { generated: usize, len: usize },
}

/// The mathematical value of a `SyntaxError`.
pub enum SyntaxErrorView {
    UnknownInstruction(Seq<char>),
    MalformedLabel,
    InvalidDataOperand,
    InvalidOperand,
}

/// The mathematical value of an `AsmError`.
pub enum AsmErrorView {
    SyntaxError(SyntaxErrorView),
    UnsupportedFeature(UnsupportedFeature),
    LinkError { label: Seq<char> },
    CapacityError { generated: nat, len: nat },
}

impl DeepView for SyntaxError {
    type V = SyntaxErrorView;

    open spec fn deep_view(&self) -> SyntaxErrorView {
        match *self {
            SyntaxError::UnknownInstruction(name) => SyntaxErrorView::UnknownInstruction(name@),
            SyntaxError::MalformedLabel => SyntaxErrorView::MalformedLabel,
            SyntaxError::InvalidDataOperand => SyntaxErrorView::InvalidDataOperand,
            SyntaxError::InvalidOperand => SyntaxErrorView::InvalidOperand,
        }
    }
}

impl DeepView for AsmError {
    type V = AsmErrorView;

    open spec fn deep_view(&self) -> AsmErrorView {
        match *self {
            AsmError::SyntaxError(e) => AsmErrorView::SyntaxError(e.deep_view()),
            AsmError::UnsupportedFeature(f) => AsmErrorView::UnsupportedFeature(f),
            AsmError::LinkError { label } => AsmErrorView::LinkError { label: label@ },
            AsmError::CapacityError { generated, len } => AsmErrorView::CapacityError {
                generated: generated as nat,
                len: len as nat,
            },
        }
    }
}

/// The mathematical value of a result: that of what was made, or that of the
/// error.
pub open spec fn result_view<T: DeepView>(r: Result<T, AsmError>) -> Result<T::V, AsmErrorView> {
    match r {
        Ok(v) => Ok(v.deep_view()),
        Err(e) => Err(e.deep_view()),
    }
}

/// The error for a literal that cannot be read.
pub open spec fn literal_format_error() -> AsmErrorView {
    AsmErrorView::UnsupportedFeature(UnsupportedFeature::LiteralFormat)
}

} // verus!
