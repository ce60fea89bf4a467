//! The one error type that every stage of the pipeline reports through.

use crate::build::chars::{CharacterReaderError, CharacterReaderErrorView};
use crate::build::statement::{StatementParserError, StatementParserErrorView};
use crate::build::token::TokenizerError;
use crate::build::{AssemblerError, AssemblerErrorView};
use crate::vm::RuntimeError;
use crate::{Localized, MaybeLocalized};
use vstd::prelude::*;

verus! {

pub type RingsResult<T> = Result<T, RingsError>;

pub type LocalizedRingsResult<T> = Localized<Result<T, RingsError>>;

pub type MaybeLocalizedRingsResult<T> = MaybeLocalized<Result<T, RingsError>>;

/// Anything that can go wrong between the source bytes and the exit code,
/// by the stage that found it.
#[derive(Clone, Debug, PartialEq, Eq)]
pub enum RingsError {
    /// The source could not be read; the payload is the reader's message.
    IoError(String),
    CharacterRead(CharacterReaderError),
    Tokenizer(TokenizerError),
    StatementParser(StatementParserError),
    Assembler(AssemblerError),
    Runtime(RuntimeError),
}

/// A [`RingsError`] as contracts see it: every text is a sequence of
/// characters.
pub enum RingsErrorView {
    IoError(Seq<char>),
    CharacterRead(CharacterReaderErrorView),
    Tokenizer(TokenizerError),
    StatementParser(StatementParserErrorView),
    Assembler(AssemblerErrorView),
    Runtime(RuntimeError),
}

impl View for RingsError {
    type V = RingsErrorView;

    open spec fn view(&self) -> RingsErrorView {
        match self {
            RingsError::IoError(m) => RingsErrorView::IoError(m@),
            RingsError::CharacterRead(e) => RingsErrorView::CharacterRead(e@),
            RingsError::Tokenizer(e) => RingsErrorView::Tokenizer(*e),
            RingsError::StatementParser(e) => RingsErrorView::StatementParser(e@),
            RingsError::Assembler(e) => RingsErrorView::Assembler(e@),
            RingsError::Runtime(e) => RingsErrorView::Runtime(*e),
        }
    }
}

impl From<CharacterReaderError> for RingsError {
    /// An error of the decoder as an error of the pipeline.
    fn from(value: CharacterReaderError) -> (r: Self) {
        Self::CharacterRead(value)
    }
}

impl vstd::std_specs::convert::FromSpecImpl<CharacterReaderError> for RingsError {
    open spec fn obeys_from_spec() -> bool {
        true
    }

    open spec fn from_spec(value: CharacterReaderError) -> Self {
        Self::CharacterRead(value)
    }
}

impl From<TokenizerError> for RingsError {
    /// An error of the tokenizer as an error of the pipeline.
    fn from(value: TokenizerError) -> (r: Self) {
        Self::Tokenizer(value)
    }
}

impl vstd::std_specs::convert::FromSpecImpl<TokenizerError> for RingsError {
    open spec fn obeys_from_spec() -> bool {
        true
    }

    open spec fn from_spec(value: TokenizerError) -> Self {
        Self::Tokenizer(value)
    }
}

impl From<StatementParserError> for RingsError {
    /// An error of the statement parser as an error of the pipeline.
    fn from(value: StatementParserError) -> (r: Self) {
        Self::StatementParser(value)
    }
}

impl vstd::std_specs::convert::FromSpecImpl<StatementParserError> for RingsError {
    open spec fn obeys_from_spec() -> bool {
        true
    }

    open spec fn from_spec(value: StatementParserError) -> Self {
        Self::StatementParser(value)
    }
}

impl From<AssemblerError> for RingsError {
    /// An error of the assembler as an error of the pipeline.
    fn from(value: AssemblerError) -> (r: Self) {
        Self::Assembler(value)
    }
}

impl vstd::std_specs::convert::FromSpecImpl<AssemblerError> for RingsError {
    open spec fn obeys_from_spec() -> bool {
        true
    }

    open spec fn from_spec(value: AssemblerError) -> Self {
        Self::Assembler(value)
    }
}

impl From<RuntimeError> for RingsError {
    /// An error of the machine as an error of the pipeline.
    fn from(value: RuntimeError) -> (r: Self) {
        Self::Runtime(value)
    }
}

impl vstd::std_specs::convert::FromSpecImpl<RuntimeError> for RingsError {
    open spec fn obeys_from_spec() -> bool {
        true
    }

    open spec fn from_spec(value: RuntimeError) -> Self {
        Self::Runtime(value)
    }
}

} // verus!
