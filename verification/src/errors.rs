//! The errors of the parsers.

use vstd::prelude::*;

verus! {

/// An error met while parsing assembly text.
#[derive(Debug)]
pub struct ParseError {
    /// The putative mnemonic that could not be parsed.
    pub mnemonic: String,
    /// What was wrong with it.
    pub message: String,
}

/// What a `ParseError` says, as plain text.
pub struct ParseFailure {
    pub mnemonic: Seq<char>,
    pub message: Seq<char>,
}

impl View for ParseError {
    type V = ParseFailure;

    open spec fn view(&self) -> ParseFailure {
        ParseFailure { mnemonic: self.mnemonic@, message: self.message@ }
    }
}

impl ParseError {
    pub fn new(mnemonic: &str, message: &str) -> (error: Self)
        ensures
            error@ == (ParseFailure { mnemonic: mnemonic@, message: message@ }),
    {
        Self { mnemonic: mnemonic.to_owned(), message: message.to_owned() }
    }
}

/// Whether a result is the expected one: the same value on success, an
/// error that says the expected failure otherwise.
pub open spec fn agrees<T>(result: Result<T, ParseError>, expected: Result<T, ParseFailure>) -> bool {
    match expected {
        Ok(value) => result == Ok::<T, ParseError>(value),
        Err(failure) => result matches Err(error) && error@ == failure,
    }
}

/// A parse error and the line on which it was met.
#[derive(Debug)]
pub struct ParsingError {
    pub error: ParseError,
    /// The index of the line, counted from 0.
    pub line_number: usize,
}

/// What a `ParsingError` says, as plain values.
pub struct ParsingFailure {
    pub failure: ParseFailure,
    pub line_number: int,
}

impl View for ParsingError {
    type V = ParsingFailure;

    open spec fn view(&self) -> ParsingFailure {
        ParsingFailure { failure: self.error@, line_number: self.line_number as int }
    }
}

/// An error met while parsing a program with labels: where the failing
/// statement stands, and what is wrong with it.
#[derive(Debug)]
pub struct Error {
    /// The name of the file that holds the text; empty until it is given.
    pub file_name: String,
    /// The index of the line, counted from 0.
    pub line_number: usize,
    /// The index in the line of the first character of the statement.
    pub start: usize,
    /// The index in the line after the last character of the statement.
    pub end: usize,
    /// The statement, without the white space around it.
    pub mnemonic: String,
    /// What is wrong with it.
    pub message: String,
}

/// What an `Error` says, as plain values.
pub struct SyntaxFailure {
    pub file_name: Seq<char>,
    pub line_number: int,
    pub start: int,
    pub end: int,
    pub mnemonic: Seq<char>,
    pub message: Seq<char>,
}

impl View for Error {
    type V = SyntaxFailure;

    open spec fn view(&self) -> SyntaxFailure {
        SyntaxFailure {
            file_name: self.file_name@,
            line_number: self.line_number as int,
            start: self.start as int,
            end: self.end as int,
            mnemonic: self.mnemonic@,
            message: self.message@,
        }
    }
}

impl Error {
    /// The same error with the name of the file that holds the text.
    pub fn with_path(self, path: &str) -> (error: Error)
        ensures
            error@ == (SyntaxFailure { file_name: path@, ..self@ }),
    {
        Error {
            file_name: path.to_owned(),
            line_number: self.line_number,
            start: self.start,
            end: self.end,
            mnemonic: self.mnemonic,
            message: self.message,
        }
    }
}

} // verus!
