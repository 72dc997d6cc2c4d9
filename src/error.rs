use vstd::prelude::*;

verus! {

#[verifier::external_type_specification]
#[verifier::external_body]
pub struct ExIoError(std::io::Error);

#[verifier::external_type_specification]
#[verifier::external_body]
pub struct ExFromUtf8Error(std::string::FromUtf8Error);

#[verifier::external_type_specification]
#[verifier::external_body]
pub struct ExParseFloatError(core::num::ParseFloatError);

#[verifier::external_type_specification]
#[verifier::external_body]
pub struct ExParseIntError(core::num::ParseIntError);

/// Detailed parse error information: a message and the 1-based line and
/// column at which the failure was detected.
#[derive(Debug)]
pub struct ParseError {
    pub msg: String,
    pub line: usize,
    pub col: usize,
}

/// Errors that can happen in this library.
#[derive(Debug)]
pub enum SexpError {
    /// parse error
    Parse(ParseError),
    /// a list whose tag is not the one asked for
    TagMismatch { expected: String, found: String },
    /// a list with another number of items after its tag than asked for
    ArityMismatch { tag: String, expected: usize, found: usize },
    /// other error
    Other(String),
    /// I/O error
    Io(std::io::Error),
    /// invalid UTF-8 text
    FromUtf8(std::string::FromUtf8Error),
    /// floating point parsing error
    Float(core::num::ParseFloatError),
    /// integer parsing error
    Int(core::num::ParseIntError),
}

pub type Error = SexpError;

/// Builds the failing result for a parse error at `line` and `col`.
pub fn parse_error<T>(line: usize, col: usize, msg: String) -> (r: Result<T, SexpError>)
    ensures
        r matches Err(SexpError::Parse(pe)) && pe.line == line && pe.col == col && pe.msg@
            == msg@,
{
    let pe = ParseError { msg, line, col };
    Err(SexpError::Parse(pe))
}

} // verus!
