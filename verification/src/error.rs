//! Fatal failures. Every error here ends the whole interactive session: the
//! library reports it as a value, and the surrounding loop terminates.

use vstd::prelude::*;
use vstd::string::StringExecFns;

verus! {

/// The abstract identity of a fatal failure, used by the specifications.
///
/// `IllegalChar`, `UnknownKeyword` and `MismatchedTypes` are the named errors
/// of the design. The remaining variants promote what were unchecked aborts
/// (popping an empty stack, parsing a non-numeric lexeme, an addition that
/// does not fit in a machine word) to named errors; they are equally fatal.
#[verifier::ext_equal]
pub enum ErrorKind {
    IllegalChar,
    UnknownKeyword(Seq<char>),
    MismatchedTypes,
    EmptyStack,
    BadNumber,
    Overflow,
}

/// A named failure with a human-readable description, reported to the user as
/// `"{name}: {description}"` before the session terminates.
#[derive(Debug)]
pub struct Error {
    pub name: String,
    pub description: String,
}

/// Whether the error value `e` carries exactly the name and description that
/// the failure `k` is reported with.
pub open spec fn reports(e: Error, k: ErrorKind) -> bool {
    match k {
        ErrorKind::IllegalChar => e.name@ == "IllegalCharError"@ && e.description@
            == "Found an extra dot"@,
        ErrorKind::UnknownKeyword(kw) => e.name@ == "Unknown keyword error"@ && e.description@
            == "No such keyword: "@ + kw,
        ErrorKind::MismatchedTypes => e.name@ == "Mismatched types"@ && e.description@
            == "Cannot add on 2 values of different types"@,
        ErrorKind::EmptyStack => e.name@ == "EmptyStackError"@ && e.description@
            == "Tried to pop a token from an empty stack"@,
        ErrorKind::BadNumber => e.name@ == "NumberParseError"@ && e.description@
            == "Cannot parse a token value as a non-negative integer"@,
        ErrorKind::Overflow => e.name@ == "OverflowError"@ && e.description@
            == "Addition result does not fit in a machine integer"@,
    }
}

impl Error {
    /// Constructs an error from its name and description.
    pub fn new(name: &str, description: &str) -> (r: Error)
        ensures
            r.name@ == name@,
            r.description@ == description@,
    {
        Error { name: String::from_str(name), description: String::from_str(description) }
    }
}

} // verus!
