//! The error of a whole calculation, from text to value.
use crate::execute::error::{ExecuteError, ExecuteFault};
use crate::expression::error::{ParseError, ParseFault};
use crate::expression::token::error::{TokenError, TokenFault};
use vstd::prelude::*;
use vstd::std_specs::convert::FromSpecImpl;

verus! {

/// The failure of one of the stages of a calculation.
#[derive(Debug)]
pub enum CalcError {
    /// The text is no sequence of tokens.
    Token(TokenError),
    /// The tokens are no expression.
    Parse(ParseError),
    /// The expression has no value.
    Execute(ExecuteError),
}

/// The ways in which a text fails to have a value, by the stage that finds
/// the fault.
pub enum CalcFault {
    Token(TokenFault),
    Parse(ParseFault),
    Execute(ExecuteFault),
}

impl CalcError {
    /// The message of the stage's error.
    pub open spec fn message(&self) -> Seq<char> {
        match *self {
            CalcError::Token(e) => e.message(),
            CalcError::Parse(e) => e.message(),
            CalcError::Execute(e) => e.message(),
        }
    }

    /// The message of the stage's error, for display.
    pub fn get_message(&self) -> (r: &str)
        ensures
            r@ == self.message(),
    {
        match self {
            CalcError::Token(e) => e.get_message(),
            CalcError::Parse(e) => e.get_message(),
            CalcError::Execute(e) => e.get_message(),
        }
    }

    /// Whether two errors are of the same kind, the same variant of the
    /// same stage, and hold the same message.
    pub open spec fn same_kind(&self, other: CalcError) -> bool {
        &&& self.message() == other.message()
        &&& match (*self, other) {
            (CalcError::Token(a), CalcError::Token(b)) => a is InvalidChar <==> b is InvalidChar,
            (CalcError::Parse(a), CalcError::Parse(b)) => a.fault() == b.fault(),
            (CalcError::Execute(a), CalcError::Execute(b)) => a.fault() == b.fault(),
            _ => false,
        }
    }

    /// Whether this is the error that the library raises for `fault` in the
    /// text `source`.
    pub open spec fn reports(&self, fault: CalcFault, source: Seq<char>) -> bool {
        match fault {
            CalcFault::Token(f) => self matches CalcError::Token(e) && e.reports(f, source),
            CalcFault::Parse(f) => self matches CalcError::Parse(e) && e.reports(f),
            CalcFault::Execute(f) => self matches CalcError::Execute(e) && e.reports(f),
        }
    }
}

impl From<TokenError> for CalcError {
    fn from(err: TokenError) -> (r: CalcError) {
        CalcError::Token(err)
    }
}

impl FromSpecImpl<TokenError> for CalcError {
    open spec fn obeys_from_spec() -> bool {
        true
    }

    open spec fn from_spec(err: TokenError) -> CalcError {
        CalcError::Token(err)
    }
}

impl From<ParseError> for CalcError {
    fn from(err: ParseError) -> (r: CalcError) {
        CalcError::Parse(err)
    }
}

impl FromSpecImpl<ParseError> for CalcError {
    open spec fn obeys_from_spec() -> bool {
        true
    }

    open spec fn from_spec(err: ParseError) -> CalcError {
        CalcError::Parse(err)
    }
}

impl From<ExecuteError> for CalcError {
    fn from(err: ExecuteError) -> (r: CalcError) {
        CalcError::Execute(err)
    }
}

impl FromSpecImpl<ExecuteError> for CalcError {
    open spec fn obeys_from_spec() -> bool {
        true
    }

    open spec fn from_spec(err: ExecuteError) -> CalcError {
        CalcError::Execute(err)
    }
}

} // verus!
