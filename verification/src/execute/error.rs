//! What the evaluator reports when an expression has no value.
use vstd::prelude::*;
use vstd::string::StringExecFns;

verus! {

/// A failure to evaluate an expression. Each variant holds a message to
/// show.
#[derive(Debug)]
pub enum ExecuteError {
    /// A division or a remainder by zero.
    ZeroDiv(String),
    /// A power with a negative exponent, which is no integer.
    OutOfDef(String),
    /// A result outside the signed 64-bit range.
    Overflow(String),
}

/// The three ways in which an expression fails to have a value.
pub enum ExecuteFault {
    /// A division or a remainder by zero.
    ZeroDiv,
    /// A power with a negative exponent.
    OutOfDef,
    /// A result outside the signed 64-bit range.
    Overflow,
}

/// The message of the library for a division by zero.
pub const ZERO_DIV_MESSAGE: &'static str = "ゼロ除算エラー";

/// The message of the library for a negative exponent.
pub const OUT_OF_DEF_MESSAGE: &'static str = "指数が負です";

/// The message of the library for a result that does not fit.
pub const OVERFLOW_MESSAGE: &'static str = "演算結果が64ビット整数に収まりません";

impl ExecuteFault {
    /// The message with which the library reports the fault.
    pub open spec fn message(self) -> Seq<char> {
        match self {
            ExecuteFault::ZeroDiv => ZERO_DIV_MESSAGE@,
            ExecuteFault::OutOfDef => OUT_OF_DEF_MESSAGE@,
            ExecuteFault::Overflow => OVERFLOW_MESSAGE@,
        }
    }
}

impl ExecuteError {
    /// The message that the error holds.
    pub open spec fn message(&self) -> Seq<char> {
        match *self {
            ExecuteError::ZeroDiv(m) => m@,
            ExecuteError::OutOfDef(m) => m@,
            ExecuteError::Overflow(m) => m@,
        }
    }

    /// The fault that the error stands for.
    pub open spec fn fault(&self) -> ExecuteFault {
        match *self {
            ExecuteError::ZeroDiv(_) => ExecuteFault::ZeroDiv,
            ExecuteError::OutOfDef(_) => ExecuteFault::OutOfDef,
            ExecuteError::Overflow(_) => ExecuteFault::Overflow,
        }
    }

    /// Whether this is the error with which the library reports `fault`:
    /// the variant of that name, with the library's message for it.
    pub open spec fn reports(&self, fault: ExecuteFault) -> bool {
        self.fault() == fault && self.message() == fault.message()
    }

    /// An operation outside its domain, with a message of the caller's
    /// choice.
    pub fn out_of_def(message: &str) -> (r: ExecuteError)
        ensures
            r is OutOfDef,
            r.message() == message@,
    {
        ExecuteError::OutOfDef(String::from_str(message))
    }

    /// The message, for display.
    pub fn get_message(&self) -> (r: &str)
        ensures
            r@ == self.message(),
    {
        match self {
            ExecuteError::ZeroDiv(message) => message.as_str(),
            ExecuteError::OutOfDef(message) => message.as_str(),
            ExecuteError::Overflow(message) => message.as_str(),
        }
    }

    /// The error for a division or a remainder by zero.
    pub(crate) fn zero_div() -> (r: ExecuteError)
        ensures
            r.reports(ExecuteFault::ZeroDiv),
    {
        ExecuteError::ZeroDiv(String::from_str(ZERO_DIV_MESSAGE))
    }

    /// The error for a negative exponent.
    pub(crate) fn negative_exponent() -> (r: ExecuteError)
        ensures
            r.reports(ExecuteFault::OutOfDef),
    {
        ExecuteError::out_of_def(OUT_OF_DEF_MESSAGE)
    }

    /// The error for a result outside the signed 64-bit range.
    pub(crate) fn overflow() -> (r: ExecuteError)
        ensures
            r.reports(ExecuteFault::Overflow),
    {
        ExecuteError::Overflow(String::from_str(OVERFLOW_MESSAGE))
    }
}

} // verus!
