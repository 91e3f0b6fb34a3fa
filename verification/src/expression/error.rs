//! What the reorderer and the tree builder report when the tokens do not
//! form an expression.
use vstd::prelude::*;
use vstd::string::StringExecFns;

verus! {

/// A failure to turn tokens into an expression tree. Each variant holds a
/// message to show.
#[derive(Debug)]
pub enum ParseError {
    /// A parenthesis has no partner.
    MismatchParen(String),
    /// The tokens ran out where an operand was still expected.
    NoToken(String),
    /// Tokens were left over after a complete expression.
    TooMuchToken(String),
}

/// The message of the library for a parenthesis without a partner.
pub const MISMATCH_PAREN_MESSAGE: &'static str = "括弧の対応が取れていません。";

/// The message of the library for tokens that run out too early.
pub const NO_TOKEN_MESSAGE: &'static str = "式の途中でトークンが無くなりました。";

/// The message of the library for tokens that are left over.
pub const TOO_MUCH_TOKEN_MESSAGE: &'static str = "トークンが多すぎます。";

/// The three ways in which tokens fail to form an expression.
pub enum ParseFault {
    /// A parenthesis has no partner.
    MismatchParen,
    /// The tokens run out where an operand is still expected.
    NoToken,
    /// Tokens are left over after a complete expression.
    TooMuchToken,
}

impl ParseFault {
    /// The message with which the library reports the fault.
    pub open spec fn message(self) -> Seq<char> {
        match self {
            ParseFault::MismatchParen => MISMATCH_PAREN_MESSAGE@,
            ParseFault::NoToken => NO_TOKEN_MESSAGE@,
            ParseFault::TooMuchToken => TOO_MUCH_TOKEN_MESSAGE@,
        }
    }
}

impl ParseError {
    /// The message that the error holds.
    pub open spec fn message(&self) -> Seq<char> {
        match *self {
            ParseError::MismatchParen(m) => m@,
            ParseError::NoToken(m) => m@,
            ParseError::TooMuchToken(m) => m@,
        }
    }

    /// The fault that the error stands for.
    pub open spec fn fault(&self) -> ParseFault {
        match *self {
            ParseError::MismatchParen(_) => ParseFault::MismatchParen,
            ParseError::NoToken(_) => ParseFault::NoToken,
            ParseError::TooMuchToken(_) => ParseFault::TooMuchToken,
        }
    }

    /// Whether this is the error with which the library reports `fault`:
    /// the variant of that name, with the library's message for it.
    pub open spec fn reports(&self, fault: ParseFault) -> bool {
        self.fault() == fault && self.message() == fault.message()
    }

    /// A mismatch of parentheses, with a message of the caller's choice.
    pub fn mismatch_paren(message: &str) -> (r: ParseError)
        ensures
            r is MismatchParen,
            r.message() == message@,
    {
        ParseError::MismatchParen(String::from_str(message))
    }

    /// A shortage of tokens, with a message of the caller's choice.
    pub fn no_token(message: &str) -> (r: ParseError)
        ensures
            r is NoToken,
            r.message() == message@,
    {
        ParseError::NoToken(String::from_str(message))
    }

    /// An excess of tokens, with a message of the caller's choice.
    pub fn too_much_token(message: &str) -> (r: ParseError)
        ensures
            r is TooMuchToken,
            r.message() == message@,
    {
        ParseError::TooMuchToken(String::from_str(message))
    }

    /// The message, for display.
    pub fn get_message(&self) -> (r: &str)
        ensures
            r@ == self.message(),
    {
        match self {
            ParseError::MismatchParen(message) => message.as_str(),
            ParseError::NoToken(message) => message.as_str(),
            ParseError::TooMuchToken(message) => message.as_str(),
        }
    }

    /// The error for a parenthesis without a partner.
    pub(crate) fn paren_mismatch() -> (r: ParseError)
        ensures
            r.reports(ParseFault::MismatchParen),
    {
        ParseError::mismatch_paren(MISMATCH_PAREN_MESSAGE)
    }

    /// The error for tokens that run out too early.
    pub(crate) fn token_shortage() -> (r: ParseError)
        ensures
            r.reports(ParseFault::NoToken),
    {
        ParseError::no_token(NO_TOKEN_MESSAGE)
    }

    /// The error for tokens that are left over.
    pub(crate) fn token_excess() -> (r: ParseError)
        ensures
            r.reports(ParseFault::TooMuchToken),
    {
        ParseError::too_much_token(TOO_MUCH_TOKEN_MESSAGE)
    }
}

} // verus!
