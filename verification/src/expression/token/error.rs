//! What the tokenizer reports when it cannot go on.
use vstd::prelude::*;
use vstd::string::StringExecFns;

verus! {

/// A failure of the tokenizer. Each variant holds the diagnostic to show:
/// a headline, the input, and a caret under the offending byte.
#[derive(Debug)]
pub enum TokenError {
    /// No token starts at the marked byte.
    InvalidChar(String),
    /// The number literal that starts at the marked byte does not fit into a
    /// signed 64-bit integer.
    OutOfRange(String),
}

/// The two ways in which a text fails to be a token sequence, each with the
/// offset of the byte at which the tokenizer stops.
pub enum TokenFault {
    /// Neither a blank nor the start of a token stands at `offset`.
    InvalidChar { offset: nat },
    /// The number literal that starts at `offset` lies outside the signed
    /// 64-bit range.
    OutOfRange { offset: nat },
}

/// The headline of the diagnostic for an invalid character.
pub const INVALID_CHAR_HEADLINE: &'static str = "トークン化できない入力が検出されました。\n";

/// The words behind the caret of the diagnostic for an invalid character.
pub const INVALID_CHAR_NOTE: &'static str = "^ 不正な文字\n";

/// The headline of the diagnostic for a number out of range.
pub const OUT_OF_RANGE_HEADLINE: &'static str = "64ビット整数に収まらない数値が検出されました。\n";

/// The words behind the caret of the diagnostic for a number out of range.
pub const OUT_OF_RANGE_NOTE: &'static str = "^ 範囲外の数値\n";

/// What stands in front of the input in a diagnostic.
pub const INPUT_OPENING: &'static str = "入力: \"";

/// What stands behind the input in a diagnostic.
pub const INPUT_CLOSING: &'static str = "\"\n";

/// The blanks that bring the caret under the first byte of the input.
pub const CARET_INDENT: &'static str = "       ";

/// A run of `n` spaces.
pub open spec fn spaces(n: nat) -> Seq<char> {
    Seq::new(n, |i: int| ' ')
}

/// The input between quotes, and below it a caret under the byte at offset
/// `at`, followed by `note`.
pub open spec fn pointer_lines(at: nat, source: Seq<char>, note: Seq<char>) -> Seq<char> {
    INPUT_OPENING@ + source + INPUT_CLOSING@ + CARET_INDENT@ + spaces(at) + note
}

/// The diagnostic for a byte at offset `at` of `source` at which no token
/// starts.
pub open spec fn invalid_char_message(at: nat, source: Seq<char>) -> Seq<char> {
    INVALID_CHAR_HEADLINE@ + pointer_lines(at, source, INVALID_CHAR_NOTE@)
}

/// The diagnostic for a number literal at offset `at` of `source` that is
/// too large.
pub open spec fn out_of_range_message(at: nat, source: Seq<char>) -> Seq<char> {
    OUT_OF_RANGE_HEADLINE@ + pointer_lines(at, source, OUT_OF_RANGE_NOTE@)
}

/// Appends the quoted input and the caret line to `message`.
fn push_pointer_lines(message: &mut String, at: usize, source: &str, note: &str)
    ensures
        final(message)@ == old(message)@ + pointer_lines(at as nat, source@, note@),
{
    let ghost start = message@;
    message.append(INPUT_OPENING);
    message.append(source);
    message.append(INPUT_CLOSING);
    message.append(CARET_INDENT);
    let ghost indent = message@;
    let mut i: usize = 0;
    while i < at
        invariant
            i <= at,
            message@ == indent + spaces(i as nat),
        decreases at - i,
    {
        message.append(" ");
        proof {
            reveal_strlit(" ");
            assert(message@ =~= indent + spaces((i + 1) as nat));
        }
        i = i + 1;
    }
    message.append(note);
    assert(message@ =~= start + pointer_lines(at as nat, source@, note@));
}

impl TokenError {
    /// The diagnostic that the error holds.
    pub open spec fn message(&self) -> Seq<char> {
        match *self {
            TokenError::InvalidChar(m) => m@,
            TokenError::OutOfRange(m) => m@,
        }
    }

    /// Whether this is the error that the tokenizer raises for `fault` in
    /// the text `source`: the variant of that name, with the diagnostic
    /// that points at the offset.
    pub open spec fn reports(&self, fault: TokenFault, source: Seq<char>) -> bool {
        match fault {
            TokenFault::InvalidChar { offset } => self is InvalidChar && self.message()
                == invalid_char_message(offset, source),
            TokenFault::OutOfRange { offset } => self is OutOfRange && self.message()
                == out_of_range_message(offset, source),
        }
    }

    /// The error for a byte at offset `at` of `source` at which no token
    /// starts.
    pub fn new_invalid_char(at: usize, source: &str) -> (r: TokenError)
        ensures
            r is InvalidChar,
            r.message() == invalid_char_message(at as nat, source@),
    {
        let mut s = String::from_str(INVALID_CHAR_HEADLINE);
        push_pointer_lines(&mut s, at, source, INVALID_CHAR_NOTE);
        TokenError::InvalidChar(s)
    }

    /// The error for a number literal at offset `at` of `source` that does
    /// not fit into a signed 64-bit integer.
    pub fn new_out_of_range(at: usize, source: &str) -> (r: TokenError)
        ensures
            r is OutOfRange,
            r.message() == out_of_range_message(at as nat, source@),
    {
        let mut s = String::from_str(OUT_OF_RANGE_HEADLINE);
        push_pointer_lines(&mut s, at, source, OUT_OF_RANGE_NOTE);
        TokenError::OutOfRange(s)
    }

    /// The diagnostic, for display.
    pub fn get_message(&self) -> (r: &str)
        ensures
            r@ == self.message(),
    {
        match self {
            TokenError::InvalidChar(message) => message.as_str(),
            TokenError::OutOfRange(message) => message.as_str(),
        }
    }
}

} // verus!
