//! The lexical units of an expression and the tokenizer that produces them.
pub mod error;
pub mod text;

use crate::expression::token::error::{TokenError, TokenFault};
use vstd::prelude::*;
use vstd::string::StringSliceAdditionalSpecFns;
use vstd::utf8::{
    char_is_scalar, encode_scalar, encode_utf8, has_width_1_encoding, has_width_2_encoding,
    has_width_3_encoding, is_char_boundary,
};

verus! {

/// The smallest unit of an expression: a number literal, an operator or a
/// parenthesis.
#[derive(Debug, Clone, Copy, PartialEq, Eq, Structural)]
pub enum Token {
    Number(i64),
    Plus,
    Hyphen,
    Asterisk,
    Slash,
    Percent,
    Hat,
    OpenParen,
    CloseParen,
}

/// The three classes of token.
#[derive(Debug, Clone, Copy, PartialEq, Eq, Structural)]
pub enum TokenType {
    Number,
    Operator,
    Paren,
}

/// The direction in which operators of equal priority group.
#[derive(Debug, Clone, Copy, PartialEq, Eq, Structural)]
pub enum Associativity {
    Left,
    Right,
    Non,
}

impl Token {
    /// Whether the token is one of the six binary operators.
    pub open spec fn is_operator(&self) -> bool {
        self is Plus || self is Hyphen || self is Asterisk || self is Slash || self is Percent
            || self is Hat
    }

    /// Whether the token is an opening or a closing parenthesis.
    pub open spec fn is_paren(&self) -> bool {
        self is OpenParen || self is CloseParen
    }

    /// The rank of an operator; a higher rank binds tighter. Addition and
    /// subtraction rank lowest, then the remainder, then multiplication and
    /// division; exponentiation binds tighter than all of them. Numbers and
    /// parentheses have no rank.
    pub open spec fn spec_priority(&self) -> Option<u8> {
        match *self {
            Token::Plus => Some(1u8),
            Token::Hyphen => Some(1u8),
            Token::Percent => Some(2u8),
            Token::Asterisk => Some(3u8),
            Token::Slash => Some(3u8),
            Token::Hat => Some(4u8),
            _ => None,
        }
    }

    /// The grouping of an operator among operators of its own rank. Every
    /// operator groups to the left, exponentiation included.
    pub open spec fn spec_associativity(&self) -> Option<Associativity> {
        if self.is_operator() {
            Some(Associativity::Left)
        } else {
            None
        }
    }

    /// The class of a token.
    pub open spec fn spec_token_type(&self) -> TokenType {
        if self is Number {
            TokenType::Number
        } else if self.is_operator() {
            TokenType::Operator
        } else {
            TokenType::Paren
        }
    }

    /// The rank of an operator; none for a number or a parenthesis.
    #[verifier::when_used_as_spec(spec_priority)]
    pub fn priority(&self) -> (r: Option<u8>)
        ensures
            r == self.spec_priority(),
            r is Some <==> self.is_operator(),
    {
        match *self {
            Token::Plus => Some(1),
            Token::Hyphen => Some(1),
            Token::Percent => Some(2),
            Token::Asterisk => Some(3),
            Token::Slash => Some(3),
            Token::Hat => Some(4),
            _ => None,
        }
    }

    /// The class of the token.
    #[verifier::when_used_as_spec(spec_token_type)]
    pub fn token_type(&self) -> (r: TokenType)
        ensures
            r == self.spec_token_type(),
    {
        match *self {
            Token::Number(_) => TokenType::Number,
            Token::Plus => TokenType::Operator,
            Token::Hyphen => TokenType::Operator,
            Token::Asterisk => TokenType::Operator,
            Token::Slash => TokenType::Operator,
            Token::Percent => TokenType::Operator,
            Token::Hat => TokenType::Operator,
            Token::OpenParen => TokenType::Paren,
            Token::CloseParen => TokenType::Paren,
        }
    }

    /// The grouping of an operator; none for a number or a parenthesis.
    #[verifier::when_used_as_spec(spec_associativity)]
    pub fn associativity(&self) -> (r: Option<Associativity>)
        ensures
            r == self.spec_associativity(),
            r is Some <==> self.is_operator(),
    {
        match *self {
            Token::Number(_) => None,
            Token::Plus => Some(Associativity::Left),
            Token::Hyphen => Some(Associativity::Left),
            Token::Asterisk => Some(Associativity::Left),
            Token::Slash => Some(Associativity::Left),
            Token::Percent => Some(Associativity::Left),
            Token::Hat => Some(Associativity::Left),
            Token::OpenParen => None,
            Token::CloseParen => None,
        }
    }
}

/// The space.
pub const SPACE: u8 = 0x20;

/// The tab.
pub const TAB: u8 = 0x09;

/// The digit `0`, the first of the ten digits.
pub const DIGIT_ZERO: u8 = 0x30;

/// The digit `9`, the last of the ten digits.
pub const DIGIT_NINE: u8 = 0x39;

/// The sign `+`.
pub const PLUS_SIGN: u8 = 0x2b;

/// The sign `-`.
pub const HYPHEN_SIGN: u8 = 0x2d;

/// The sign `*`.
pub const ASTERISK_SIGN: u8 = 0x2a;

/// The sign `/`.
pub const SLASH_SIGN: u8 = 0x2f;

/// The sign `%`.
pub const PERCENT_SIGN: u8 = 0x25;

/// The sign `^`.
pub const HAT_SIGN: u8 = 0x5e;

/// The sign `(`.
pub const OPEN_PAREN_SIGN: u8 = 0x28;

/// The sign `)`.
pub const CLOSE_PAREN_SIGN: u8 = 0x29;

/// Whether a byte is a blank of one byte: a tab, a line feed, a vertical
/// tab, a form feed, a carriage return or a space.
pub open spec fn is_narrow_blank(b: u8) -> bool {
    TAB <= b <= 0x0d || b == SPACE
}

/// Whether two bytes are a blank: the next-line character U+0085 or the
/// no-break space U+00A0.
pub open spec fn is_pair_blank(a: u8, b: u8) -> bool {
    a == 0xc2 && (b == 0x85 || b == 0xa0)
}

/// Whether three bytes are a blank: the Ogham space mark U+1680, one of
/// the spaces U+2000 to U+200A, the line separator U+2028, the paragraph
/// separator U+2029, the narrow no-break space U+202F, the medium
/// mathematical space U+205F, or the ideographic space U+3000.
pub open spec fn is_triple_blank(a: u8, b: u8, c: u8) -> bool {
    ||| a == 0xe1 && b == 0x9a && c == 0x80
    ||| a == 0xe2 && b == 0x80 && (0x80 <= c <= 0x8a || c == 0xa8 || c == 0xa9 || c == 0xaf)
    ||| a == 0xe2 && b == 0x81 && c == 0x9f
    ||| a == 0xe3 && b == 0x80 && c == 0x80
}

/// The number of bytes of the blank that starts at `at`: of the white-space
/// character that is encoded there. It is zero where none starts.
pub open spec fn blank_len(s: Seq<u8>, at: int) -> nat {
    if !(0 <= at < s.len()) {
        0
    } else if is_narrow_blank(s[at]) {
        1
    } else if at + 1 < s.len() && is_pair_blank(s[at], s[at + 1]) {
        2
    } else if at + 2 < s.len() && is_triple_blank(s[at], s[at + 1], s[at + 2]) {
        3
    } else {
        0
    }
}

/// Whether a byte is one of the ten decimal digits.
pub open spec fn is_digit(b: u8) -> bool {
    DIGIT_ZERO <= b <= DIGIT_NINE
}

/// The length of the longest run of decimal digits of `s` that starts at
/// `from`.
pub open spec fn digit_run(s: Seq<u8>, from: int) -> nat
    decreases s.len() - from,
{
    if 0 <= from < s.len() && is_digit(s[from]) {
        1 + digit_run(s, from + 1)
    } else {
        0
    }
}

/// The number that a sequence of decimal digits denotes, the most significant
/// digit first.
pub open spec fn decimal_value(digits: Seq<u8>) -> nat
    decreases digits.len(),
{
    if digits.len() == 0 {
        0
    } else {
        decimal_value(digits.drop_last()) * 10 + (digits.last() - DIGIT_ZERO) as nat
    }
}

/// A number literal as it stands in the text: what it denotes and how many
/// bytes it takes up.
pub struct Literal {
    pub value: int,
    pub len: nat,
}

/// Whether a negative literal stands at `at`: an opening parenthesis, a
/// hyphen, at least one digit, and a closing parenthesis right after the last
/// digit.
pub open spec fn negative_literal_at(s: Seq<u8>, at: int) -> bool {
    let run = digit_run(s, at + 2);
    &&& 0 <= at
    &&& at + 2 + run < s.len()
    &&& s[at] == OPEN_PAREN_SIGN
    &&& s[at + 1] == HYPHEN_SIGN
    &&& run > 0
    &&& s[at + 2 + run] == CLOSE_PAREN_SIGN
}

/// The number literal that starts at `at`, if one does. A negative literal
/// is looked for first, then a bare run of digits.
pub open spec fn literal_at(s: Seq<u8>, at: int) -> Option<Literal> {
    if negative_literal_at(s, at) {
        let run = digit_run(s, at + 2);
        Some(Literal { value: -decimal_value(s.subrange(at + 2, at + 2 + run)), len: run + 3 })
    } else if digit_run(s, at) > 0 {
        let run = digit_run(s, at);
        Some(Literal { value: decimal_value(s.subrange(at, at + run)) as int, len: run })
    } else {
        None
    }
}

/// The token that a single byte stands for, if it is an operator sign or a
/// parenthesis that the tokenizer knows.
pub open spec fn symbol_of(b: u8) -> Option<Token> {
    if b == PLUS_SIGN {
        Some(Token::Plus)
    } else if b == HYPHEN_SIGN {
        Some(Token::Hyphen)
    } else if b == ASTERISK_SIGN {
        Some(Token::Asterisk)
    } else if b == SLASH_SIGN {
        Some(Token::Slash)
    } else if b == PERCENT_SIGN {
        Some(Token::Percent)
    } else if b == HAT_SIGN {
        Some(Token::Hat)
    } else if b == OPEN_PAREN_SIGN {
        Some(Token::OpenParen)
    } else if b == CLOSE_PAREN_SIGN {
        Some(Token::CloseParen)
    } else {
        None
    }
}

/// `head` followed by the tokens of `rest`, where `rest` has any.
pub open spec fn preceded_by(head: Seq<Token>, rest: Result<Seq<Token>, TokenFault>) -> Result<
    Seq<Token>,
    TokenFault,
> {
    match rest {
        Ok(tokens) => Ok(head + tokens),
        Err(why) => Err(why),
    }
}

/// The tokens of `s` from the byte at `at` on. Blanks are passed over. At
/// any other place a number literal is looked for first, then a
/// single-byte symbol; the first that is found becomes the next token.
pub open spec fn tokens_from(s: Seq<u8>, at: int) -> Result<Seq<Token>, TokenFault>
    decreases s.len() - at,
{
    if !(0 <= at < s.len()) {
        Ok(Seq::empty())
    } else if blank_len(s, at) > 0 {
        tokens_from(s, at + blank_len(s, at))
    } else if let Some(literal) = literal_at(s, at) {
        proof {
            lemma_literal_fits(s, at);
        }
        if i64::MIN <= literal.value <= i64::MAX {
            preceded_by(
                seq![Token::Number(literal.value as i64)],
                tokens_from(s, at + literal.len),
            )
        } else {
            Err(TokenFault::OutOfRange { offset: at as nat })
        }
    } else if let Some(token) = symbol_of(s[at]) {
        preceded_by(seq![token], tokens_from(s, at + 1))
    } else {
        Err(TokenFault::InvalidChar { offset: at as nat })
    }
}

/// The token sequence of a text, or the reason why it has none.
pub open spec fn tokens_of(s: Seq<u8>) -> Result<Seq<Token>, TokenFault> {
    tokens_from(s, 0)
}

/// Cuts a line of text into tokens.
///
/// White space separates tokens and is dropped. A number is a run of
/// digits, or, for a negative number, a hyphen and a run of digits between
/// parentheses. The operators `+ - * / % ^` and the two parentheses are one
/// byte each. Any other byte is rejected with its offset, and so is a number
/// outside the signed 64-bit range, with the offset at which it starts.
pub fn parse_token(text: &str) -> (r: Result<Vec<Token>, TokenError>)
    ensures
        match tokens_of(text.spec_bytes()) {
            Ok(tokens) => r matches Ok(v) && v@ == tokens,
            Err(fault) => r matches Err(e) && e.reports(fault, text@),
        },
{
    let bytes = text.as_bytes();
    let mut tokens: Vec<Token> = Vec::new();
    let mut pos: usize = 0;
    while pos < bytes.len()
        invariant
            bytes@ == text.spec_bytes(),
            pos <= bytes@.len(),
            tokens_of(bytes@) == preceded_by(tokens@, tokens_from(bytes@, pos as int)),
        decreases bytes@.len() - pos,
    {
        let ghost before = tokens@;
        let b = bytes[pos];
        let blank = blank_at(bytes, pos);
        if blank > 0 {
            pos = pos + blank;
        } else if b >= DIGIT_ZERO && b <= DIGIT_NINE {
            let end = scan_digits(bytes, pos);
            proof {
                lemma_digit_run_is_digits(bytes@, pos as int);
            }
            match read_decimal(bytes, pos, end, 0x7fff_ffff_ffff_ffff) {
                Some(value) => {
                    tokens.push(Token::Number(value as i64));
                    proof {
                        assert(tokens@ =~= before + seq![Token::Number(value as i64)]);
                        lemma_preceded_by_twice(
                            before,
                            seq![Token::Number(value as i64)],
                            tokens_from(bytes@, end as int),
                        );
                    }
                    pos = end;
                },
                None => {
                    return Err(TokenError::new_out_of_range(pos, text));
                },
            }
        } else {
            match negative_literal_end(bytes, pos) {
                Some(end) => {
                    match read_decimal(bytes, pos + 2, end, 0x8000_0000_0000_0000) {
                        Some(size) => {
                            let value: i64 = if size == 0x8000_0000_0000_0000 {
                                i64::MIN
                            } else {
                                -(size as i64)
                            };
                            tokens.push(Token::Number(value));
                            proof {
                                assert(tokens@ =~= before + seq![Token::Number(value)]);
                                lemma_preceded_by_twice(
                                    before,
                                    seq![Token::Number(value)],
                                    tokens_from(bytes@, end + 1),
                                );
                            }
                            pos = end + 1;
                        },
                        None => {
                            return Err(TokenError::new_out_of_range(pos, text));
                        },
                    }
                },
                None => {
                    match symbol(b) {
                        Some(token) => {
                            tokens.push(token);
                            proof {
                                assert(tokens@ =~= before + seq![token]);
                                lemma_preceded_by_twice(
                                    before,
                                    seq![token],
                                    tokens_from(bytes@, pos + 1),
                                );
                            }
                            pos = pos + 1;
                        },
                        None => {
                            return Err(TokenError::new_invalid_char(pos, text));
                        },
                    }
                },
            }
        }
    }
    proof {
        assert(tokens@ + Seq::<Token>::empty() =~= tokens@);
    }
    Ok(tokens)
}

/// Measures the blank that starts at `at`.
fn blank_at(bytes: &[u8], at: usize) -> (r: usize)
    requires
        at < bytes@.len(),
    ensures
        r == blank_len(bytes@, at as int),
        at + r <= bytes@.len(),
{
    let a = bytes[at];
    let left = bytes.len() - at;
    if (a >= TAB && a <= 0x0d) || a == SPACE {
        1
    } else if left > 1 && a == 0xc2 && (bytes[at + 1] == 0x85 || bytes[at + 1] == 0xa0) {
        2
    } else if left > 2 {
        let b = bytes[at + 1];
        let c = bytes[at + 2];
        if (a == 0xe1 && b == 0x9a && c == 0x80) || (a == 0xe2 && b == 0x80 && ((c >= 0x80 && c
            <= 0x8a) || c == 0xa8 || c == 0xa9 || c == 0xaf)) || (a == 0xe2 && b == 0x81 && c
            == 0x9f) || (a == 0xe3 && b == 0x80 && c == 0x80) {
            3
        } else {
            0
        }
    } else {
        0
    }
}

/// Finds the end of the run of digits that starts at `from`.
fn scan_digits(bytes: &[u8], from: usize) -> (end: usize)
    requires
        from <= bytes@.len(),
    ensures
        end == from + digit_run(bytes@, from as int),
        end <= bytes@.len(),
{
    let mut end: usize = from;
    while end < bytes.len() && bytes[end] >= DIGIT_ZERO && bytes[end] <= DIGIT_NINE
        invariant
            from <= end <= bytes@.len(),
            digit_run(bytes@, from as int) == (end - from) + digit_run(bytes@, end as int),
        decreases bytes@.len() - end,
    {
        end = end + 1;
    }
    end
}

/// Reads the digits of `bytes` from `from` up to `end` as a decimal number.
/// Gives `None` exactly when the number is larger than `limit`.
fn read_decimal(bytes: &[u8], from: usize, end: usize, limit: u64) -> (r: Option<u64>)
    requires
        from <= end <= bytes@.len(),
        forall|i: int| from <= i < end ==> is_digit(#[trigger] bytes@[i]),
    ensures
        r == if decimal_value(bytes@.subrange(from as int, end as int)) <= limit {
            Some(decimal_value(bytes@.subrange(from as int, end as int)) as u64)
        } else {
            None
        },
{
    let mut value: u64 = 0;
    let mut i: usize = from;
    while i < end
        invariant
            from <= i <= end <= bytes@.len(),
            forall|k: int| from <= k < end ==> is_digit(#[trigger] bytes@[k]),
            value == decimal_value(bytes@.subrange(from as int, i as int)),
            value <= limit,
        decreases end - i,
    {
        let digit: u64 = (bytes[i] - DIGIT_ZERO) as u64;
        proof {
            let next = bytes@.subrange(from as int, i + 1);
            assert(next.drop_last() =~= bytes@.subrange(from as int, i as int));
            assert(next.last() == bytes@[i as int]);
            assert(decimal_value(next) == value * 10 + digit);
        }
        let wide: u128 = (value as u128) * 10 + (digit as u128);
        if wide > limit as u128 {
            proof {
                lemma_decimal_value_grows(bytes@.subrange(from as int, end as int), i + 1 - from);
                assert(bytes@.subrange(from as int, end as int).take(i + 1 - from)
                    =~= bytes@.subrange(from as int, i + 1));
            }
            return None;
        }
        value = wide as u64;
        i = i + 1;
    }
    Some(value)
}

/// Finds the end of the digits of the negative literal at `at`, which is
/// where its closing parenthesis stands, if such a literal stands at `at`.
fn negative_literal_end(bytes: &[u8], at: usize) -> (r: Option<usize>)
    requires
        at < bytes@.len(),
    ensures
        r is Some <==> negative_literal_at(bytes@, at as int),
        r matches Some(end) ==> end == at + 2 + digit_run(bytes@, at + 2) && end < bytes@.len()
            && forall|i: int| at + 2 <= i < end ==> is_digit(#[trigger] bytes@[i]),
{
    if bytes.len() - at < 4 {
        proof {
            lemma_digit_run_fits(bytes@, at + 2);
        }
        return None;
    }
    if bytes[at] != OPEN_PAREN_SIGN || bytes[at + 1] != HYPHEN_SIGN {
        return None;
    }
    let end = scan_digits(bytes, at + 2);
    if end > at + 2 && end < bytes.len() && bytes[end] == CLOSE_PAREN_SIGN {
        proof {
            lemma_digit_run_is_digits(bytes@, at + 2);
        }
        Some(end)
    } else {
        None
    }
}

/// The token that a single byte stands for.
fn symbol(b: u8) -> (r: Option<Token>)
    ensures
        r == symbol_of(b),
{
    if b == PLUS_SIGN {
        Some(Token::Plus)
    } else if b == HYPHEN_SIGN {
        Some(Token::Hyphen)
    } else if b == ASTERISK_SIGN {
        Some(Token::Asterisk)
    } else if b == SLASH_SIGN {
        Some(Token::Slash)
    } else if b == PERCENT_SIGN {
        Some(Token::Percent)
    } else if b == HAT_SIGN {
        Some(Token::Hat)
    } else if b == OPEN_PAREN_SIGN {
        Some(Token::OpenParen)
    } else if b == CLOSE_PAREN_SIGN {
        Some(Token::CloseParen)
    } else {
        None
    }
}

/// The rest of `text` from the byte offset `at` on; the empty text where
/// `at` is the length of `text` or lies beyond it. An offset inside `text`
/// has to be the first byte of a character.
pub fn str_tail_at(text: &str, at: usize) -> (r: &str)
    requires
        at < text.spec_bytes().len() ==> is_char_boundary(text.spec_bytes(), at as int),
    ensures
        r.spec_bytes() == if at < text.spec_bytes().len() {
            text.spec_bytes().subrange(at as int, text.spec_bytes().len() as int)
        } else {
            Seq::<u8>::empty()
        },
{
    proof {
        vstd::utf8::encode_utf8_valid_utf8(text@);
    }
    if at < text.as_bytes().len() {
        let (_, tail) = text.split_at(at);
        tail
    } else {
        let tail = "";
        proof {
            reveal_strlit("");
            assert(tail.spec_bytes() =~= Seq::<u8>::empty());
        }
        tail
    }
}

/// A run of digits ends within the text.
pub proof fn lemma_digit_run_fits(s: Seq<u8>, from: int)
    requires
        0 <= from,
    ensures
        from + digit_run(s, from) <= s.len() || digit_run(s, from) == 0,
    decreases s.len() - from,
{
    if from < s.len() && is_digit(s[from]) {
        lemma_digit_run_fits(s, from + 1);
    }
}

/// A number literal has at least one byte and ends within the text.
pub proof fn lemma_literal_fits(s: Seq<u8>, at: int)
    requires
        0 <= at,
    ensures
        literal_at(s, at) matches Some(literal) ==> 0 < literal.len && at + literal.len <= s.len(),
{
    lemma_digit_run_fits(s, at);
}

/// Every byte of a run of digits is a digit.
pub proof fn lemma_digit_run_is_digits(s: Seq<u8>, from: int)
    requires
        0 <= from,
    ensures
        forall|i: int| from <= i < from + digit_run(s, from) ==> is_digit(#[trigger] s[i]),
    decreases s.len() - from,
{
    if from < s.len() && is_digit(s[from]) {
        lemma_digit_run_is_digits(s, from + 1);
    }
}

/// A number never gets smaller when more digits follow: every prefix of a
/// digit sequence denotes at most what the whole sequence denotes.
pub proof fn lemma_decimal_value_grows(digits: Seq<u8>, k: int)
    requires
        0 <= k <= digits.len(),
    ensures
        decimal_value(digits.take(k)) <= decimal_value(digits),
    decreases digits.len(),
{
    if k == digits.len() {
        assert(digits.take(k) =~= digits);
    } else {
        lemma_decimal_value_grows(digits.drop_last(), k);
        assert(digits.drop_last().take(k) =~= digits.take(k));
    }
}

/// Putting `a` and then `b` in front of a result is putting `a + b` in
/// front of it.
pub proof fn lemma_preceded_by_twice(
    a: Seq<Token>,
    b: Seq<Token>,
    rest: Result<Seq<Token>, TokenFault>,
)
    ensures
        preceded_by(a, preceded_by(b, rest)) == preceded_by(a + b, rest),
{
    if let Ok(tokens) = rest {
        assert(a + (b + tokens) =~= (a + b) + tokens);
    }
}

/// Whether a character is white space: one of the twenty-five characters
/// that Unicode gives the property `White_Space`.
pub open spec fn is_white_space(c: char) -> bool {
    let v = c as u32;
    ||| 0x09 <= v <= 0x0d
    ||| v == 0x20
    ||| v == 0x85
    ||| v == 0xa0
    ||| v == 0x1680
    ||| 0x2000 <= v <= 0x200a
    ||| v == 0x2028
    ||| v == 0x2029
    ||| v == 0x202f
    ||| v == 0x205f
    ||| v == 0x3000
}

/// A blank is a white-space character: at the start of the bytes of a text,
/// `blank_len` is the number of bytes of the first character where that one
/// is white space, and zero where it is not.
pub proof fn lemma_blank_is_white_space(chars: Seq<char>)
    requires
        chars.len() > 0,
    ensures
        blank_len(encode_utf8(chars), 0) == if is_white_space(chars[0]) {
            encode_scalar(chars[0] as u32).len()
        } else {
            0
        },
{
    let v = chars[0] as u32;
    let head = encode_scalar(v);
    let s = encode_utf8(chars);
    assert(s == head + encode_utf8(chars.drop_first()));
    char_is_scalar(chars[0]);
    if has_width_1_encoding(v) {
        let a = head[0];
        assert(s[0] == a);
        assert(a == v) by (bit_vector)
            requires
                v <= 0x7f,
                a == (v & 0x7f) as u8,
        ;
    } else if has_width_2_encoding(v) {
        let a = head[0];
        let b = head[1];
        assert(s[0] == a && s[1] == b);
        assert(0xc0 <= a <= 0xdf && ((a == 0xc2 && b == 0x85) <==> v == 0x85) && ((a == 0xc2 && b
            == 0xa0) <==> v == 0xa0)) by (bit_vector)
            requires
                0x80 <= v <= 0x7ff,
                a == 0xc0 | ((v >> 6) & 0x1f) as u8,
                b == 0x80 | (v & 0x3f) as u8,
        ;
    } else if has_width_3_encoding(v) {
        let a = head[0];
        let b = head[1];
        let c = head[2];
        assert(s[0] == a && s[1] == b && s[2] == c);
        assert(0xe0 <= a <= 0xef && ((a == 0xe1 && b == 0x9a && c == 0x80) <==> v == 0x1680) && ((a
            == 0xe2 && b == 0x80 && 0x80 <= c <= 0x8a) <==> 0x2000 <= v <= 0x200a) && ((a == 0xe2
            && b == 0x80 && c == 0xa8) <==> v == 0x2028) && ((a == 0xe2 && b == 0x80 && c == 0xa9)
            <==> v == 0x2029) && ((a == 0xe2 && b == 0x80 && c == 0xaf) <==> v == 0x202f) && ((a
            == 0xe2 && b == 0x81 && c == 0x9f) <==> v == 0x205f) && ((a == 0xe3 && b == 0x80 && c
            == 0x80) <==> v == 0x3000)) by (bit_vector)
            requires
                0x800 <= v <= 0xffff,
                a == 0xe0 | ((v >> 12) & 0x0f) as u8,
                b == 0x80 | ((v >> 6) & 0x3f) as u8,
                c == 0x80 | (v & 0x3f) as u8,
        ;
    } else {
        let a = head[0];
        assert(s[0] == a);
        assert(a >= 0xf0) by (bit_vector)
            requires
                a == 0xf0 | ((v >> 18) & 0x7) as u8,
        ;
    }
}

/// Whether a number literal stands at `at` that denotes a number outside
/// the signed 64-bit range.
pub open spec fn too_large_at(s: Seq<u8>, at: int) -> bool {
    literal_at(s, at) matches Some(literal) && !(i64::MIN <= literal.value <= i64::MAX)
}

/// Whether nothing that the tokenizer knows starts at `at`: no blank, no
/// number literal, no operator sign and no parenthesis.
pub open spec fn nothing_at(s: Seq<u8>, at: int) -> bool {
    blank_len(s, at) == 0 && literal_at(s, at) is None && symbol_of(s[at]) is None
}

/// Where the tokenizer stops, and why: an invalid character is reported at
/// a byte of the text at which nothing starts that the tokenizer knows, and
/// a number out of range at the byte at which its literal starts.
pub proof fn lemma_fault_offset(s: Seq<u8>)
    ensures
        match tokens_of(s) {
            Ok(_) => true,
            Err(TokenFault::InvalidChar { offset }) => offset < s.len() && nothing_at(
                s,
                offset as int,
            ),
            Err(TokenFault::OutOfRange { offset }) => offset < s.len() && too_large_at(
                s,
                offset as int,
            ),
        },
{
    lemma_fault_offset_from(s, 0);
}

/// `lemma_fault_offset` for the text from the byte at `at` on.
proof fn lemma_fault_offset_from(s: Seq<u8>, at: int)
    requires
        0 <= at <= s.len(),
    ensures
        match tokens_from(s, at) {
            Ok(_) => true,
            Err(TokenFault::InvalidChar { offset }) => at <= offset < s.len() && nothing_at(
                s,
                offset as int,
            ),
            Err(TokenFault::OutOfRange { offset }) => at <= offset < s.len() && too_large_at(
                s,
                offset as int,
            ),
        },
    decreases s.len() - at,
{
    if at < s.len() {
        if blank_len(s, at) > 0 {
            lemma_fault_offset_from(s, at + blank_len(s, at));
        } else if let Some(literal) = literal_at(s, at) {
            lemma_literal_fits(s, at);
            if i64::MIN <= literal.value <= i64::MAX {
                lemma_fault_offset_from(s, at + literal.len);
            }
        } else if symbol_of(s[at]) is Some {
            lemma_fault_offset_from(s, at + 1);
        }
    }
}

} // verus!
