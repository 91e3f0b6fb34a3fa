//! Tokens written out as text, and what the tokenizer makes of such a
//! text: the tokens that were written.
use crate::expression::token::error::TokenFault;
use crate::expression::token::{
    blank_len, decimal_value, digit_run, is_digit, lemma_literal_fits, literal_at,
    negative_literal_at, preceded_by, symbol_of, tokens_from, tokens_of, Literal, Token,
    ASTERISK_SIGN, CLOSE_PAREN_SIGN, DIGIT_ZERO, HAT_SIGN, HYPHEN_SIGN, OPEN_PAREN_SIGN,
    PERCENT_SIGN, PLUS_SIGN, SLASH_SIGN, SPACE,
};
use vstd::prelude::*;

verus! {

/// The decimal digits of a number, the most significant first, without
/// leading zeros.
pub open spec fn decimal_digits(n: nat) -> Seq<u8>
    decreases n,
{
    if n < 10 {
        seq![(DIGIT_ZERO + n) as u8]
    } else {
        decimal_digits(n / 10).push((DIGIT_ZERO + n % 10) as u8)
    }
}

/// The text of a number as the tokenizer reads it back: bare digits for a
/// number that is not negative, and a hyphen and digits between parentheses
/// for a negative one.
pub open spec fn literal_text(v: int) -> Seq<u8> {
    if v >= 0 {
        decimal_digits(v as nat)
    } else {
        seq![OPEN_PAREN_SIGN, HYPHEN_SIGN] + decimal_digits((-v) as nat) + seq![CLOSE_PAREN_SIGN]
    }
}

/// Whether `digits` is a sequence of at least one decimal digit.
pub open spec fn is_digits(digits: Seq<u8>) -> bool {
    &&& digits.len() > 0
    &&& forall|i: int| 0 <= i < digits.len() ==> is_digit(#[trigger] digits[i])
}

/// The digits of a number are digits, and they denote the number.
pub proof fn lemma_decimal_digits_denote(n: nat)
    ensures
        is_digits(decimal_digits(n)),
        decimal_value(decimal_digits(n)) == n,
    decreases n,
{
    if n < 10 {
        let d = decimal_digits(n);
        assert(d.drop_last() =~= Seq::<u8>::empty());
        assert(decimal_value(d.drop_last()) == 0);
    } else {
        lemma_decimal_digits_denote(n / 10);
        let d = decimal_digits(n);
        assert(d.drop_last() =~= decimal_digits(n / 10));
    }
}

/// Where `count` digits stand from `from` on and no digit follows them, the
/// run of digits at `from` is `count` long.
pub proof fn lemma_digit_run_exact(s: Seq<u8>, from: int, count: nat)
    requires
        0 <= from,
        from + count <= s.len(),
        forall|i: int| from <= i < from + count ==> is_digit(#[trigger] s[i]),
        from + count == s.len() || !is_digit(s[from + count]),
    ensures
        digit_run(s, from) == count,
    decreases count,
{
    if count > 0 {
        lemma_digit_run_exact(s, from + 1, (count - 1) as nat);
    }
}

/// Round trip for bare digits: a text that is nothing but decimal digits,
/// denoting a number of the signed 64-bit range, has exactly one token, the
/// number that the digits denote.
pub proof fn lemma_digits_tokenize(digits: Seq<u8>)
    requires
        is_digits(digits),
        decimal_value(digits) <= i64::MAX,
    ensures
        tokens_of(digits) == Ok::<Seq<Token>, TokenFault>(
            seq![Token::Number(decimal_value(digits) as i64)],
        ),
{
    lemma_digit_run_exact(digits, 0, digits.len());
    assert(digits.subrange(0, digits.len() as int) =~= digits);
    assert(blank_len(digits, 0) == 0);
    assert(!negative_literal_at(digits, 0));
    let number = seq![Token::Number(decimal_value(digits) as i64)];
    assert(tokens_from(digits, digits.len() as int) == Ok::<Seq<Token>, TokenFault>(Seq::empty()));
    assert(number + Seq::<Token>::empty() =~= number);
}

/// Round trip for negative literals: decimal digits that denote at most
/// 2^63, written after a parenthesis and a hyphen and closed by a
/// parenthesis, have exactly one token, the negated number.
pub proof fn lemma_negative_literal_tokenizes(digits: Seq<u8>)
    requires
        is_digits(digits),
        decimal_value(digits) <= 0x8000_0000_0000_0000,
    ensures
        tokens_of(seq![OPEN_PAREN_SIGN, HYPHEN_SIGN] + digits + seq![CLOSE_PAREN_SIGN]) == Ok::<
            Seq<Token>,
            TokenFault,
        >(seq![Token::Number((-decimal_value(digits)) as i64)]),
{
    let s = seq![OPEN_PAREN_SIGN, HYPHEN_SIGN] + digits + seq![CLOSE_PAREN_SIGN];
    assert(s.len() == digits.len() + 3);
    assert forall|i: int| 2 <= i < 2 + digits.len() implies is_digit(#[trigger] s[i]) by {
        assert(s[i] == digits[i - 2]);
    }
    let end: int = digits.len() as int + 2;
    assert(s[end] == CLOSE_PAREN_SIGN);
    lemma_digit_run_exact(s, 2, digits.len());
    assert(s.subrange(2, end) =~= digits);
    assert(s[0] == OPEN_PAREN_SIGN);
    assert(s[1] == HYPHEN_SIGN);
    assert(negative_literal_at(s, 0));
    let number = seq![Token::Number((-decimal_value(digits)) as i64)];
    assert(tokens_from(s, s.len() as int) == Ok::<Seq<Token>, TokenFault>(Seq::empty()));
    assert(number + Seq::<Token>::empty() =~= number);
}

/// Round trip for every number: the text of a signed 64-bit integer,
/// the smallest and the largest included, has exactly one token, and that
/// token is the number itself.
pub proof fn lemma_number_round_trip(v: i64)
    ensures
        tokens_of(literal_text(v as int)) == Ok::<Seq<Token>, TokenFault>(seq![Token::Number(v)]),
{
    if v >= 0 {
        lemma_decimal_digits_denote(v as nat);
        lemma_digits_tokenize(decimal_digits(v as nat));
    } else {
        lemma_decimal_digits_denote((-v) as nat);
        lemma_negative_literal_tokenizes(decimal_digits((-v) as nat));
    }
}

/// The text of one token: its sign for an operator or a parenthesis, its
/// literal for a number.
pub open spec fn token_text(token: Token) -> Seq<u8> {
    match token {
        Token::Number(v) => literal_text(v as int),
        Token::Plus => seq![PLUS_SIGN],
        Token::Hyphen => seq![HYPHEN_SIGN],
        Token::Asterisk => seq![ASTERISK_SIGN],
        Token::Slash => seq![SLASH_SIGN],
        Token::Percent => seq![PERCENT_SIGN],
        Token::Hat => seq![HAT_SIGN],
        Token::OpenParen => seq![OPEN_PAREN_SIGN],
        Token::CloseParen => seq![CLOSE_PAREN_SIGN],
    }
}

/// A token sequence written out as text: the text of each token, with a
/// space behind it.
pub open spec fn text_of(tokens: Seq<Token>) -> Seq<u8>
    decreases tokens.len(),
{
    if tokens.len() == 0 {
        Seq::empty()
    } else {
        token_text(tokens.first()) + seq![SPACE] + text_of(tokens.drop_first())
    }
}

/// A result of the tokenizer with the offset of its fault, if it has one,
/// moved on by `by` bytes.
pub open spec fn moved_on(result: Result<Seq<Token>, TokenFault>, by: nat) -> Result<
    Seq<Token>,
    TokenFault,
> {
    match result {
        Ok(tokens) => Ok(tokens),
        Err(TokenFault::InvalidChar { offset }) => Err(
            TokenFault::InvalidChar { offset: offset + by },
        ),
        Err(TokenFault::OutOfRange { offset }) => Err(
            TokenFault::OutOfRange { offset: offset + by },
        ),
    }
}

/// A run of digits is the same run in the text without its first `cut`
/// bytes.
pub proof fn lemma_digit_run_after_cut(s: Seq<u8>, cut: int, from: int)
    requires
        0 <= cut <= s.len(),
        0 <= from,
    ensures
        digit_run(s, cut + from) == digit_run(s.skip(cut), from),
    decreases s.len() - cut - from,
{
    if cut + from < s.len() && is_digit(s[cut + from]) {
        lemma_digit_run_after_cut(s, cut, from + 1);
    }
}

/// A number literal is the same literal in the text without its first `cut`
/// bytes.
pub proof fn lemma_literal_after_cut(s: Seq<u8>, cut: int, from: int)
    requires
        0 <= cut <= s.len(),
        0 <= from,
    ensures
        literal_at(s, cut + from) == literal_at(s.skip(cut), from),
{
    let t = s.skip(cut);
    lemma_digit_run_after_cut(s, cut, from);
    lemma_digit_run_after_cut(s, cut, from + 2);
    lemma_literal_fits(s, cut + from);
    lemma_literal_fits(t, from);
    if negative_literal_at(s, cut + from) {
        let run = digit_run(s, cut + from + 2);
        assert(s.subrange(cut + from + 2, cut + from + 2 + run) =~= t.subrange(
            from + 2,
            from + 2 + run,
        ));
    } else if digit_run(s, cut + from) > 0 {
        let run = digit_run(s, cut + from);
        assert(s.subrange(cut + from, cut + from + run) =~= t.subrange(from, from + run));
    }
}

/// The tokens of a text from a byte on are the tokens of the text without
/// what stands in front of that byte; only the offset of a fault counts from
/// another place.
pub proof fn lemma_tokens_after_cut(s: Seq<u8>, cut: int, from: int)
    requires
        0 <= cut <= s.len(),
        0 <= from,
    ensures
        tokens_from(s, cut + from) == moved_on(tokens_from(s.skip(cut), from), cut as nat),
    decreases s.len() - cut - from,
{
    let t = s.skip(cut);
    let at = cut + from;
    if at < s.len() {
        lemma_literal_after_cut(s, cut, from);
        lemma_literal_fits(s, at);
        if blank_len(s, at) > 0 {
            lemma_tokens_after_cut(s, cut, from + blank_len(s, at));
        } else if let Some(literal) = literal_at(s, at) {
            if i64::MIN <= literal.value <= i64::MAX {
                lemma_tokens_after_cut(s, cut, from + literal.len);
            }
        } else if symbol_of(s[at]) is Some {
            lemma_tokens_after_cut(s, cut, from + 1);
        }
    }
}

/// The tokenizer on the text of one token with a space behind it: the
/// token, then the tokens of what follows the space.
pub proof fn lemma_token_then_rest(token: Token, rest: Seq<u8>)
    ensures
        tokens_of(token_text(token) + seq![SPACE] + rest) == preceded_by(
            seq![token],
            moved_on(tokens_of(rest), token_text(token).len() + 1),
        ),
{
    let word = token_text(token);
    let s = word + seq![SPACE] + rest;
    let end = word.len() as int;
    match token {
        Token::Number(v) => {
            let size = if v >= 0 {
                v as nat
            } else {
                (-v) as nat
            };
            let digits = decimal_digits(size);
            lemma_decimal_digits_denote(size);
            if v >= 0 {
                assert forall|i: int| 0 <= i < digits.len() implies is_digit(#[trigger] s[i]) by {
                    assert(s[i] == digits[i]);
                }
                assert(s[end] == SPACE);
                lemma_digit_run_exact(s, 0, digits.len());
                assert(s.subrange(0, end) =~= digits);
                assert(!negative_literal_at(s, 0));
                assert(literal_at(s, 0) == Some(Literal { value: v as int, len: digits.len() }));
            } else {
                assert forall|i: int| 2 <= i < 2 + digits.len() implies is_digit(
                    #[trigger] s[i],
                ) by {
                    assert(s[i] == digits[i - 2]);
                }
                assert(s[0] == OPEN_PAREN_SIGN && s[1] == HYPHEN_SIGN);
                assert(s[end - 1] == CLOSE_PAREN_SIGN);
                lemma_digit_run_exact(s, 2, digits.len());
                assert(s.subrange(2, end - 1) =~= digits);
                assert(negative_literal_at(s, 0));
                assert(literal_at(s, 0) == Some(
                    Literal { value: v as int, len: digits.len() + 3 },
                ));
            }
        },
        _ => {
            assert(s[0] == word[0]);
            assert(s[1] == SPACE);
            assert(digit_run(s, 0) == 0);
            assert(!negative_literal_at(s, 0));
            assert(symbol_of(s[0]) == Some(token));
        },
    }
    assert(tokens_from(s, 0) == preceded_by(seq![token], tokens_from(s, end)));
    assert(s[end] == SPACE);
    assert(tokens_from(s, end) == tokens_from(s, end + 1));
    lemma_tokens_after_cut(s, end + 1, 0);
    assert(s.skip(end + 1) =~= rest);
}

/// Round trip for token sequences: the text of a token sequence has
/// tokens, and they are the tokens that were written.
pub proof fn lemma_text_round_trip(tokens: Seq<Token>)
    ensures
        tokens_of(text_of(tokens)) == Ok::<Seq<Token>, TokenFault>(tokens),
    decreases tokens.len(),
{
    if tokens.len() > 0 {
        lemma_text_round_trip(tokens.drop_first());
        lemma_token_then_rest(tokens.first(), text_of(tokens.drop_first()));
        assert(seq![tokens.first()] + tokens.drop_first() =~= tokens);
    } else {
        assert(tokens =~= Seq::<Token>::empty());
    }
}

} // verus!
