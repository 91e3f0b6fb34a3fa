//! Reordering of infix tokens into postfix order, by operator precedence.
use crate::expression::error::{ParseError, ParseFault};
use crate::expression::token::{Associativity, Token};
use vstd::prelude::*;

verus! {

/// The state of the reorderer between two tokens: the postfix output so far,
/// and the working stack of operators and opening parentheses, whose top is
/// its last element.
pub struct Yard {
    pub output: Seq<Token>,
    pub stack: Seq<Token>,
}

impl Yard {
    /// The state before the first token.
    pub open spec fn empty() -> Yard {
        Yard { output: Seq::empty(), stack: Seq::empty() }
    }

    /// The state after the top of the stack has moved to the output.
    pub open spec fn shift(self) -> Yard
        recommends
            self.stack.len() > 0,
    {
        Yard { output: self.output.push(self.stack.last()), stack: self.stack.drop_last() }
    }
}

/// Whether `top`, on top of the stack, leaves for the output before the
/// operator `op` is pushed: it does if it is an operator that binds tighter
/// than `op`, or as tight where `op` groups to the left.
pub open spec fn yields_to(top: Token, op: Token) -> bool {
    match (top.spec_priority(), op.spec_priority()) {
        (Some(above), Some(below)) => above > below || (above == below && op.spec_associativity()
            == Some(Associativity::Left)),
        _ => false,
    }
}

/// The state after the operator `op` has arrived: the operators on top of
/// the stack that yield to it have moved to the output, and `op` is pushed.
pub open spec fn push_operator(yard: Yard, op: Token) -> Yard
    decreases yard.stack.len(),
{
    if yard.stack.len() > 0 && yields_to(yard.stack.last(), op) {
        push_operator(yard.shift(), op)
    } else {
        Yard { output: yard.output, stack: yard.stack.push(op) }
    }
}

/// The state after a closing parenthesis has arrived: the stack has moved to
/// the output down to the nearest opening parenthesis, which is dropped.
/// There is no such state where the stack holds no opening parenthesis.
pub open spec fn close_paren(yard: Yard) -> Option<Yard>
    decreases yard.stack.len(),
{
    if yard.stack.len() == 0 {
        None
    } else if yard.stack.last() is OpenParen {
        Some(Yard { output: yard.output, stack: yard.stack.drop_last() })
    } else {
        close_paren(yard.shift())
    }
}

/// The state after `token` has arrived, if there is one.
pub open spec fn feed(yard: Yard, token: Token) -> Option<Yard> {
    match token {
        Token::Number(_) => Some(Yard { output: yard.output.push(token), stack: yard.stack }),
        Token::OpenParen => Some(Yard { output: yard.output, stack: yard.stack.push(token) }),
        Token::CloseParen => close_paren(yard),
        _ => Some(push_operator(yard, token)),
    }
}

/// The output once the input has ended: the whole stack has moved to it, top
/// first. There is none where the stack still holds an opening parenthesis.
pub open spec fn drain(yard: Yard) -> Option<Seq<Token>>
    decreases yard.stack.len(),
{
    if yard.stack.len() == 0 {
        Some(yard.output)
    } else if yard.stack.last() is OpenParen {
        None
    } else {
        drain(yard.shift())
    }
}

/// The state after all of `tokens` have arrived, one after the other, in
/// state `yard`; none where a closing parenthesis among them finds no
/// partner.
pub open spec fn fed(yard: Yard, tokens: Seq<Token>) -> Option<Yard>
    decreases tokens.len(),
{
    if tokens.len() == 0 {
        Some(yard)
    } else {
        match fed(yard, tokens.drop_last()) {
            Some(before) => feed(before, tokens.last()),
            None => None,
        }
    }
}

/// The postfix order of an infix token sequence: what the tokens, fed one
/// by one into the empty state, leave once the stack is emptied. There is
/// none where the parentheses of the sequence do not match.
pub open spec fn postfix_of(tokens: Seq<Token>) -> Option<Seq<Token>> {
    match fed(Yard::empty(), tokens) {
        Some(yard) => drain(yard),
        None => None,
    }
}

/// Moves the operators that yield to `current_token` from the stack to the
/// output, then pushes `current_token`.
fn pop_ops(current_token: Token, output: &mut Vec<Token>, stack: &mut Vec<Token>)
    requires
        current_token.is_operator(),
    ensures
        (Yard { output: final(output)@, stack: final(stack)@ }) == push_operator(
            Yard { output: old(output)@, stack: old(stack)@ },
            current_token,
        ),
{
    let is_left = current_token.associativity().unwrap() == Associativity::Left;
    let priority = current_token.priority().unwrap();
    loop
        invariant_except_break
            push_operator(Yard { output: old(output)@, stack: old(stack)@ }, current_token)
                == push_operator(Yard { output: output@, stack: stack@ }, current_token),
        invariant
            current_token.is_operator(),
            current_token.spec_priority() == Some(priority),
            is_left == (current_token.spec_associativity() == Some(Associativity::Left)),
        ensures
            (Yard { output: output@, stack: stack@ }) == push_operator(
                Yard { output: old(output)@, stack: old(stack)@ },
                current_token,
            ),
        decreases stack@.len(),
    {
        let len = stack.len();
        if len > 0 {
            let top = stack[len - 1];
            if let Some(top_priority) = top.priority() {
                if is_left && priority <= top_priority || priority < top_priority {
                    stack.pop();
                    output.push(top);
                    continue ;
                }
            }
        }
        stack.push(current_token);
        break ;
    }
}

/// Brings an infix token sequence into postfix order.
///
/// Numbers go to the output as they come. An operator first sends to the
/// output the operators on top of the working stack that bind tighter, or as
/// tight where it groups to the left, and is then pushed. An opening
/// parenthesis is pushed; a closing one sends the stack to the output down
/// to its opening partner. At the end the rest of the stack goes to the
/// output. A parenthesis without a partner is the only error.
pub fn shunting_yard(tokens: Vec<Token>) -> (r: Result<Vec<Token>, ParseError>)
    ensures
        match postfix_of(tokens@) {
            Some(postfix) => r matches Ok(v) && v@ == postfix,
            None => r matches Err(e) && e.reports(ParseFault::MismatchParen),
        },
        r is Ok <==> balanced(tokens@),
        r matches Ok(v) ==> paren_free(v@),
{
    let size = tokens.len();
    let mut stack: Vec<Token> = Vec::with_capacity(size);
    let mut output: Vec<Token> = Vec::with_capacity(size);
    let mut i: usize = 0;
    while i < size
        invariant
            size == tokens@.len(),
            i <= size,
            fed(Yard::empty(), tokens@.take(i as int)) == Some(
                Yard { output: output@, stack: stack@ },
            ),
        decreases size - i,
    {
        let token = tokens[i];
        let ghost entry = Yard { output: output@, stack: stack@ };
        proof {
            assert(tokens@.take(i + 1).drop_last() =~= tokens@.take(i as int));
            assert(fed(Yard::empty(), tokens@.take(i + 1)) == feed(entry, token));
        }
        match token {
            Token::Number(_) => output.push(token),
            Token::OpenParen => stack.push(token),
            Token::CloseParen => {
                loop
                    invariant_except_break
                        close_paren(entry) == close_paren(Yard { output: output@, stack: stack@ }),
                    invariant
                        i < size == tokens@.len(),
                        fed(Yard::empty(), tokens@.take(i + 1)) == close_paren(entry),
                    ensures
                        close_paren(entry) == Some(Yard { output: output@, stack: stack@ }),
                    decreases stack@.len(),
                {
                    match stack.pop() {
                        Some(Token::OpenParen) => break ,
                        Some(t) => output.push(t),
                        None => {
                            proof {
                                lemma_fed_fails_for_good(Yard::empty(), tokens@, i + 1);
                                lemma_postfix_iff_balanced(tokens@);
                            }
                            return Err(ParseError::paren_mismatch());
                        },
                    }
                }
            },
            _ => pop_ops(token, &mut output, &mut stack),
        }
        i = i + 1;
    }
    proof {
        assert(tokens@.take(size as int) =~= tokens@);
    }
    loop
        invariant
            postfix_of(tokens@) == drain(Yard { output: output@, stack: stack@ }),
        decreases stack@.len(),
    {
        match stack.pop() {
            None => {
                proof {
                    lemma_postfix_iff_balanced(tokens@);
                }
                return Ok(output);
            },
            Some(Token::OpenParen) => {
                proof {
                    lemma_postfix_iff_balanced(tokens@);
                }
                return Err(ParseError::paren_mismatch());
            },
            Some(t) => output.push(t),
        }
    }
}

/// Feeding a single token is one step.
pub proof fn lemma_fed_one(yard: Yard, token: Token)
    ensures
        fed(yard, seq![token]) == feed(yard, token),
{
    assert(seq![token].drop_last() =~= Seq::<Token>::empty());
    assert(fed(yard, seq![token].drop_last()) == Some(yard));
}

/// Feeding one sequence after another is feeding the two as one.
pub proof fn lemma_fed_in_two(yard: Yard, first: Seq<Token>, second: Seq<Token>)
    ensures
        fed(yard, first + second) == match fed(yard, first) {
            Some(between) => fed(between, second),
            None => None,
        },
    decreases second.len(),
{
    if second.len() == 0 {
        assert(first + second =~= first);
    } else {
        assert((first + second).drop_last() =~= first + second.drop_last());
        lemma_fed_in_two(yard, first, second.drop_last());
    }
}

/// Once a closing parenthesis has found no partner, no further token mends
/// it.
pub proof fn lemma_fed_fails_for_good(yard: Yard, tokens: Seq<Token>, k: int)
    requires
        0 <= k <= tokens.len(),
        fed(yard, tokens.take(k)) is None,
    ensures
        fed(yard, tokens) is None,
{
    assert(tokens =~= tokens.take(k) + tokens.skip(k));
    lemma_fed_in_two(yard, tokens.take(k), tokens.skip(k));
}

/// The nesting depth at the end of a token sequence: the number of its
/// opening parentheses less the number of its closing ones.
pub open spec fn depth(tokens: Seq<Token>) -> int
    decreases tokens.len(),
{
    if tokens.len() == 0 {
        0
    } else if tokens.last() is OpenParen {
        depth(tokens.drop_last()) + 1
    } else if tokens.last() is CloseParen {
        depth(tokens.drop_last()) - 1
    } else {
        depth(tokens.drop_last())
    }
}

/// Whether no closing parenthesis of a token sequence comes without an
/// opening one before it: the depth is at no point below zero.
pub open spec fn never_below(tokens: Seq<Token>) -> bool {
    forall|k: int| 0 <= k <= tokens.len() ==> depth(#[trigger] tokens.take(k)) >= 0
}

/// Whether the parentheses of a token sequence match: no closing parenthesis
/// comes without an opening one before it, and none is left open at the end.
pub open spec fn balanced(tokens: Seq<Token>) -> bool {
    never_below(tokens) && depth(tokens) == 0
}

/// Whether a token sequence holds no parenthesis.
pub open spec fn paren_free(tokens: Seq<Token>) -> bool {
    forall|i: int| 0 <= i < tokens.len() ==> !(#[trigger] tokens[i]).is_paren()
}

/// Whether a working stack holds nothing but operators and opening
/// parentheses.
pub open spec fn holds_no_closing(stack: Seq<Token>) -> bool {
    forall|i: int|
        0 <= i < stack.len() ==> !((#[trigger] stack[i]) is CloseParen) && !(stack[i] is Number)
}

/// The number of opening parentheses on a working stack.
pub open spec fn open_count(stack: Seq<Token>) -> nat
    decreases stack.len(),
{
    if stack.len() == 0 {
        0
    } else if stack.last() is OpenParen {
        open_count(stack.drop_last()) + 1
    } else {
        open_count(stack.drop_last())
    }
}

/// Whether a state can arise while tokens are read: no parenthesis has
/// reached the output, and the stack holds operators and opening parentheses
/// only.
pub open spec fn orderly(yard: Yard) -> bool {
    paren_free(yard.output) && holds_no_closing(yard.stack)
}

/// Moving the top of the stack to the output keeps a state orderly, unless
/// the top is an opening parenthesis.
proof fn lemma_shift_orderly(yard: Yard)
    requires
        orderly(yard),
        yard.stack.len() > 0,
        !(yard.stack.last() is OpenParen),
    ensures
        orderly(yard.shift()),
        open_count(yard.shift().stack) == open_count(yard.stack),
{
    let top = yard.stack.last();
    assert(top == yard.stack[yard.stack.len() - 1]);
    assert(!top.is_paren());
}

/// The arrival of an operator keeps a state orderly and leaves the opening
/// parentheses on the stack where they are.
pub proof fn lemma_push_operator_orderly(yard: Yard, op: Token)
    requires
        orderly(yard),
        op.is_operator(),
    ensures
        orderly(push_operator(yard, op)),
        open_count(push_operator(yard, op).stack) == open_count(yard.stack),
    decreases yard.stack.len(),
{
    if yard.stack.len() > 0 && yields_to(yard.stack.last(), op) {
        lemma_shift_orderly(yard);
        lemma_push_operator_orderly(yard.shift(), op);
    } else {
        assert(yard.stack.push(op).drop_last() =~= yard.stack);
    }
}

/// A closing parenthesis finds its partner exactly when the stack holds an
/// opening parenthesis; the state stays orderly and the stack holds one
/// opening parenthesis less.
pub proof fn lemma_close_paren_orderly(yard: Yard)
    requires
        orderly(yard),
    ensures
        close_paren(yard) is Some <==> open_count(yard.stack) > 0,
        close_paren(yard) matches Some(next) ==> orderly(next) && open_count(next.stack) + 1
            == open_count(yard.stack),
    decreases yard.stack.len(),
{
    if yard.stack.len() > 0 && !(yard.stack.last() is OpenParen) {
        lemma_shift_orderly(yard);
        lemma_close_paren_orderly(yard.shift());
    }
}

/// The stack can be emptied into the output exactly when it holds no opening
/// parenthesis, and no parenthesis reaches the output then.
pub proof fn lemma_drain_orderly(yard: Yard)
    requires
        orderly(yard),
    ensures
        drain(yard) is Some <==> open_count(yard.stack) == 0,
        drain(yard) matches Some(postfix) ==> paren_free(postfix),
    decreases yard.stack.len(),
{
    if yard.stack.len() > 0 && !(yard.stack.last() is OpenParen) {
        lemma_shift_orderly(yard);
        lemma_drain_orderly(yard.shift());
    }
}

/// Tokens can be fed into the empty state exactly when none of their
/// closing parentheses comes without a partner. The state they leave is
/// orderly, and its stack holds as many opening parentheses as the tokens
/// have left open.
pub proof fn lemma_fed_never_below(tokens: Seq<Token>)
    ensures
        fed(Yard::empty(), tokens) is Some <==> never_below(tokens),
        fed(Yard::empty(), tokens) matches Some(yard) ==> orderly(yard) && open_count(yard.stack)
            == depth(tokens),
    decreases tokens.len(),
{
    if tokens.len() == 0 {
        assert forall|k: int| 0 <= k <= tokens.len() implies depth(#[trigger] tokens.take(k))
            >= 0 by {
            assert(tokens.take(k) =~= tokens);
        }
    } else {
        let front = tokens.drop_last();
        let token = tokens.last();
        lemma_fed_never_below(front);
        assert(tokens.take(tokens.len() as int) =~= tokens);
        assert forall|k: int| 0 <= k <= front.len() implies #[trigger] tokens.take(k)
            == front.take(k) by {
            assert(tokens.take(k) =~= front.take(k));
        }
        match fed(Yard::empty(), front) {
            Some(before) => {
                match token {
                    Token::CloseParen => {
                        lemma_close_paren_orderly(before);
                    },
                    Token::Number(_) => {},
                    Token::OpenParen => {
                        assert(before.stack.push(token).drop_last() =~= before.stack);
                    },
                    _ => {
                        lemma_push_operator_orderly(before, token);
                    },
                }
                if feed(before, token) is Some {
                    assert forall|k: int| 0 <= k <= tokens.len() implies depth(
                        #[trigger] tokens.take(k),
                    ) >= 0 by {
                        if k <= front.len() {
                            assert(tokens.take(k) == front.take(k));
                        }
                    }
                }
            },
            None => {
                let k = choose|k: int| 0 <= k <= front.len() && depth(#[trigger] front.take(k)) < 0;
                assert(tokens.take(k) == front.take(k));
            },
        }
    }
}

/// A token sequence has a postfix order exactly when its parentheses match,
/// and its postfix order holds no parenthesis.
pub proof fn lemma_postfix_iff_balanced(tokens: Seq<Token>)
    ensures
        postfix_of(tokens) is Some <==> balanced(tokens),
        postfix_of(tokens) matches Some(postfix) ==> paren_free(postfix),
{
    lemma_fed_never_below(tokens);
    if let Some(yard) = fed(Yard::empty(), tokens) {
        lemma_drain_orderly(yard);
    }
}

} // verus!
