//! Tokens, their postfix order, and the expression tree built from it.
pub mod error;
pub mod infix;
pub mod shunting_yard;
pub mod token;

use crate::error::{CalcError, CalcFault};
use crate::expression::error::{ParseError, ParseFault};
use crate::expression::shunting_yard::{
    balanced, lemma_postfix_iff_balanced, paren_free, postfix_of, shunting_yard,
};
use crate::expression::token::{parse_token, tokens_of, Token};
use vstd::prelude::*;
use vstd::string::StringSliceAdditionalSpecFns;

verus! {

/// An arithmetic expression as a tree: a number, or an operator over a left
/// and a right operand.
#[derive(Debug, PartialEq, Eq)]
pub enum Expression {
    Number(i64),
    Add(Box<Expression>, Box<Expression>),
    Sub(Box<Expression>, Box<Expression>),
    Mult(Box<Expression>, Box<Expression>),
    Div(Box<Expression>, Box<Expression>),
    Mod(Box<Expression>, Box<Expression>),
    Pow(Box<Expression>, Box<Expression>),
}

impl Expression {
    /// The tree of the operator `op` over `left` and `right`. (Where `op`
    /// is no operator there is no such tree, and `left` stands for it.)
    pub open spec fn node(op: Token, left: Expression, right: Expression) -> Expression
        recommends
            op.is_operator(),
    {
        match op {
            Token::Plus => Expression::Add(Box::new(left), Box::new(right)),
            Token::Hyphen => Expression::Sub(Box::new(left), Box::new(right)),
            Token::Asterisk => Expression::Mult(Box::new(left), Box::new(right)),
            Token::Slash => Expression::Div(Box::new(left), Box::new(right)),
            Token::Percent => Expression::Mod(Box::new(left), Box::new(right)),
            Token::Hat => Expression::Pow(Box::new(left), Box::new(right)),
            _ => left,
        }
    }

    /// The operator and the two operands of an operation; none for a number.
    pub open spec fn parts(self) -> Option<(Token, Expression, Expression)> {
        match self {
            Expression::Number(_) => None,
            Expression::Add(l, r) => Some((Token::Plus, *l, *r)),
            Expression::Sub(l, r) => Some((Token::Hyphen, *l, *r)),
            Expression::Mult(l, r) => Some((Token::Asterisk, *l, *r)),
            Expression::Div(l, r) => Some((Token::Slash, *l, *r)),
            Expression::Mod(l, r) => Some((Token::Percent, *l, *r)),
            Expression::Pow(l, r) => Some((Token::Hat, *l, *r)),
        }
    }

    /// The postfix order of a tree: the left operand, the right operand,
    /// then the operator.
    pub open spec fn postfix(self) -> Seq<Token>
        decreases self,
    {
        match self {
            Expression::Number(n) => seq![Token::Number(n)],
            Expression::Add(l, r) => l.postfix() + r.postfix() + seq![Token::Plus],
            Expression::Sub(l, r) => l.postfix() + r.postfix() + seq![Token::Hyphen],
            Expression::Mult(l, r) => l.postfix() + r.postfix() + seq![Token::Asterisk],
            Expression::Div(l, r) => l.postfix() + r.postfix() + seq![Token::Slash],
            Expression::Mod(l, r) => l.postfix() + r.postfix() + seq![Token::Percent],
            Expression::Pow(l, r) => l.postfix() + r.postfix() + seq![Token::Hat],
        }
    }

    /// A number, boxed.
    pub fn new_box_number(n: i64) -> (r: Box<Expression>)
        ensures
            *r == Expression::Number(n),
    {
        Box::new(Expression::Number(n))
    }

    /// The sum of `l` and `r`, boxed.
    pub fn new_box_add(l: Box<Expression>, r: Box<Expression>) -> (b: Box<Expression>)
        ensures
            *b == Expression::Add(l, r),
    {
        Box::new(Expression::Add(l, r))
    }

    /// The difference of `l` and `r`, boxed.
    pub fn new_box_sub(l: Box<Expression>, r: Box<Expression>) -> (b: Box<Expression>)
        ensures
            *b == Expression::Sub(l, r),
    {
        Box::new(Expression::Sub(l, r))
    }

    /// The product of `l` and `r`, boxed.
    pub fn new_box_mult(l: Box<Expression>, r: Box<Expression>) -> (b: Box<Expression>)
        ensures
            *b == Expression::Mult(l, r),
    {
        Box::new(Expression::Mult(l, r))
    }

    /// The quotient of `l` and `r`, boxed.
    pub fn new_box_div(l: Box<Expression>, r: Box<Expression>) -> (b: Box<Expression>)
        ensures
            *b == Expression::Div(l, r),
    {
        Box::new(Expression::Div(l, r))
    }

    /// The remainder of `l` and `r`, boxed.
    pub fn new_box_mod(l: Box<Expression>, r: Box<Expression>) -> (b: Box<Expression>)
        ensures
            *b == Expression::Mod(l, r),
    {
        Box::new(Expression::Mod(l, r))
    }

    /// The power of `l` and `r`, boxed.
    pub fn new_box_pow(l: Box<Expression>, r: Box<Expression>) -> (b: Box<Expression>)
        ensures
            *b == Expression::Pow(l, r),
    {
        Box::new(Expression::Pow(l, r))
    }
}

/// What reading a tree off the end of a token sequence gives: the tree or
/// the fault, and the tokens that are left in front.
pub struct Reading {
    pub outcome: Result<Expression, ParseFault>,
    pub front: Seq<Token>,
}

/// The tree that stands at the end of a postfix sequence, and the tokens in
/// front of it. The last token decides: a number is a tree by itself; an
/// operator takes the tree in front of it as its right operand and the tree
/// in front of that one as its left operand. Where the tokens run out before
/// the tree is complete, no token is left. A parenthesis has no place in a
/// postfix sequence: where one is met in place of a number or an operator,
/// the tokens in front of it are left. (What is left in front of the right
/// operand is always shorter than `tokens`; the test for it shows that the
/// definition ends.)
pub open spec fn read_tree(tokens: Seq<Token>) -> Reading
    decreases tokens.len(),
{
    if tokens.len() == 0 {
        Reading { outcome: Err(ParseFault::NoToken), front: tokens }
    } else if tokens.last().is_paren() {
        Reading { outcome: Err(ParseFault::MismatchParen), front: tokens.drop_last() }
    } else if let Token::Number(n) = tokens.last() {
        Reading { outcome: Ok(Expression::Number(n)), front: tokens.drop_last() }
    } else {
        let right = read_tree(tokens.drop_last());
        if right.outcome is Ok && right.front.len() < tokens.len() {
            let left = read_tree(right.front);
            match left.outcome {
                Ok(l) => Reading {
                    outcome: Ok(Expression::node(tokens.last(), l, right.outcome->Ok_0)),
                    front: left.front,
                },
                Err(_) => left,
            }
        } else {
            right
        }
    }
}

/// The tree of a whole postfix sequence: the tree at its end, where no
/// token is left in front of it.
pub open spec fn tree_of(postfix: Seq<Token>) -> Result<Expression, ParseFault> {
    let reading = read_tree(postfix);
    match reading.outcome {
        Ok(tree) => if reading.front.len() == 0 {
            Ok(tree)
        } else {
            Err(ParseFault::TooMuchToken)
        },
        Err(fault) => Err(fault),
    }
}

/// The expression tree of a text: the tree of the postfix order of its
/// tokens, or the fault of the first stage that has one.
pub open spec fn expression_of(text: Seq<u8>) -> Result<Expression, CalcFault> {
    match tokens_of(text) {
        Err(fault) => Err(CalcFault::Token(fault)),
        Ok(tokens) => match postfix_of(tokens) {
            None => Err(CalcFault::Parse(ParseFault::MismatchParen)),
            Some(postfix) => match tree_of(postfix) {
                Err(fault) => Err(CalcFault::Parse(fault)),
                Ok(tree) => Ok(tree),
            },
        },
    }
}

/// Reads a line of text as an expression: cuts it into tokens, brings them
/// into postfix order, and builds the tree. Tokens that are left over once
/// the tree is complete are an error.
pub fn parse_expr(text: &str) -> (r: Result<Expression, CalcError>)
    ensures
        match expression_of(text.spec_bytes()) {
            Ok(tree) => r matches Ok(e) && e == tree,
            Err(fault) => r matches Err(e) && e.reports(fault, text@),
        },
{
    let tokens = match parse_token(text) {
        Ok(tokens) => tokens,
        Err(e) => return Err(CalcError::Token(e)),
    };
    let mut tokens = match shunting_yard(tokens) {
        Ok(tokens) => tokens,
        Err(e) => return Err(CalcError::Parse(e)),
    };
    let expression = match build_expression_tree(&mut tokens) {
        Ok(expression) => expression,
        Err(e) => return Err(CalcError::Parse(e)),
    };
    if !tokens.is_empty() {
        return Err(CalcError::Parse(ParseError::token_excess()));
    }
    Ok(*expression)
}

/// The boxed tree of the operator `op` over `left` and `right`.
fn new_box_node(op: Token, left: Box<Expression>, right: Box<Expression>) -> (b: Box<Expression>)
    requires
        op.is_operator(),
    ensures
        *b == Expression::node(op, *left, *right),
{
    match op {
        Token::Plus => Expression::new_box_add(left, right),
        Token::Hyphen => Expression::new_box_sub(left, right),
        Token::Asterisk => Expression::new_box_mult(left, right),
        Token::Slash => Expression::new_box_div(left, right),
        Token::Percent => Expression::new_box_mod(left, right),
        _ => Expression::new_box_pow(left, right),
    }
}

/// Takes the tree that stands at the end of a postfix sequence off it.
///
/// The last token is taken first. A number is a tree by itself. An operator
/// takes the tree in front of it as its right operand, then the tree in
/// front of that one as its left operand. The tokens in front of the tree
/// stay in `tokens`. Where the tokens run out before the tree is complete,
/// this is an error. So is a parenthesis in place of a number or an
/// operator; the postfix order that `shunting_yard` gives holds none.
pub fn build_expression_tree(tokens: &mut Vec<Token>) -> (r: Result<Box<Expression>, ParseError>)
    ensures
        final(tokens)@ == read_tree(old(tokens)@).front,
        match read_tree(old(tokens)@).outcome {
            Ok(tree) => r matches Ok(b) && *b == tree,
            Err(fault) => r matches Err(e) && e.reports(fault),
        },
    decreases old(tokens)@.len(),
{
    let ghost start = tokens@;
    match tokens.pop() {
        Some(token) => {
            assert(token == start.last());
            match token {
                Token::Number(n) => Ok(Expression::new_box_number(n)),
                Token::OpenParen | Token::CloseParen => Err(ParseError::paren_mismatch()),
                _ => {
                    let right = match build_expression_tree(tokens) {
                        Ok(right) => right,
                        Err(e) => return Err(e),
                    };
                    proof {
                        lemma_read_tree_splits(start.drop_last());
                    }
                    let left = match build_expression_tree(tokens) {
                        Ok(left) => left,
                        Err(e) => return Err(e),
                    };
                    Ok(new_box_node(token, left, right))
                },
            }
        },
        None => Err(ParseError::token_shortage()),
    }
}

/// Where `read_tree` finds a tree, what it leaves in front of the tree is a
/// proper prefix of the tokens, and the tree's postfix order is the rest of
/// them. Where it finds none, what it leaves is no longer than the tokens.
pub proof fn lemma_read_tree_splits(tokens: Seq<Token>)
    ensures
        read_tree(tokens).front.len() <= tokens.len(),
        read_tree(tokens).outcome matches Ok(tree) ==> tokens == read_tree(tokens).front
            + tree.postfix() && read_tree(tokens).front.len() < tokens.len(),
    decreases tokens.len(),
{
    if tokens.len() > 0 && !tokens.last().is_paren() {
        let last = tokens.last();
        assert(tokens =~= tokens.drop_last() + seq![last]);
        if !(last is Number) {
            lemma_read_tree_splits(tokens.drop_last());
            let right = read_tree(tokens.drop_last());
            if let Ok(r) = right.outcome {
                lemma_read_tree_splits(right.front);
                let left = read_tree(right.front);
                if let Ok(l) = left.outcome {
                    let tree = Expression::node(last, l, r);
                    assert(tree.postfix() =~= l.postfix() + r.postfix() + seq![last]);
                    assert(tokens =~= left.front + tree.postfix());
                }
            }
        }
    }
}

/// In a sequence without parentheses the tree builder meets none: the only
/// fault it can find there is that the tokens run out.
pub proof fn lemma_read_tree_paren_free(tokens: Seq<Token>)
    requires
        paren_free(tokens),
    ensures
        read_tree(tokens).outcome matches Err(fault) ==> fault == ParseFault::NoToken,
    decreases tokens.len(),
{
    if tokens.len() > 0 && !(tokens.last() is Number) {
        lemma_read_tree_paren_free(tokens.drop_last());
        lemma_read_tree_splits(tokens.drop_last());
        let right = read_tree(tokens.drop_last());
        if right.outcome is Ok {
            let tail = right.outcome->Ok_0.postfix();
            assert forall|i: int| 0 <= i < right.front.len() implies !(
            #[trigger] right.front[i]).is_paren() by {
                assert(right.front[i] == (right.front + tail)[i]);
                assert(tokens.drop_last()[i] == tokens[i]);
            }
            lemma_read_tree_paren_free(right.front);
        }
    }
}

/// A text is no expression for want of a partner to a parenthesis exactly
/// when it has tokens and their parentheses do not match: the tree builder
/// never meets a parenthesis in what the reorderer hands on.
pub proof fn lemma_mismatch_iff_unbalanced(text: Seq<u8>)
    ensures
        expression_of(text) == Err::<Expression, CalcFault>(
            CalcFault::Parse(ParseFault::MismatchParen),
        ) <==> (tokens_of(text) matches Ok(tokens) && !balanced(tokens)),
{
    if let Ok(tokens) = tokens_of(text) {
        lemma_postfix_iff_balanced(tokens);
        if let Some(postfix) = postfix_of(tokens) {
            lemma_read_tree_paren_free(postfix);
        }
    }
}

/// The operator of an operation is an operator, and the postfix order of an
/// operation is that of its operands, then the operator.
pub proof fn lemma_parts(tree: Expression)
    ensures
        tree.parts() is None <==> tree is Number,
        tree.parts() matches Some((op, l, r)) ==> op.is_operator() && tree == Expression::node(
            op,
            l,
            r,
        ) && tree.postfix() == l.postfix() + r.postfix() + seq![op],
{
}

/// Round trip: from the postfix order of a tree, behind any tokens,
/// `read_tree` rebuilds the tree and leaves those tokens.
pub proof fn lemma_read_tree_of_postfix(front: Seq<Token>, tree: Expression)
    ensures
        read_tree(front + tree.postfix()) == (Reading { outcome: Ok(tree), front }),
    decreases tree,
{
    let tokens = front + tree.postfix();
    lemma_parts(tree);
    match tree.parts() {
        None => {
            assert(tokens.drop_last() =~= front);
        },
        Some((op, l, r)) => {
            lemma_read_tree_of_postfix(front + l.postfix(), r);
            lemma_read_tree_of_postfix(front, l);
            lemma_postfix_paren_free(r);
            assert(tokens.last() == op);
            assert(tokens.drop_last() =~= front + l.postfix() + r.postfix());
        },
    }
}

/// The postfix order of a tree holds at least one token, and no
/// parenthesis.
pub proof fn lemma_postfix_paren_free(tree: Expression)
    ensures
        tree.postfix().len() > 0,
        paren_free(tree.postfix()),
    decreases tree,
{
    lemma_parts(tree);
    if let Some((op, l, r)) = tree.parts() {
        lemma_postfix_paren_free(l);
        lemma_postfix_paren_free(r);
    }
}

} // verus!
