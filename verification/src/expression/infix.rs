//! Trees written out in infix order, and what the reorderer and the tree
//! builder make of such a writing: the tree that was written.
use crate::error::CalcFault;
use crate::expression::error::ParseFault;
use crate::expression::shunting_yard::{
    close_paren, drain, fed, lemma_fed_in_two, lemma_fed_one, postfix_of, push_operator,
    yields_to, Yard,
};
use crate::expression::token::text::{lemma_text_round_trip, text_of};
use crate::expression::token::Token;
use crate::expression::{
    expression_of, lemma_parts, lemma_read_tree_of_postfix, tree_of, Expression,
};
use vstd::prelude::*;

verus! {

impl Expression {
    /// The priority of the operator at the root of an operation; none for a
    /// number.
    pub open spec fn rank(self) -> Option<u8> {
        match self.parts() {
            Some((op, _, _)) => op.spec_priority(),
            None => None,
        }
    }
}

/// Whether `tree` as the left operand of `op` cannot do without
/// parentheses: it cannot if it is an operation whose operator binds looser
/// than `op`.
pub open spec fn left_needs_parens(tree: Expression, op: Token) -> bool {
    match (tree.rank(), op.spec_priority()) {
        (Some(inner), Some(outer)) => inner < outer,
        _ => false,
    }
}

/// Whether `tree` as the right operand of `op` cannot do without
/// parentheses: it cannot if it is an operation whose operator binds looser
/// than `op` or as tight, since operators of one priority group to the
/// left.
pub open spec fn right_needs_parens(tree: Expression, op: Token) -> bool {
    match (tree.rank(), op.spec_priority()) {
        (Some(inner), Some(outer)) => inner <= outer,
        _ => false,
    }
}

/// Whether the left operand `tree` of `op` stands in parentheses in a
/// writing that `extra` governs.
pub open spec fn left_in_parens(
    tree: Expression,
    op: Token,
    extra: spec_fn(Expression) -> bool,
) -> bool {
    left_needs_parens(tree, op) || extra(tree)
}

/// Whether the right operand `tree` of `op` stands in parentheses in a
/// writing that `extra` governs.
pub open spec fn right_in_parens(
    tree: Expression,
    op: Token,
    extra: spec_fn(Expression) -> bool,
) -> bool {
    right_needs_parens(tree, op) || extra(tree)
}

/// A token sequence between parentheses.
pub open spec fn in_parens(tokens: Seq<Token>) -> Seq<Token> {
    seq![Token::OpenParen] + tokens + seq![Token::CloseParen]
}

/// A tree written in infix order: a number as it is; an operation as its
/// left operand, its operator and its right operand. An operand stands in
/// parentheses where it cannot do without them, and wherever `extra` asks
/// for them: with an `extra` that never does, the writing has no
/// parenthesis but the needed ones; with one that always does, every
/// operand stands in parentheses.
pub open spec fn written(tree: Expression, extra: spec_fn(Expression) -> bool) -> Seq<Token>
    decreases tree,
{
    match tree.parts() {
        None => tree.postfix(),
        Some((op, l, r)) => {
            let left = if left_in_parens(l, op, extra) {
                in_parens(written(l, extra))
            } else {
                written(l, extra)
            };
            let right = if right_in_parens(r, op, extra) {
                in_parens(written(r, extra))
            } else {
                written(r, extra)
            };
            left + seq![op] + right
        },
    }
}

/// The operators that wait on the stack once the writing of a tree has been
/// fed to the reorderer, the lowest first: the operator at the root, and
/// above it those of the right operand, unless that one stands in
/// parentheses.
pub open spec fn waiting(tree: Expression, extra: spec_fn(Expression) -> bool) -> Seq<Token>
    decreases tree,
{
    match tree.parts() {
        None => Seq::empty(),
        Some((op, l, r)) => if right_in_parens(r, op, extra) {
            seq![op]
        } else {
            seq![op] + waiting(r, extra)
        },
    }
}

/// What has reached the output once the writing of a tree has been fed to
/// the reorderer: all of its postfix order but the operators that wait.
pub open spec fn passed(tree: Expression, extra: spec_fn(Expression) -> bool) -> Seq<Token>
    decreases tree,
{
    match tree.parts() {
        None => tree.postfix(),
        Some((op, l, r)) => if right_in_parens(r, op, extra) {
            l.postfix() + r.postfix()
        } else {
            l.postfix() + passed(r, extra)
        },
    }
}

/// The priority below which an operator on top of the stack stays where it
/// is while the writing of `tree` is fed: the priority of the operator at
/// the root. A number moves no operator, whatever its priority.
pub open spec fn floor_of(tree: Expression) -> int {
    match tree.rank() {
        Some(rank) => rank as int,
        None => 256,
    }
}

/// Whether `ops` holds operators only, each of priority `floor` at least.
pub open spec fn all_at_least(ops: Seq<Token>, floor: int) -> bool {
    forall|i: int|
        0 <= i < ops.len() ==> (#[trigger] ops[i]).is_operator() && ops[i].spec_priority()->0
            >= floor
}

/// Whether what lies on top of `stack` stays there when an operator of
/// priority `floor` or above arrives: the stack is empty, or its top is a
/// parenthesis, or an operator that binds looser than `floor`.
pub open spec fn calm_below(stack: Seq<Token>, floor: int) -> bool {
    stack.len() == 0 || match stack.last().spec_priority() {
        Some(top) => top < floor,
        None => true,
    }
}

/// The operators that wait bind at least as tight as the root of the tree,
/// and with them, top first, what has passed is the postfix order of the
/// tree.
pub proof fn lemma_waiting(tree: Expression, extra: spec_fn(Expression) -> bool)
    ensures
        all_at_least(waiting(tree, extra), floor_of(tree)),
        passed(tree, extra) + waiting(tree, extra).reverse() == tree.postfix(),
    decreases tree,
{
    lemma_parts(tree);
    match tree.parts() {
        None => {
            assert(passed(tree, extra) + waiting(tree, extra).reverse() =~= tree.postfix());
        },
        Some((op, l, r)) => {
            if right_in_parens(r, op, extra) {
                assert(seq![op].reverse() =~= seq![op]);
            } else {
                lemma_waiting(r, extra);
                let above = waiting(r, extra);
                assert((seq![op] + above).reverse() =~= above.reverse() + seq![op]);
                assert(l.postfix() + passed(r, extra) + (above.reverse() + seq![op]) =~= l.postfix()
                    + (passed(r, extra) + above.reverse()) + seq![op]);
            }
        },
    }
}

/// An operator that arrives sends to the output, top first, the operators
/// on top of the stack that bind at least as tight as it does, and comes to
/// lie on what stays.
pub proof fn lemma_push_operator_flushes(yard: Yard, below: Seq<Token>, ops: Seq<Token>, op: Token)
    requires
        op.is_operator(),
        yard.stack == below + ops,
        all_at_least(ops, op.spec_priority()->0 as int),
        calm_below(below, op.spec_priority()->0 as int),
    ensures
        push_operator(yard, op) == (Yard {
            output: yard.output + ops.reverse(),
            stack: below.push(op),
        }),
    decreases ops.len(),
{
    if ops.len() == 0 {
        assert(yard.stack =~= below);
        assert(yard.output + ops.reverse() =~= yard.output);
    } else {
        let top = ops.last();
        assert(yard.stack.last() == top);
        assert(yields_to(top, op));
        assert(yard.shift().stack =~= below + ops.drop_last());
        lemma_push_operator_flushes(yard.shift(), below, ops.drop_last(), op);
        assert(yard.shift().output + ops.drop_last().reverse() =~= yard.output + ops.reverse());
    }
}

/// A closing parenthesis that arrives sends to the output, top first, the
/// operators that lie on its partner, and takes the partner off the stack.
pub proof fn lemma_close_paren_flushes(yard: Yard, below: Seq<Token>, ops: Seq<Token>)
    requires
        yard.stack == below.push(Token::OpenParen) + ops,
        all_at_least(ops, 0),
    ensures
        close_paren(yard) == Some(Yard { output: yard.output + ops.reverse(), stack: below }),
    decreases ops.len(),
{
    if ops.len() == 0 {
        assert(yard.stack =~= below.push(Token::OpenParen));
        assert(yard.stack.drop_last() =~= below);
        assert(yard.output + ops.reverse() =~= yard.output);
    } else {
        let top = ops.last();
        assert(yard.stack.last() == top);
        assert(yard.shift().stack =~= below.push(Token::OpenParen) + ops.drop_last());
        lemma_close_paren_flushes(yard.shift(), below, ops.drop_last());
        assert(yard.shift().output + ops.drop_last().reverse() =~= yard.output + ops.reverse());
    }
}

/// At the end of the input the operators on the stack go to the output, top
/// first.
pub proof fn lemma_drain_flushes(yard: Yard)
    requires
        all_at_least(yard.stack, 0),
    ensures
        drain(yard) == Some(yard.output + yard.stack.reverse()),
    decreases yard.stack.len(),
{
    if yard.stack.len() == 0 {
        assert(yard.output + yard.stack.reverse() =~= yard.output);
    } else {
        assert(yard.stack.last().is_operator());
        lemma_drain_flushes(yard.shift());
        assert(yard.shift().output + yard.shift().stack.reverse() =~= yard.output
            + yard.stack.reverse());
    }
}

/// The reorderer on the writing of a tree, from a state whose stack stays
/// calm below the root of the tree: what has passed is added to the output,
/// and the operators that wait come to lie on the stack.
pub proof fn lemma_fed_written(yard: Yard, tree: Expression, extra: spec_fn(Expression) -> bool)
    requires
        calm_below(yard.stack, floor_of(tree)),
    ensures
        fed(yard, written(tree, extra)) == Some(
            Yard {
                output: yard.output + passed(tree, extra),
                stack: yard.stack + waiting(tree, extra),
            },
        ),
    decreases tree, 0nat,
{
    lemma_parts(tree);
    match tree.parts() {
        None => {
            let number = tree.postfix()[0];
            assert(tree.postfix() =~= seq![number]);
            lemma_fed_one(yard, number);
            assert(yard.output.push(number) =~= yard.output + passed(tree, extra));
            assert(yard.stack =~= yard.stack + waiting(tree, extra));
        },
        Some((op, l, r)) => {
            let rank = op.spec_priority()->0 as int;
            let left = if left_in_parens(l, op, extra) {
                in_parens(written(l, extra))
            } else {
                written(l, extra)
            };
            let right = if right_in_parens(r, op, extra) {
                in_parens(written(r, extra))
            } else {
                written(r, extra)
            };
            // The left operand, and the operator after it.
            let ops = if left_in_parens(l, op, extra) {
                Seq::<Token>::empty()
            } else {
                waiting(l, extra)
            };
            let gone = if left_in_parens(l, op, extra) {
                l.postfix()
            } else {
                passed(l, extra)
            };
            let after_left = Yard { output: yard.output + gone, stack: yard.stack + ops };
            if left_in_parens(l, op, extra) {
                lemma_fed_in_parens(yard, l, extra);
                assert(yard.stack + ops =~= yard.stack);
            } else {
                lemma_fed_written(yard, l, extra);
            }
            lemma_waiting(l, extra);
            assert(fed(yard, left) == Some(after_left));
            lemma_push_operator_flushes(after_left, yard.stack, ops, op);
            let between = Yard { output: yard.output + l.postfix(), stack: yard.stack.push(op) };
            assert(after_left.output + ops.reverse() =~= between.output) by {
                if left_in_parens(l, op, extra) {
                    assert(ops.reverse() =~= Seq::<Token>::empty());
                } else {
                    assert(yard.output + passed(l, extra) + waiting(l, extra).reverse()
                        =~= yard.output + (passed(l, extra) + waiting(l, extra).reverse()));
                }
            }
            lemma_fed_in_two(yard, left, seq![op]);
            lemma_fed_one(after_left, op);
            assert(fed(yard, left + seq![op]) == Some(between));
            // The right operand.
            if right_in_parens(r, op, extra) {
                lemma_fed_in_parens(between, r, extra);
                assert(between.output + r.postfix() =~= yard.output + passed(tree, extra));
                assert(between.stack =~= yard.stack + waiting(tree, extra));
            } else {
                lemma_fed_written(between, r, extra);
                assert(between.output + passed(r, extra) =~= yard.output + passed(tree, extra));
                assert(between.stack + waiting(r, extra) =~= yard.stack + waiting(tree, extra));
            }
            lemma_fed_in_two(yard, left + seq![op], right);
        },
    }
}

/// The reorderer on the writing of a tree between parentheses: whatever the
/// state, the postfix order of the tree is added to the output, and the
/// stack is left as it was.
pub proof fn lemma_fed_in_parens(yard: Yard, tree: Expression, extra: spec_fn(Expression) -> bool)
    ensures
        fed(yard, in_parens(written(tree, extra))) == Some(
            Yard { output: yard.output + tree.postfix(), stack: yard.stack },
        ),
    decreases tree, 1nat,
{
    let open = seq![Token::OpenParen];
    let close = seq![Token::CloseParen];
    let body = written(tree, extra);
    let inside = Yard { output: yard.output, stack: yard.stack.push(Token::OpenParen) };
    lemma_fed_one(yard, Token::OpenParen);
    lemma_fed_written(inside, tree, extra);
    lemma_fed_in_two(yard, open, body);
    let full = Yard {
        output: yard.output + passed(tree, extra),
        stack: inside.stack + waiting(tree, extra),
    };
    assert(fed(yard, open + body) == Some(full));
    lemma_waiting(tree, extra);
    lemma_close_paren_flushes(full, yard.stack, waiting(tree, extra));
    assert(full.output + waiting(tree, extra).reverse() =~= yard.output + (passed(tree, extra)
        + waiting(tree, extra).reverse()));
    lemma_fed_in_two(yard, open + body, close);
    lemma_fed_one(full, Token::CloseParen);
}

/// Precedence and parentheses are respected: the postfix order of a tree's
/// writing is the postfix order of the tree, whether an operand stands in
/// parentheses because it needs them or because `extra` asks for them.
pub proof fn lemma_postfix_of_written(tree: Expression, extra: spec_fn(Expression) -> bool)
    ensures
        postfix_of(written(tree, extra)) == Some(tree.postfix()),
{
    let start = Yard::empty();
    lemma_fed_written(start, tree, extra);
    lemma_waiting(tree, extra);
    let end = Yard { output: start.output + passed(tree, extra), stack: start.stack + waiting(tree, extra) };
    assert(end.stack =~= waiting(tree, extra));
    assert(end.output =~= passed(tree, extra));
    lemma_drain_flushes(end);
}

/// Round trip through both stages: the writing of a tree has a postfix
/// order, and the tree of that postfix order is the tree that was written.
pub proof fn lemma_written_round_trip(tree: Expression, extra: spec_fn(Expression) -> bool)
    ensures
        postfix_of(written(tree, extra)) matches Some(postfix) && tree_of(postfix) == Ok::<
            Expression,
            ParseFault,
        >(tree),
{
    lemma_postfix_of_written(tree, extra);
    lemma_read_tree_of_postfix(Seq::empty(), tree);
    assert(Seq::<Token>::empty() + tree.postfix() =~= tree.postfix());
}


/// Reading is the inverse of writing: the text of a tree's writing is read
/// as that tree, through all stages from bytes to tree.
pub proof fn lemma_expression_of_written(tree: Expression, extra: spec_fn(Expression) -> bool)
    ensures
        expression_of(text_of(written(tree, extra))) == Ok::<Expression, CalcFault>(tree),
{
    lemma_text_round_trip(written(tree, extra));
    lemma_written_round_trip(tree, extra);
}

} // verus!
