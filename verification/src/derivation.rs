//! What a parsed expression has to do with the tokens it was parsed from:
//! the tree spells the tokens, with every operator where its rank allows it.

use crate::ast::{BinaryOperator, ExprNode, FunctionDefinitionView, StatementNode};
use crate::grammar::{
    binary_operator, climb, continues, expect_all, expr_at, factor_at, function_definition_at,
    function_head, lemma_expr_in_order, lemma_factor_in_order, return_statement_at,
    unary_operator, Parsed,
};
use crate::lexer::TokenView;
use crate::scan::remaining;
use vstd::prelude::*;

verus! {

/// A level above the rank of every binary operator: an expression of this
/// level is an operand.
pub open spec fn operand_level() -> int {
    11
}

/// Whether the tokens from index `from` up to `to` spell the expression `e`
/// as an expression of level `min_prec`. They do so in one of four ways:
///
/// - one integer literal spells its value;
/// - a unary operator and the tokens of an operand spell the operator
///   applied to it;
/// - an expression of any level between parentheses spells that expression;
/// - the tokens of a left-hand side, a binary operator of rank `min_prec` or
///   more and the tokens of a right-hand side spell the operator applied to
///   the two (see `splits`).
pub open spec fn spells(
    tokens: Seq<TokenView>,
    from: nat,
    to: nat,
    min_prec: int,
    e: ExprNode,
) -> bool
    decreases e, remaining(to, from), 1nat,
{
    &&& from < to <= tokens.len()
    &&& {
        ||| {
            &&& to == from + 1
            &&& tokens[from as int] is Integer
            &&& e == ExprNode::Integer(tokens[from as int]->Integer_0)
        }
        ||| {
            &&& e matches ExprNode::Unary { unary_op, expr }
            &&& unary_operator(tokens[from as int]) == Some(unary_op)
            &&& spells(tokens, from + 1, to, operand_level(), *expr)
        }
        ||| {
            &&& from + 2 < to
            &&& tokens[from as int] is OpenParen
            &&& tokens[to - 1] is CloseParen
            &&& spells(tokens, from + 1, (to - 1) as nat, 0, e)
        }
        ||| exists|at: nat| #[trigger]
            operator_at(tokens, at) is Some && splits(tokens, from, to, min_prec, e, at)
    }
}

/// The binary operator at index `at`, if one stands there.
pub open spec fn operator_at(tokens: Seq<TokenView>, at: nat) -> Option<BinaryOperator> {
    if at < tokens.len() {
        binary_operator(tokens[at as int])
    } else {
        None
    }
}

/// Whether the tokens from `from` up to `to` spell the binary expression `e`
/// with its operator at index `at`. The operator has the rank `min_prec` or
/// more. The left-hand side is of the operator's own rank and the right-hand
/// side of the next higher one: outside parentheses, an operator of lower
/// rank stands on neither side, and one of the same rank only on the left.
pub open spec fn splits(
    tokens: Seq<TokenView>,
    from: nat,
    to: nat,
    min_prec: int,
    e: ExprNode,
    at: nat,
) -> bool
    decreases e, remaining(to, from), 0nat,
{
    &&& e matches ExprNode::Binary { binary_op, lhs, rhs }
    &&& from < at < to <= tokens.len()
    &&& operator_at(tokens, at) == Some(binary_op)
    &&& binary_op.rank() >= min_prec
    &&& spells(tokens, from, at, binary_op.rank(), *lhs)
    &&& spells(tokens, at + 1, to, binary_op.rank() + 1, *rhs)
}

/// What is spelled at one level is spelled at every lower level, and an
/// operand is spelled at every level.
pub proof fn lemma_spells_at_lower_level(
    tokens: Seq<TokenView>,
    from: nat,
    to: nat,
    min_prec: int,
    lower: int,
    e: ExprNode,
)
    requires
        spells(tokens, from, to, min_prec, e),
        lower <= min_prec || min_prec >= operand_level(),
    ensures
        spells(tokens, from, to, lower, e),
{
    if exists|at: nat| #[trigger]
        operator_at(tokens, at) is Some && splits(tokens, from, to, min_prec, e, at) {
        let at = choose|at: nat| #[trigger]
            operator_at(tokens, at) is Some && splits(tokens, from, to, min_prec, e, at);
        assert(splits(tokens, from, to, lower, e, at));
    }
}

/// The operand that the parser finds is spelled by the tokens it consumed.
pub proof fn lemma_factor_spells(tokens: Seq<TokenView>, pos: nat)
    requires
        pos <= tokens.len(),
    ensures
        factor_at(tokens, pos).node matches Ok(factor) ==> spells(
            tokens,
            pos,
            pos + factor_at(tokens, pos).consumed,
            operand_level(),
            factor.as_expr(),
        ),
    decreases remaining(tokens.len(), pos), 0nat,
{
    if pos < tokens.len() {
        let token = tokens[pos as int];
        if token is Integer {
        } else if unary_operator(token) is Some {
            lemma_factor_spells(tokens, pos + 1);
        } else if token is OpenParen {
            lemma_expr_spells(tokens, pos + 1, 0);
        }
    }
}

/// The expression that the parser finds is spelled by the tokens it
/// consumed, at the level it was asked for: every operator binds as tightly
/// as its rank says, and operators of one rank group to the left.
pub proof fn lemma_expr_spells(tokens: Seq<TokenView>, pos: nat, min_prec: int)
    requires
        pos <= tokens.len(),
    ensures
        expr_at(tokens, pos, min_prec).node matches Ok(e) ==> spells(
            tokens,
            pos,
            pos + expr_at(tokens, pos, min_prec).consumed,
            min_prec,
            e,
        ),
    decreases remaining(tokens.len(), pos), 2nat,
{
    lemma_factor_spells(tokens, pos);
    lemma_factor_in_order(tokens, pos);
    let first = factor_at(tokens, pos);
    match first.node {
        Ok(factor) => {
            lemma_climb_spells(
                tokens,
                pos,
                pos + first.consumed,
                min_prec,
                operand_level(),
                factor.as_expr(),
            );
        },
        Err(_) => {},
    }
}

/// Growing an expression keeps it spelled: where the tokens from `start` up
/// to `pos` spell `left` at a level that the next operator's rank does not
/// exceed, the grown expression is spelled by the tokens from `start` up to
/// where the growing ends.
pub proof fn lemma_climb_spells(
    tokens: Seq<TokenView>,
    start: nat,
    pos: nat,
    min_prec: int,
    level: int,
    left: ExprNode,
)
    requires
        pos <= tokens.len(),
        spells(tokens, start, pos, level, left),
        level >= min_prec || level >= operand_level(),
        continues(tokens, pos, min_prec) ==> binary_operator(tokens[pos as int])->0.rank()
            <= level,
    ensures
        climb(tokens, pos, min_prec, left).node matches Ok(e) ==> spells(
            tokens,
            start,
            pos + climb(tokens, pos, min_prec, left).consumed,
            min_prec,
            e,
        ),
    decreases remaining(tokens.len(), pos), 1nat,
{
    if continues(tokens, pos, min_prec) {
        let binary_op = binary_operator(tokens[pos as int])->0;
        let right = expr_at(tokens, pos + 1, binary_op.rank() + 1);
        lemma_expr_spells(tokens, pos + 1, binary_op.rank() + 1);
        lemma_expr_in_order(tokens, pos + 1, binary_op.rank() + 1);
        match right.node {
            Ok(rhs) => {
                let end = pos + 1 + right.consumed;
                let grown = ExprNode::Binary {
                    binary_op,
                    lhs: Box::new(left),
                    rhs: Box::new(rhs),
                };
                lemma_spells_at_lower_level(tokens, start, pos, level, binary_op.rank(), left);
                assert(operator_at(tokens, pos) is Some && splits(
                    tokens,
                    start,
                    end,
                    binary_op.rank(),
                    grown,
                    pos,
                ));
                lemma_climb_spells(tokens, start, end, min_prec, binary_op.rank(), grown);
            },
            Err(_) => {},
        }
    } else {
        lemma_spells_at_lower_level(tokens, start, pos, level, min_prec, left);
    }
}

/// The parser follows a spelled expression: where the tokens from `from` up
/// to `to` spell `e` at the level `min_prec` and no operator of a higher rank
/// follows, growing the first operand of `e` at any level up to `min_prec`
/// arrives at `e` with the cursor at `to`, and goes on from there.
pub proof fn lemma_spelled_is_grown(
    tokens: Seq<TokenView>,
    from: nat,
    to: nat,
    min_prec: int,
    lower: int,
    e: ExprNode,
)
    requires
        spells(tokens, from, to, min_prec, e),
        lower <= min_prec,
        !continues(tokens, to, min_prec + 1),
    ensures
        factor_at(tokens, from).node is Ok,
        from + factor_at(tokens, from).consumed <= to,
        climb(
            tokens,
            from + factor_at(tokens, from).consumed,
            lower,
            factor_at(tokens, from).node->Ok_0.as_expr(),
        ) == climb(tokens, to, lower, e).after(
            (to - from - factor_at(tokens, from).consumed) as nat,
        ),
    decreases e, remaining(to, from), 0nat,
{
    let token = tokens[from as int];
    if to == from + 1 && token is Integer && e == ExprNode::Integer(token->Integer_0) {
    } else if e is Unary && unary_operator(token) == Some(e->unary_op) && spells(
        tokens,
        from + 1,
        to,
        operand_level(),
        *e->expr,
    ) {
        lemma_spelled_is_grown(
            tokens,
            from + 1,
            to,
            operand_level(),
            operand_level(),
            *e->expr,
        );
        let operand = factor_at(tokens, from + 1);
        assert(!continues(tokens, from + 1 + operand.consumed, operand_level()));
        assert(!continues(tokens, to, operand_level()));
        assert(operand.node->Ok_0.as_expr() == *e->expr && from + 1 + operand.consumed == to);
    } else if from + 2 < to && token is OpenParen && tokens[to - 1] is CloseParen && spells(
        tokens,
        from + 1,
        (to - 1) as nat,
        0,
        e,
    ) {
        lemma_spelled_is_parsed(tokens, from + 1, (to - 1) as nat, 0, e);
    } else {
        let at = choose|at: nat| #[trigger]
            operator_at(tokens, at) is Some && splits(tokens, from, to, min_prec, e, at);
        let rank = e->binary_op.rank();
        lemma_spelled_is_grown(tokens, from, at, rank, lower, *e->lhs);
        lemma_spelled_is_parsed(tokens, at + 1, to, rank + 1, *e->rhs);
        assert(continues(tokens, at, lower));
        assert(climb(tokens, at, lower, *e->lhs) == climb(tokens, to, lower, e).after(
            (to - at) as nat,
        ));
    }
}

/// Success is owed to every spelled expression: where the tokens from `from`
/// up to `to` spell `e` at the level `min_prec` and no operator of that rank
/// or more follows, the parser finds `e` at `from` and stops at `to`.
pub proof fn lemma_spelled_is_parsed(
    tokens: Seq<TokenView>,
    from: nat,
    to: nat,
    min_prec: int,
    e: ExprNode,
)
    requires
        spells(tokens, from, to, min_prec, e),
        !continues(tokens, to, min_prec),
    ensures
        expr_at(tokens, from, min_prec) == (Parsed { node: Ok(e), consumed: (to - from) as nat }),
    decreases e, remaining(to, from), 1nat,
{
    lemma_spelled_is_grown(tokens, from, to, min_prec, min_prec, e);
}

/// The parser finds exactly what is spelled. At a position inside the
/// tokens, it returns the expression `e` after `consumed` tokens if and only
/// if those tokens spell `e` at the level asked for and no operator of that
/// rank or more follows them.
pub proof fn lemma_parsed_iff_spelled(
    tokens: Seq<TokenView>,
    pos: nat,
    min_prec: int,
    e: ExprNode,
    consumed: nat,
)
    requires
        pos <= tokens.len(),
    ensures
        expr_at(tokens, pos, min_prec) == (Parsed { node: Ok(e), consumed }) <==> spells(
            tokens,
            pos,
            pos + consumed,
            min_prec,
            e,
        ) && !continues(tokens, pos + consumed, min_prec),
{
    lemma_expr_spells(tokens, pos, min_prec);
    lemma_expr_in_order(tokens, pos, min_prec);
    if spells(tokens, pos, pos + consumed, min_prec, e) && !continues(
        tokens,
        pos + consumed,
        min_prec,
    ) {
        lemma_spelled_is_parsed(tokens, pos, pos + consumed, min_prec, e);
    }
}

/// No two expressions are spelled by the same tokens at the same level,
/// where no operator of that rank or more follows them.
pub proof fn lemma_spelled_once(
    tokens: Seq<TokenView>,
    from: nat,
    to: nat,
    min_prec: int,
    e1: ExprNode,
    e2: ExprNode,
)
    requires
        spells(tokens, from, to, min_prec, e1),
        spells(tokens, from, to, min_prec, e2),
        !continues(tokens, to, min_prec),
    ensures
        e1 == e2,
{
    lemma_spelled_is_parsed(tokens, from, to, min_prec, e1);
    lemma_spelled_is_parsed(tokens, from, to, min_prec, e2);
}

/// Whether the tokens from `from` up to `to` spell the function definition
/// `function`: the keyword `int`, the name, `(`, `void`, `)`, `{`, the
/// keyword `return`, the tokens of the returned expression, `;` and `}`.
pub open spec fn spells_function(
    tokens: Seq<TokenView>,
    from: nat,
    to: nat,
    function: FunctionDefinitionView,
) -> bool {
    &&& from + 10 <= to <= tokens.len()
    &&& tokens[from as int] is Int
    &&& tokens[from + 1 as int] == TokenView::Identifier(function.identifier)
    &&& tokens[from + 2 as int] is OpenParen
    &&& tokens[from + 3 as int] is Void
    &&& tokens[from + 4 as int] is CloseParen
    &&& tokens[from + 5 as int] is OpenBrace
    &&& tokens[from + 6 as int] is Return
    &&& function.body matches StatementNode::Return(e)
    &&& spells(tokens, from + 7, (to - 2) as nat, 0, e)
    &&& tokens[to - 2] is Semicolon
    &&& tokens[to - 1] is CloseBrace
}

/// The function definition that the parser finds is spelled by the tokens it
/// consumed.
pub proof fn lemma_function_definition_spells(tokens: Seq<TokenView>, pos: nat)
    requires
        pos <= tokens.len(),
    ensures
        function_definition_at(tokens, pos).node matches Ok(function) ==> spells_function(
            tokens,
            pos,
            pos + function_definition_at(tokens, pos).consumed,
            function,
        ),
{
    reveal_with_fuel(expect_all, 7);
    if expect_all(tokens, pos, function_head(), 0).node is Ok && return_statement_at(
        tokens,
        pos + 6,
    ).node is Ok {
        lemma_expr_spells(tokens, pos + 7, 0);
    }
}

/// Success is owed to every spelled function definition: where the tokens
/// from `from` up to `to` spell `function`, the parser finds it at `from` and
/// stops at `to`.
pub proof fn lemma_spelled_function_is_parsed(
    tokens: Seq<TokenView>,
    from: nat,
    to: nat,
    function: FunctionDefinitionView,
)
    requires
        spells_function(tokens, from, to, function),
    ensures
        function_definition_at(tokens, from) == (Parsed {
            node: Ok(function),
            consumed: (to - from) as nat,
        }),
{
    reveal_with_fuel(expect_all, 7);
    lemma_spelled_is_parsed(tokens, from + 7, (to - 2) as nat, 0, function.body->Return_0);
}

} // verus!
