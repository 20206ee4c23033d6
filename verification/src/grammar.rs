//! What parsing means: the node that the grammar finds at a position of a
//! token sequence, and the number of tokens it takes.
//!
//! ```text
//! function_definition := "int" IDENT "(" "void" ")" "{" return_statement ";" "}"
//! return_statement    := "return" expr
//! expr                := factor (binary_operator expr)*
//! factor              := INTEGER | ("-" | "~") factor | "(" expr ")"
//! ```

use crate::ast::{
    BinaryOperator, ExprNode, FactorNode, FunctionDefinitionView, StatementNode, UnaryOperator,
};
use crate::lexer::TokenView;
use crate::parser::{ParseErrorView, Terminal};
use crate::scan::remaining;
use vstd::prelude::*;

verus! {

/// What parsing at a position gives: the node or the error, and the number of
/// tokens consumed. The cursor ends that many tokens after the position; on
/// an error it is on the offending token.
pub struct Parsed<T> {
    pub node: Result<T, ParseErrorView>,
    pub consumed: nat,
}

impl<T> Parsed<T> {
    /// The same outcome after `before` more tokens were consumed first.
    pub open spec fn after(self, before: nat) -> Parsed<T> {
        Parsed { node: self.node, consumed: before + self.consumed }
    }
}

/// The binary operator that a token denotes, if any.
pub open spec fn binary_operator(token: TokenView) -> Option<BinaryOperator> {
    match token {
        TokenView::Plus => Some(BinaryOperator::Add),
        TokenView::Hyphen => Some(BinaryOperator::Subtract),
        TokenView::Asterisk => Some(BinaryOperator::Multiply),
        TokenView::Percent => Some(BinaryOperator::Mod),
        TokenView::Backslash => Some(BinaryOperator::Divide),
        _ => None,
    }
}

/// The unary operator that a token denotes at the start of an operand, if
/// any.
pub open spec fn unary_operator(token: TokenView) -> Option<UnaryOperator> {
    match token {
        TokenView::Hyphen => Some(UnaryOperator::Negate),
        TokenView::Tilde => Some(UnaryOperator::Complement),
        _ => None,
    }
}

/// Whether the token at `pos` is a binary operator of rank `min_prec` or
/// more: the condition on which an expression of that level goes on.
pub open spec fn continues(tokens: Seq<TokenView>, pos: nat, min_prec: int) -> bool {
    &&& pos < tokens.len()
    &&& binary_operator(tokens[pos as int]) matches Some(op)
    &&& op.rank() >= min_prec
}

/// One terminal at `pos`: it is consumed where the token there is of the
/// kind `terminal`. Otherwise nothing is consumed, and the error names the
/// terminal and the token found, or says that the tokens have ended.
pub open spec fn expect_at(tokens: Seq<TokenView>, pos: nat, terminal: Terminal) -> Parsed<()> {
    if pos >= tokens.len() {
        Parsed { node: Err(ParseErrorView::OutOfBounds), consumed: 0 }
    } else if terminal.matches(tokens[pos as int]) {
        Parsed { node: Ok(()), consumed: 1 }
    } else {
        Parsed {
            node: Err(
                ParseErrorView::UnexpectedToken { expected: terminal, found: tokens[pos as int] },
            ),
            consumed: 0,
        }
    }
}

/// The identifier at `pos`: it is consumed and gives its name. Any other
/// token is left, with the error of an unexpected token.
pub open spec fn identifier_at(tokens: Seq<TokenView>, pos: nat) -> Parsed<Seq<char>> {
    match expect_at(tokens, pos, Terminal::Identifier).node {
        Ok(_) => Parsed { node: Ok(identifier_name(tokens[pos as int])), consumed: 1 },
        Err(e) => Parsed { node: Err(e), consumed: 0 },
    }
}

/// The name of the identifier token `token`.
pub open spec fn identifier_name(token: TokenView) -> Seq<char> {
    match token {
        TokenView::Identifier(name) => name,
        _ => Seq::empty(),
    }
}

/// The terminals `terminals[from..]` one after the other from `pos` on. The
/// first that is not found ends it, with the terminals before it consumed.
pub open spec fn expect_all(
    tokens: Seq<TokenView>,
    pos: nat,
    terminals: Seq<Terminal>,
    from: nat,
) -> Parsed<()>
    decreases remaining(terminals.len(), from),
{
    if from >= terminals.len() {
        Parsed { node: Ok(()), consumed: 0 }
    } else {
        let first = expect_at(tokens, pos, terminals[from as int]);
        match first.node {
            Ok(_) => expect_all(tokens, pos + 1, terminals, from + 1).after(1),
            Err(e) => first,
        }
    }
}

/// The operand at `pos`: an integer literal; a unary operator and the one
/// operand after it; or an expression in parentheses. A unary operator
/// therefore binds tighter than every binary operator.
pub open spec fn factor_at(tokens: Seq<TokenView>, pos: nat) -> Parsed<FactorNode>
    decreases remaining(tokens.len(), pos), 0nat,
{
    if pos >= tokens.len() {
        Parsed { node: Err(ParseErrorView::OutOfBounds), consumed: 0 }
    } else if tokens[pos as int] is Integer {
        Parsed { node: Ok(FactorNode::Integer(tokens[pos as int]->Integer_0)), consumed: 1 }
    } else if unary_operator(tokens[pos as int]) is Some {
        let unary_op = unary_operator(tokens[pos as int])->0;
        let operand = factor_at(tokens, pos + 1);
        match operand.node {
            Ok(factor) => Parsed {
                node: Ok(FactorNode::Unary { unary_op, expr: Box::new(factor.as_expr()) }),
                consumed: 1 + operand.consumed,
            },
            Err(e) => Parsed { node: Err(e), consumed: 1 + operand.consumed },
        }
    } else if tokens[pos as int] is OpenParen {
        let inner = expr_at(tokens, pos + 1, 0);
        match inner.node {
            Ok(expr) => {
                let close = expect_at(tokens, pos + 1 + inner.consumed, Terminal::CloseParen);
                match close.node {
                    Ok(_) => Parsed {
                        node: Ok(FactorNode::Expr(Box::new(expr))),
                        consumed: 2 + inner.consumed,
                    },
                    Err(e) => Parsed { node: Err(e), consumed: 1 + inner.consumed },
                }
            },
            Err(e) => Parsed { node: Err(e), consumed: 1 + inner.consumed },
        }
    } else {
        Parsed {
            node: Err(ParseErrorView::ExpectedExpression { found: tokens[pos as int] }),
            consumed: 0,
        }
    }
}

/// The expression at `pos` whose binary operators all have the rank
/// `min_prec` or more: an operand, and then operators and right-hand sides
/// for as long as such an operator follows.
pub open spec fn expr_at(tokens: Seq<TokenView>, pos: nat, min_prec: int) -> Parsed<ExprNode>
    decreases remaining(tokens.len(), pos), 2nat,
{
    let first = factor_at(tokens, pos);
    match first.node {
        Ok(factor) => climb(tokens, pos + first.consumed, min_prec, factor.as_expr()).after(
            first.consumed,
        ),
        Err(e) => Parsed { node: Err(e), consumed: first.consumed },
    }
}

/// The expression that `left` grows into from `pos` on: while a binary
/// operator of rank `min_prec` or more follows, its right-hand side is the
/// expression of the next higher rank after it, and the two sides under the
/// operator become the new left-hand side. Operators of one rank therefore
/// group to the left.
pub open spec fn climb(tokens: Seq<TokenView>, pos: nat, min_prec: int, left: ExprNode) -> Parsed<
    ExprNode,
>
    decreases remaining(tokens.len(), pos), 1nat,
{
    if continues(tokens, pos, min_prec) {
        let binary_op = binary_operator(tokens[pos as int])->0;
        let right = expr_at(tokens, pos + 1, binary_op.rank() + 1);
        match right.node {
            Ok(rhs) => climb(
                tokens,
                pos + 1 + right.consumed,
                min_prec,
                ExprNode::Binary { binary_op, lhs: Box::new(left), rhs: Box::new(rhs) },
            ).after(1 + right.consumed),
            Err(e) => Parsed { node: Err(e), consumed: 1 + right.consumed },
        }
    } else {
        Parsed { node: Ok(left), consumed: 0 }
    }
}

/// The statement at `pos`: the keyword `return` and an expression.
pub open spec fn return_statement_at(tokens: Seq<TokenView>, pos: nat) -> Parsed<StatementNode> {
    let keyword = expect_at(tokens, pos, Terminal::Return);
    match keyword.node {
        Ok(_) => {
            let value = expr_at(tokens, pos + 1, 0);
            match value.node {
                Ok(expr) => Parsed {
                    node: Ok(StatementNode::Return(expr)),
                    consumed: 1 + value.consumed,
                },
                Err(e) => Parsed { node: Err(e), consumed: 1 + value.consumed },
            }
        },
        Err(e) => Parsed { node: Err(e), consumed: 0 },
    }
}

/// The terminals before the statement of a function definition.
pub open spec fn function_head() -> Seq<Terminal> {
    seq![
        Terminal::Int,
        Terminal::Identifier,
        Terminal::OpenParen,
        Terminal::Void,
        Terminal::CloseParen,
        Terminal::OpenBrace,
    ]
}

/// The terminals after the statement of a function definition.
pub open spec fn function_tail() -> Seq<Terminal> {
    seq![Terminal::Semicolon, Terminal::CloseBrace]
}

/// The function definition at `pos`: `int`, the name, `(void)`, and between
/// braces a `return` statement with its semicolon.
pub open spec fn function_definition_at(tokens: Seq<TokenView>, pos: nat) -> Parsed<
    FunctionDefinitionView,
> {
    let head = expect_all(tokens, pos, function_head(), 0);
    match head.node {
        Ok(_) => {
            let statement = return_statement_at(tokens, pos + 6);
            match statement.node {
                Ok(body) => {
                    let tail = expect_all(
                        tokens,
                        pos + 6 + statement.consumed,
                        function_tail(),
                        0,
                    );
                    match tail.node {
                        Ok(_) => Parsed {
                            node: Ok(
                                FunctionDefinitionView {
                                    identifier: identifier_name(tokens[pos + 1 as int]),
                                    body,
                                },
                            ),
                            consumed: 8 + statement.consumed,
                        },
                        Err(e) => Parsed {
                            node: Err(e),
                            consumed: 6 + statement.consumed + tail.consumed,
                        },
                    }
                },
                Err(e) => Parsed { node: Err(e), consumed: 6 + statement.consumed },
            }
        },
        Err(e) => Parsed { node: Err(e), consumed: head.consumed },
    }
}

/// Expecting a list of terminals is expecting its first and then the rest.
pub proof fn lemma_expect_all_step(
    tokens: Seq<TokenView>,
    pos: nat,
    terminals: Seq<Terminal>,
    from: nat,
)
    requires
        from < terminals.len(),
    ensures
        expect_at(tokens, pos, terminals[from as int]).node is Ok ==> expect_all(
            tokens,
            pos,
            terminals,
            from,
        ) == expect_all(tokens, pos + 1, terminals, from + 1).after(1),
        expect_at(tokens, pos, terminals[from as int]).node is Err ==> expect_all(
            tokens,
            pos,
            terminals,
            from,
        ) == expect_at(tokens, pos, terminals[from as int]),
{
}

/// Whether a token can start an operand.
pub open spec fn starts_operand(token: TokenView) -> bool {
    token is Integer || unary_operator(token) is Some || token is OpenParen
}

/// Whether the error `e` is about the token at index `at`: the tokens end
/// there, or the token there is the one found and is not what was asked for.
pub open spec fn error_at(tokens: Seq<TokenView>, at: nat, e: ParseErrorView) -> bool {
    match e {
        ParseErrorView::OutOfBounds => at >= tokens.len(),
        ParseErrorView::UnexpectedEnd => false,
        ParseErrorView::UnexpectedToken { expected, found } => {
            &&& at < tokens.len()
            &&& found == tokens[at as int]
            &&& !expected.matches(found)
        },
        ParseErrorView::ExpectedExpression { found } => {
            &&& at < tokens.len()
            &&& found == tokens[at as int]
            &&& !starts_operand(found)
        },
    }
}

/// Whether an outcome of parsing at `pos` keeps the cursor in order: the
/// cursor ends inside the tokens or at their end, and an error is about the
/// token on which the cursor ends.
pub open spec fn in_order<T>(tokens: Seq<TokenView>, pos: nat, parsed: Parsed<T>) -> bool {
    &&& pos + parsed.consumed <= tokens.len()
    &&& parsed.node matches Err(e) ==> error_at(tokens, pos + parsed.consumed, e)
}

/// A failed expectation leaves the cursor on the offending token.
pub proof fn lemma_expect_in_order(tokens: Seq<TokenView>, pos: nat, terminal: Terminal)
    requires
        pos <= tokens.len(),
    ensures
        in_order(tokens, pos, expect_at(tokens, pos, terminal)),
{
}

/// A list of expectations fails on the first token that is not as expected,
/// and leaves the cursor on it.
pub proof fn lemma_expect_all_in_order(
    tokens: Seq<TokenView>,
    pos: nat,
    terminals: Seq<Terminal>,
    from: nat,
)
    requires
        pos <= tokens.len(),
    ensures
        in_order(tokens, pos, expect_all(tokens, pos, terminals, from)),
        expect_all(tokens, pos, terminals, from).node is Ok ==> expect_all(
            tokens,
            pos,
            terminals,
            from,
        ).consumed == remaining(terminals.len(), from),
    decreases remaining(terminals.len(), from),
{
    if from < terminals.len() && expect_at(tokens, pos, terminals[from as int]).node is Ok {
        lemma_expect_all_in_order(tokens, pos + 1, terminals, from + 1);
    }
}

/// An operand takes at least one token and stays inside the tokens; where
/// there is none, the cursor is on the offending token.
pub proof fn lemma_factor_in_order(tokens: Seq<TokenView>, pos: nat)
    requires
        pos <= tokens.len(),
    ensures
        in_order(tokens, pos, factor_at(tokens, pos)),
        factor_at(tokens, pos).node is Ok ==> factor_at(tokens, pos).consumed >= 1,
    decreases remaining(tokens.len(), pos), 0nat,
{
    if pos < tokens.len() {
        let token = tokens[pos as int];
        if token is Integer {
        } else if unary_operator(token) is Some {
            lemma_factor_in_order(tokens, pos + 1);
        } else if token is OpenParen {
            lemma_expr_in_order(tokens, pos + 1, 0);
        }
    }
}

/// An expression takes at least one token and stays inside the tokens; it
/// ends before the first token that is no binary operator of rank `min_prec`
/// or more. Where there is no expression, the cursor is on the offending
/// token.
pub proof fn lemma_expr_in_order(tokens: Seq<TokenView>, pos: nat, min_prec: int)
    requires
        pos <= tokens.len(),
    ensures
        in_order(tokens, pos, expr_at(tokens, pos, min_prec)),
        expr_at(tokens, pos, min_prec).node is Ok ==> {
            &&& expr_at(tokens, pos, min_prec).consumed >= 1
            &&& !continues(tokens, pos + expr_at(tokens, pos, min_prec).consumed, min_prec)
        },
    decreases remaining(tokens.len(), pos), 2nat,
{
    lemma_factor_in_order(tokens, pos);
    let first = factor_at(tokens, pos);
    match first.node {
        Ok(factor) => {
            lemma_climb_in_order(tokens, pos + first.consumed, min_prec, factor.as_expr());
        },
        Err(_) => {},
    }
}

/// Growing an expression stays inside the tokens and ends before the first
/// token that is no binary operator of rank `min_prec` or more. Where a
/// right-hand side is missing, the cursor is on the offending token.
pub proof fn lemma_climb_in_order(tokens: Seq<TokenView>, pos: nat, min_prec: int, left: ExprNode)
    requires
        pos <= tokens.len(),
    ensures
        in_order(tokens, pos, climb(tokens, pos, min_prec, left)),
        climb(tokens, pos, min_prec, left).node is Ok ==> !continues(
            tokens,
            pos + climb(tokens, pos, min_prec, left).consumed,
            min_prec,
        ),
    decreases remaining(tokens.len(), pos), 1nat,
{
    if continues(tokens, pos, min_prec) {
        let binary_op = binary_operator(tokens[pos as int])->0;
        lemma_expr_in_order(tokens, pos + 1, binary_op.rank() + 1);
        let right = expr_at(tokens, pos + 1, binary_op.rank() + 1);
        match right.node {
            Ok(rhs) => {
                lemma_climb_in_order(
                    tokens,
                    pos + 1 + right.consumed,
                    min_prec,
                    ExprNode::Binary { binary_op, lhs: Box::new(left), rhs: Box::new(rhs) },
                );
            },
            Err(_) => {},
        }
    }
}

/// A `return` statement takes at least two tokens; one that fails leaves the
/// cursor on the offending token.
pub proof fn lemma_return_statement_in_order(tokens: Seq<TokenView>, pos: nat)
    requires
        pos <= tokens.len(),
    ensures
        in_order(tokens, pos, return_statement_at(tokens, pos)),
        return_statement_at(tokens, pos).node is Ok ==> return_statement_at(tokens, pos).consumed
            >= 2,
{
    if expect_at(tokens, pos, Terminal::Return).node is Ok {
        lemma_expr_in_order(tokens, pos + 1, 0);
    }
}

/// A function definition that fails leaves the cursor on the first token
/// that the grammar does not allow; one that succeeds takes at least ten
/// tokens.
pub proof fn lemma_function_definition_in_order(tokens: Seq<TokenView>, pos: nat)
    requires
        pos <= tokens.len(),
    ensures
        in_order(tokens, pos, function_definition_at(tokens, pos)),
        function_definition_at(tokens, pos).node is Ok ==> function_definition_at(
            tokens,
            pos,
        ).consumed >= 10,
{
    lemma_expect_all_in_order(tokens, pos, function_head(), 0);
    if expect_all(tokens, pos, function_head(), 0).node is Ok {
        lemma_return_statement_in_order(tokens, pos + 6);
        let statement = return_statement_at(tokens, pos + 6);
        if statement.node is Ok {
            lemma_expect_all_in_order(tokens, pos + 6 + statement.consumed, function_tail(), 0);
        }
    }
}

/// Of two binary operators in a row the second takes the operand between
/// them where it binds tighter than the first; otherwise the first takes it,
/// so that operators of one rank group to the left.
pub proof fn lemma_two_operators(x: i32, first: TokenView, y: i32, second: TokenView, z: i32)
    requires
        binary_operator(first) is Some,
        binary_operator(second) is Some,
    ensures
        ({
            let tokens = seq![
                TokenView::Integer(x),
                first,
                TokenView::Integer(y),
                second,
                TokenView::Integer(z),
            ];
            let a = binary_operator(first)->0;
            let b = binary_operator(second)->0;
            expr_at(tokens, 0, 0) == (Parsed {
                node: Ok(
                    if b.rank() > a.rank() {
                        ExprNode::Binary {
                            binary_op: a,
                            lhs: Box::new(ExprNode::Integer(x)),
                            rhs: Box::new(
                                ExprNode::Binary {
                                    binary_op: b,
                                    lhs: Box::new(ExprNode::Integer(y)),
                                    rhs: Box::new(ExprNode::Integer(z)),
                                },
                            ),
                        }
                    } else {
                        ExprNode::Binary {
                            binary_op: b,
                            lhs: Box::new(
                                ExprNode::Binary {
                                    binary_op: a,
                                    lhs: Box::new(ExprNode::Integer(x)),
                                    rhs: Box::new(ExprNode::Integer(y)),
                                },
                            ),
                            rhs: Box::new(ExprNode::Integer(z)),
                        }
                    },
                ),
                consumed: 5,
            })
        }),
{
    reveal_with_fuel(expr_at, 6);
    reveal_with_fuel(climb, 6);
    reveal_with_fuel(factor_at, 6);
}

/// Parentheses make an operand of what they hold: the first operator takes
/// its two operands inside them whatever the rank of the operator after
/// them.
pub proof fn lemma_parentheses_group(
    x: i32,
    first: TokenView,
    y: i32,
    second: TokenView,
    z: i32,
)
    requires
        binary_operator(first) is Some,
        binary_operator(second) is Some,
    ensures
        ({
            let tokens = seq![
                TokenView::OpenParen,
                TokenView::Integer(x),
                first,
                TokenView::Integer(y),
                TokenView::CloseParen,
                second,
                TokenView::Integer(z),
            ];
            expr_at(tokens, 0, 0) == (Parsed {
                node: Ok(
                    ExprNode::Binary {
                        binary_op: binary_operator(second)->0,
                        lhs: Box::new(
                            ExprNode::Binary {
                                binary_op: binary_operator(first)->0,
                                lhs: Box::new(ExprNode::Integer(x)),
                                rhs: Box::new(ExprNode::Integer(y)),
                            },
                        ),
                        rhs: Box::new(ExprNode::Integer(z)),
                    },
                ),
                consumed: 7,
            })
        }),
{
    reveal_with_fuel(expr_at, 6);
    reveal_with_fuel(climb, 6);
    reveal_with_fuel(factor_at, 6);
}

/// A unary operator binds tighter than a binary operator: it applies to
/// the operand after it alone, and the two together are the left-hand side
/// of the binary operator that follows.
pub proof fn lemma_unary_binds_tighter(sign: TokenView, x: i32, operator: TokenView, y: i32)
    requires
        unary_operator(sign) is Some,
        binary_operator(operator) is Some,
    ensures
        ({
            let tokens = seq![sign, TokenView::Integer(x), operator, TokenView::Integer(y)];
            &&& expr_at(tokens, 0, 0) == (Parsed {
                node: Ok(
                    ExprNode::Binary {
                        binary_op: binary_operator(operator)->0,
                        lhs: Box::new(
                            ExprNode::Unary {
                                unary_op: unary_operator(sign)->0,
                                expr: Box::new(ExprNode::Integer(x)),
                            },
                        ),
                        rhs: Box::new(ExprNode::Integer(y)),
                    },
                ),
                consumed: 4,
            })
            &&& factor_at(tokens, 0) == (Parsed {
                node: Ok(
                    FactorNode::Unary {
                        unary_op: unary_operator(sign)->0,
                        expr: Box::new(ExprNode::Integer(x)),
                    },
                ),
                consumed: 2,
            })
        }),
{
    reveal_with_fuel(expr_at, 6);
    reveal_with_fuel(climb, 6);
    reveal_with_fuel(factor_at, 6);
}

} // verus!
