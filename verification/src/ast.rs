//! The syntax tree shared by the lexer's clients and the parser.

use crate::grammar::{expr_at, factor_at, function_definition_at, return_statement_at};
use crate::parser::{
    expr_outcome, factor_outcome, function_outcome, statement_outcome, ParseError, Parser,
};
use vstd::prelude::*;

verus! {

/// A prefix operator.
#[derive(Debug, Clone, Copy, PartialEq, Eq, Structural)]
pub enum UnaryOperator {
    Complement,
    Negate,
    Not,
}

/// An infix operator. Every operator associates to the left.
#[derive(Debug, Clone, Copy, PartialEq, Eq, Structural)]
pub enum BinaryOperator {
    Add,
    Subtract,
    Multiply,
    Divide,
    Mod,
    And,
    Or,
    Equal,
    NotEqual,
    LessThan,
    LessThanEqual,
    GreaterThan,
    GreaterThanEqual,
}

impl BinaryOperator {
    /// The binding strength of the operator; a higher rank binds tighter.
    pub open spec fn rank(self) -> int {
        match self {
            BinaryOperator::Multiply | BinaryOperator::Divide | BinaryOperator::Mod => 10,
            BinaryOperator::Add | BinaryOperator::Subtract => 9,
            BinaryOperator::LessThan
            | BinaryOperator::LessThanEqual
            | BinaryOperator::GreaterThan
            | BinaryOperator::GreaterThanEqual => 8,
            BinaryOperator::Equal | BinaryOperator::NotEqual => 7,
            BinaryOperator::And => 6,
            BinaryOperator::Or => 5,
        }
    }

    /// Returns the operator's rank.
    pub fn precedence(&self) -> (p: i32)
        ensures
            p == self.rank(),
    {
        match self {
            BinaryOperator::Divide | BinaryOperator::Multiply | BinaryOperator::Mod => 10,
            BinaryOperator::Add | BinaryOperator::Subtract => 9,
            BinaryOperator::LessThan
            | BinaryOperator::LessThanEqual
            | BinaryOperator::GreaterThan
            | BinaryOperator::GreaterThanEqual => 8,
            BinaryOperator::Equal | BinaryOperator::NotEqual => 7,
            BinaryOperator::And => 6,
            BinaryOperator::Or => 5,
        }
    }
}

/// An expression tree. Every node owns its children.
#[derive(Debug, PartialEq, Eq)]
pub enum ExprNode {
    Integer(i32),
    Unary { unary_op: UnaryOperator, expr: Box<ExprNode> },
    Binary { binary_op: BinaryOperator, lhs: Box<ExprNode>, rhs: Box<ExprNode> },
}

impl ExprNode {
    /// Parses an expression at the parser's cursor, with no lower bound on
    /// the rank of its operators.
    pub fn parse(parser: &mut Parser) -> (r: Result<Box<ExprNode>, ParseError>)
        ensures
            final(parser).tokens() == old(parser).tokens(),
            expr_outcome(r) == expr_at(old(parser).tokens(), old(parser).cursor(), 0).node,
            final(parser).cursor() == old(parser).cursor() + expr_at(
                old(parser).tokens(),
                old(parser).cursor(),
                0,
            ).consumed,
    {
        parser.parse_expr(0)
    }
}

/// An operand: what stands on either side of a binary operator.
#[derive(Debug, PartialEq, Eq)]
pub enum FactorNode {
    Integer(i32),
    Unary { unary_op: UnaryOperator, expr: Box<ExprNode> },
    Expr(Box<ExprNode>),
}

impl FactorNode {
    /// The operand as an expression: a parenthesized expression is the
    /// expression itself.
    pub open spec fn as_expr(self) -> ExprNode {
        match self {
            FactorNode::Integer(value) => ExprNode::Integer(value),
            FactorNode::Unary { unary_op, expr } => ExprNode::Unary { unary_op, expr },
            FactorNode::Expr(expr) => *expr,
        }
    }

    /// Turns the operand into an expression: a parenthesized expression is
    /// the expression itself.
    pub fn into_expr(self) -> (expr: Box<ExprNode>)
        ensures
            *expr == self.as_expr(),
    {
        match self {
            FactorNode::Expr(expr) => expr,
            FactorNode::Unary { unary_op, expr } => Box::new(ExprNode::Unary { unary_op, expr }),
            FactorNode::Integer(value) => Box::new(ExprNode::Integer(value)),
        }
    }

    /// Parses an operand at the parser's cursor.
    pub fn parse(parser: &mut Parser) -> (r: Result<FactorNode, ParseError>)
        ensures
            final(parser).tokens() == old(parser).tokens(),
            factor_outcome(r) == factor_at(old(parser).tokens(), old(parser).cursor()).node,
            final(parser).cursor() == old(parser).cursor() + factor_at(
                old(parser).tokens(),
                old(parser).cursor(),
            ).consumed,
    {
        parser.parse_factor()
    }
}

/// A statement. The language has one: `return` with an expression.
#[derive(Debug, PartialEq, Eq)]
pub enum StatementNode {
    Return(ExprNode),
}

impl StatementNode {
    /// Parses a `return` statement at the parser's cursor.
    pub fn parse(parser: &mut Parser) -> (r: Result<StatementNode, ParseError>)
        ensures
            final(parser).tokens() == old(parser).tokens(),
            statement_outcome(r) == return_statement_at(
                old(parser).tokens(),
                old(parser).cursor(),
            ).node,
            final(parser).cursor() == old(parser).cursor() + return_statement_at(
                old(parser).tokens(),
                old(parser).cursor(),
            ).consumed,
    {
        parser.parse_return_statement()
    }
}

/// A function definition: its name and its one statement.
#[derive(Debug, PartialEq, Eq)]
pub struct FunctionDefinition {
    identifier: String,
    body: StatementNode,
}

/// A function definition as a mathematical value: the name is a sequence of
/// characters.
pub struct FunctionDefinitionView {
    pub identifier: Seq<char>,
    pub body: StatementNode,
}

impl View for FunctionDefinition {
    type V = FunctionDefinitionView;

    closed spec fn view(&self) -> FunctionDefinitionView {
        FunctionDefinitionView { identifier: self.identifier@, body: self.body }
    }
}

impl FunctionDefinition {
    /// Parses a function definition at the parser's cursor.
    pub fn parse(parser: &mut Parser) -> (r: Result<FunctionDefinition, ParseError>)
        ensures
            final(parser).tokens() == old(parser).tokens(),
            function_outcome(r) == function_definition_at(
                old(parser).tokens(),
                old(parser).cursor(),
            ).node,
            final(parser).cursor() == old(parser).cursor() + function_definition_at(
                old(parser).tokens(),
                old(parser).cursor(),
            ).consumed,
    {
        parser.parse_function_definition()
    }

    /// The function named `identifier` with the statement `body`.
    pub fn new(identifier: String, body: StatementNode) -> (function: Self)
        ensures
            function@ == (FunctionDefinitionView { identifier: identifier@, body }),
    {
        FunctionDefinition { identifier, body }
    }

    /// The function's name.
    pub fn identifier(&self) -> (name: &String)
        ensures
            name@ == self@.identifier,
    {
        &self.identifier
    }

    /// The function's statement.
    pub fn body(&self) -> (body: &StatementNode)
        ensures
            *body == self@.body,
    {
        &self.body
    }
}

/// A program: its function `main`. No parsing entry point builds one yet.
#[derive(Debug, PartialEq, Eq)]
pub struct ProgramNode {
    function_main: FunctionDefinition,
}

} // verus!
