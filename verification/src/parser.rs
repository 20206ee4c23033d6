//! The parser: a cursor over a token sequence, and recursive descent with
//! precedence climbing for expressions.

use crate::ast::{
    BinaryOperator, ExprNode, FactorNode, FunctionDefinition, FunctionDefinitionView,
    StatementNode, UnaryOperator,
};
use crate::grammar::{
    binary_operator, climb, expect_at, expr_at, factor_at, function_definition_at,
    function_head, function_tail, identifier_at, lemma_expect_all_step, return_statement_at,
    Parsed,
};
use crate::lexer::{views, Token, TokenView};
use crate::scan::remaining;
use vstd::prelude::*;

verus! {

/// A kind of token that the grammar asks for by name.
#[derive(Debug, Clone, Copy, PartialEq, Eq, Structural)]
pub enum Terminal {
    Int,
    Identifier,
    OpenParen,
    Void,
    CloseParen,
    OpenBrace,
    Return,
    Semicolon,
    CloseBrace,
}

impl Terminal {
    /// Whether `token` is of this kind. Any identifier is of the kind
    /// `Identifier`, whatever its name.
    pub open spec fn matches(self, token: TokenView) -> bool {
        match self {
            Terminal::Int => token is Int,
            Terminal::Identifier => token is Identifier,
            Terminal::OpenParen => token is OpenParen,
            Terminal::Void => token is Void,
            Terminal::CloseParen => token is CloseParen,
            Terminal::OpenBrace => token is OpenBrace,
            Terminal::Return => token is Return,
            Terminal::Semicolon => token is Semicolon,
            Terminal::CloseBrace => token is CloseBrace,
        }
    }

    /// Whether `token` is of this kind.
    pub fn admits(&self, token: &Token) -> (b: bool)
        ensures
            b == self.matches(token@),
    {
        match (self, token) {
            (Terminal::Int, Token::Int) => true,
            (Terminal::Identifier, Token::Identifier(_)) => true,
            (Terminal::OpenParen, Token::OpenParen) => true,
            (Terminal::Void, Token::Void) => true,
            (Terminal::CloseParen, Token::CloseParen) => true,
            (Terminal::OpenBrace, Token::OpenBrace) => true,
            (Terminal::Return, Token::Return) => true,
            (Terminal::Semicolon, Token::Semicolon) => true,
            (Terminal::CloseBrace, Token::CloseBrace) => true,
            _ => false,
        }
    }

    /// The name under which messages speak of the terminal.
    pub open spec fn name(self) -> Seq<char> {
        match self {
            Terminal::Identifier => "Identifier"@,
            Terminal::Int => "Token::Int"@,
            Terminal::OpenParen => "Token::OpenParen"@,
            Terminal::Void => "Token::Void"@,
            Terminal::CloseParen => "Token::CloseParen"@,
            Terminal::OpenBrace => "Token::OpenBrace"@,
            Terminal::Return => "Token::Return"@,
            Terminal::Semicolon => "Token::Semicolon"@,
            Terminal::CloseBrace => "Token::CloseBrace"@,
        }
    }

    /// The name under which messages speak of the terminal.
    pub fn describe(&self) -> (name: &'static str)
        ensures
            name@ == self.name(),
    {
        match self {
            Terminal::Identifier => "Identifier",
            Terminal::Int => "Token::Int",
            Terminal::OpenParen => "Token::OpenParen",
            Terminal::Void => "Token::Void",
            Terminal::CloseParen => "Token::CloseParen",
            Terminal::OpenBrace => "Token::OpenBrace",
            Terminal::Return => "Token::Return",
            Terminal::Semicolon => "Token::Semicolon",
            Terminal::CloseBrace => "Token::CloseBrace",
        }
    }
}

/// Why the parser could not go on.
#[derive(Debug, PartialEq, Eq)]
pub enum ParseError {
    /// A token was needed at or past the end of the token sequence.
    OutOfBounds,
    /// The cursor was to move past the end of the token sequence.
    UnexpectedEnd,
    /// The grammar asks for `expected` where `found` stands.
    UnexpectedToken { expected: Terminal, found: Token },
    /// An operand was needed where `found` stands, which can start none.
    ExpectedExpression { found: Token },
}

/// A parse error as a mathematical value.
pub enum ParseErrorView {
    OutOfBounds,
    UnexpectedEnd,
    UnexpectedToken { expected: Terminal, found: TokenView },
    ExpectedExpression { found: TokenView },
}

impl View for ParseError {
    type V = ParseErrorView;

    open spec fn view(&self) -> ParseErrorView {
        match *self {
            ParseError::OutOfBounds => ParseErrorView::OutOfBounds,
            ParseError::UnexpectedEnd => ParseErrorView::UnexpectedEnd,
            ParseError::UnexpectedToken { expected, found } => ParseErrorView::UnexpectedToken {
                expected,
                found: found@,
            },
            ParseError::ExpectedExpression { found } => ParseErrorView::ExpectedExpression {
                found: found@,
            },
        }
    }
}

impl ParseErrorView {
    /// The text of the error: what was expected and what was found.
    pub open spec fn text(self) -> Seq<char> {
        match self {
            ParseErrorView::OutOfBounds => "tried to read token out of bounds"@,
            ParseErrorView::UnexpectedEnd => "unexpected end of tokens"@,
            ParseErrorView::UnexpectedToken { expected, found } => "expected "@ + expected.name()
                + ", found "@ + found.text(),
            ParseErrorView::ExpectedExpression { found } => "expected an expression, found "@
                + found.text(),
        }
    }
}

impl ParseError {
    /// A description of the error for a reader.
    pub fn message(&self) -> (text: String)
        ensures
            text@ == self@.text(),
    {
        match self {
            ParseError::OutOfBounds => "tried to read token out of bounds".to_owned(),
            ParseError::UnexpectedEnd => "unexpected end of tokens".to_owned(),
            ParseError::UnexpectedToken { expected, found } => "expected ".to_owned().concat(
                expected.describe(),
            ).concat(", found ").concat(found.describe().as_str()),
            ParseError::ExpectedExpression { found } => "expected an expression, found ".to_owned(
            ).concat(found.describe().as_str()),
        }
    }
}

/// The outcome of parsing an expression as a mathematical value.
pub open spec fn expr_outcome(r: Result<Box<ExprNode>, ParseError>) -> Result<
    ExprNode,
    ParseErrorView,
> {
    match r {
        Ok(expr) => Ok(*expr),
        Err(e) => Err(e@),
    }
}

/// The outcome of parsing an operand as a mathematical value.
pub open spec fn factor_outcome(r: Result<FactorNode, ParseError>) -> Result<
    FactorNode,
    ParseErrorView,
> {
    match r {
        Ok(factor) => Ok(factor),
        Err(e) => Err(e@),
    }
}

/// The outcome of parsing a statement as a mathematical value.
pub open spec fn statement_outcome(r: Result<StatementNode, ParseError>) -> Result<
    StatementNode,
    ParseErrorView,
> {
    match r {
        Ok(statement) => Ok(statement),
        Err(e) => Err(e@),
    }
}

/// The outcome of parsing a function definition as a mathematical value.
pub open spec fn function_outcome(r: Result<FunctionDefinition, ParseError>) -> Result<
    FunctionDefinitionView,
    ParseErrorView,
> {
    match r {
        Ok(function) => Ok(function@),
        Err(e) => Err(e@),
    }
}

/// The outcome of a step that yields no node as a mathematical value.
pub open spec fn unit_outcome(r: Result<(), ParseError>) -> Result<(), ParseErrorView> {
    match r {
        Ok(_) => Ok(()),
        Err(e) => Err(e@),
    }
}

/// The outcome of reading a name as a mathematical value.
pub open spec fn name_outcome(r: Result<String, ParseError>) -> Result<Seq<char>, ParseErrorView> {
    match r {
        Ok(name) => Ok(name@),
        Err(e) => Err(e@),
    }
}

/// The token at index `n`, or the error of reading past the end.
pub open spec fn token_or_end(tokens: Seq<TokenView>, n: nat) -> Result<
    TokenView,
    ParseErrorView,
> {
    if n < tokens.len() {
        Ok(tokens[n as int])
    } else {
        Err(ParseErrorView::OutOfBounds)
    }
}

/// The outcome of reading a token as a mathematical value.
pub open spec fn token_outcome(r: Result<&Token, ParseError>) -> Result<TokenView, ParseErrorView> {
    match r {
        Ok(token) => Ok(token@),
        Err(e) => Err(e@),
    }
}

impl Token {
    /// The binary operator that the token denotes, if any.
    pub fn is_binary_operator(&self) -> (op: Option<BinaryOperator>)
        ensures
            op == binary_operator(self@),
    {
        match self {
            Token::Plus => Some(BinaryOperator::Add),
            Token::Hyphen => Some(BinaryOperator::Subtract),
            Token::Asterisk => Some(BinaryOperator::Multiply),
            Token::Percent => Some(BinaryOperator::Mod),
            Token::Backslash => Some(BinaryOperator::Divide),
            _ => None,
        }
    }
}

/// A cursor over a token sequence. The end of the sequence is the end of the
/// input: no token marks it.
pub struct Parser {
    tokens: Vec<Token>,
    pos: usize,
}

impl Parser {
    /// The tokens.
    pub closed spec fn tokens(&self) -> Seq<TokenView> {
        views(self.tokens@)
    }

    /// The index of the token under the cursor.
    pub closed spec fn cursor(&self) -> nat {
        self.pos as nat
    }

    /// A parser at the start of `tokens`.
    pub fn new(tokens: Vec<Token>) -> (parser: Self)
        ensures
            parser.tokens() == views(tokens@),
            parser.cursor() == 0,
    {
        Parser { tokens, pos: 0 }
    }

    /// The index of the token under the cursor.
    pub fn position(&self) -> (pos: usize)
        ensures
            pos == self.cursor(),
    {
        self.pos
    }

    /// The token at index `n`.
    fn nth_tok(&self, n: usize) -> (r: Result<&Token, ParseError>)
        ensures
            token_outcome(r) == token_or_end(self.tokens(), n as nat),
            self.tokens().len() <= usize::MAX,
    {
        if n < self.tokens.len() {
            Ok(&self.tokens[n])
        } else {
            Err(ParseError::OutOfBounds)
        }
    }

    /// The token under the cursor.
    pub fn curr_tok(&self) -> (r: Result<&Token, ParseError>)
        ensures
            token_outcome(r) == token_or_end(self.tokens(), self.cursor()),
            self.tokens().len() <= usize::MAX,
    {
        self.nth_tok(self.pos)
    }

    /// The token after the one under the cursor.
    pub fn peek_tok(&self) -> (r: Result<&Token, ParseError>)
        ensures
            token_outcome(r) == token_or_end(self.tokens(), self.cursor() + 1),
    {
        if self.pos == usize::MAX {
            // The length is a `usize`: no token stands after this index.
            let len = self.tokens.len();
            return Err(ParseError::OutOfBounds);
        }
        self.nth_tok(self.pos + 1)
    }

    /// Moves the cursor to the next token. At the end of the tokens the
    /// cursor stays and the error is `UnexpectedEnd`.
    pub fn advance(&mut self) -> (r: Result<(), ParseError>)
        ensures
            final(self).tokens() == old(self).tokens(),
            old(self).cursor() < old(self).tokens().len() ==> r is Ok && final(self).cursor()
                == old(self).cursor() + 1,
            old(self).cursor() >= old(self).tokens().len() ==> r == Err::<(), ParseError>(
                ParseError::UnexpectedEnd,
            ) && final(self).cursor() == old(self).cursor(),
    {
        if self.pos < self.tokens.len() {
            self.pos += 1;
            Ok(())
        } else {
            Err(ParseError::UnexpectedEnd)
        }
    }

    /// Consumes the token under the cursor if it is of the kind `terminal`.
    /// Otherwise the cursor stays on the token.
    pub fn expect(&mut self, terminal: Terminal) -> (r: Result<(), ParseError>)
        ensures
            final(self).tokens() == old(self).tokens(),
            unit_outcome(r) == expect_at(old(self).tokens(), old(self).cursor(), terminal).node,
            final(self).cursor() == old(self).cursor() + expect_at(
                old(self).tokens(),
                old(self).cursor(),
                terminal,
            ).consumed,
    {
        let token = match self.curr_tok() {
            Ok(token) => token,
            Err(e) => {
                return Err(e);
            },
        };
        if terminal.admits(token) {
            self.advance()
        } else {
            Err(ParseError::UnexpectedToken { expected: terminal, found: token.clone() })
        }
    }

    /// Consumes the identifier under the cursor and returns its name.
    /// Otherwise the cursor stays on the token.
    pub fn consume_ident(&mut self) -> (r: Result<String, ParseError>)
        ensures
            final(self).tokens() == old(self).tokens(),
            name_outcome(r) == identifier_at(old(self).tokens(), old(self).cursor()).node,
            final(self).cursor() == old(self).cursor() + identifier_at(
                old(self).tokens(),
                old(self).cursor(),
            ).consumed,
    {
        let token = match self.curr_tok() {
            Ok(token) => token,
            Err(e) => {
                return Err(e);
            },
        };
        match token {
            Token::Identifier(name) => {
                let name = name.clone();
                match self.advance() {
                    Ok(_) => Ok(name),
                    Err(e) => Err(e),
                }
            },
            _ => Err(
                ParseError::UnexpectedToken { expected: Terminal::Identifier, found: token.clone() },
            ),
        }
    }

    /// Parses an expression whose binary operators all have the rank
    /// `min_prec` or more. On an error the cursor is on the offending token.
    pub fn parse_expr(&mut self, min_prec: i32) -> (r: Result<Box<ExprNode>, ParseError>)
        ensures
            final(self).tokens() == old(self).tokens(),
            expr_outcome(r) == expr_at(old(self).tokens(), old(self).cursor(), min_prec as int).node,
            final(self).cursor() == old(self).cursor() + expr_at(
                old(self).tokens(),
                old(self).cursor(),
                min_prec as int,
            ).consumed,
        decreases remaining(old(self).tokens().len(), old(self).cursor()), 2nat,
    {
        let ghost tokens = self.tokens();
        let mut left: Box<ExprNode> = match self.parse_factor() {
            Ok(factor) => factor.into_expr(),
            Err(e) => {
                return Err(e);
            },
        };
        let ghost start = self.cursor();
        let ghost first = *left;
        let mut failure: Option<ParseError> = None;
        let mut more = true;
        while more
            invariant
                self.tokens() == tokens,
                tokens == old(self).tokens(),
                old(self).cursor() <= start <= self.cursor(),
                more ==> failure is None && climb(tokens, start, min_prec as int, first) == climb(
                    tokens,
                    self.cursor(),
                    min_prec as int,
                    *left,
                ).after((self.cursor() - start) as nat),
                !more ==> climb(tokens, start, min_prec as int, first) == (Parsed {
                    node: match failure {
                        None => Ok(*left),
                        Some(e) => Err(e@),
                    },
                    consumed: (self.cursor() - start) as nat,
                }),
            decreases remaining(tokens.len(), self.cursor()) + (if more { 1int } else { 0int }),
        {
            let next = match self.curr_tok() {
                Ok(token) => token.is_binary_operator(),
                Err(_) => None,
            };
            match next {
                Some(binary_op) => {
                    if binary_op.precedence() >= min_prec {
                        let right = match self.advance() {
                            Ok(_) => self.parse_expr(binary_op.precedence() + 1),
                            Err(e) => Err(e),
                        };
                        match right {
                            Ok(right) => {
                                left = Box::new(
                                    ExprNode::Binary { binary_op, lhs: left, rhs: right },
                                );
                            },
                            Err(e) => {
                                failure = Some(e);
                                more = false;
                            },
                        }
                    } else {
                        more = false;
                    }
                },
                None => {
                    more = false;
                },
            }
        }
        match failure {
            None => Ok(left),
            Some(e) => Err(e),
        }
    }

    /// Parses an operand: an integer literal, a unary operator with the one
    /// operand after it, or an expression in parentheses. On an error the
    /// cursor is on the offending token.
    pub fn parse_factor(&mut self) -> (r: Result<FactorNode, ParseError>)
        ensures
            final(self).tokens() == old(self).tokens(),
            factor_outcome(r) == factor_at(old(self).tokens(), old(self).cursor()).node,
            final(self).cursor() == old(self).cursor() + factor_at(
                old(self).tokens(),
                old(self).cursor(),
            ).consumed,
        decreases remaining(old(self).tokens().len(), old(self).cursor()), 0nat,
    {
        let token = match self.curr_tok() {
            Ok(token) => token,
            Err(e) => {
                return Err(e);
            },
        };
        match token {
            Token::Integer(value) => {
                let value = *value;
                match self.advance() {
                    Ok(_) => Ok(FactorNode::Integer(value)),
                    Err(e) => Err(e),
                }
            },
            Token::Hyphen | Token::Tilde => {
                let unary_op = match token {
                    Token::Hyphen => UnaryOperator::Negate,
                    _ => UnaryOperator::Complement,
                };
                match self.advance() {
                    Ok(_) => {},
                    Err(e) => {
                        return Err(e);
                    },
                }
                match self.parse_factor() {
                    Ok(operand) => Ok(FactorNode::Unary { unary_op, expr: operand.into_expr() }),
                    Err(e) => Err(e),
                }
            },
            Token::OpenParen => {
                match self.advance() {
                    Ok(_) => {},
                    Err(e) => {
                        return Err(e);
                    },
                }
                let expr = match self.parse_expr(0) {
                    Ok(expr) => expr,
                    Err(e) => {
                        return Err(e);
                    },
                };
                match self.expect(Terminal::CloseParen) {
                    Ok(_) => Ok(FactorNode::Expr(expr)),
                    Err(e) => Err(e),
                }
            },
            _ => Err(ParseError::ExpectedExpression { found: token.clone() }),
        }
    }

    /// Parses a `return` statement. On an error the cursor is on the
    /// offending token.
    pub fn parse_return_statement(&mut self) -> (r: Result<StatementNode, ParseError>)
        ensures
            final(self).tokens() == old(self).tokens(),
            statement_outcome(r) == return_statement_at(old(self).tokens(), old(self).cursor()).node,
            final(self).cursor() == old(self).cursor() + return_statement_at(
                old(self).tokens(),
                old(self).cursor(),
            ).consumed,
    {
        match self.expect(Terminal::Return) {
            Ok(_) => {},
            Err(e) => {
                return Err(e);
            },
        }
        match self.parse_expr(0) {
            Ok(expr) => Ok(StatementNode::Return(*expr)),
            Err(e) => Err(e),
        }
    }

    /// Parses one function definition. The first token that the grammar
    /// does not allow ends the parse with an error, the cursor on that
    /// token.
    pub fn parse_function_definition(&mut self) -> (r: Result<FunctionDefinition, ParseError>)
        ensures
            final(self).tokens() == old(self).tokens(),
            function_outcome(r) == function_definition_at(
                old(self).tokens(),
                old(self).cursor(),
            ).node,
            final(self).cursor() == old(self).cursor() + function_definition_at(
                old(self).tokens(),
                old(self).cursor(),
            ).consumed,
    {
        let ghost tokens = self.tokens();
        let ghost start = self.cursor();
        let ghost head = function_head();
        let ghost tail = function_tail();
        proof {
            lemma_expect_all_step(tokens, start, head, 0);
            lemma_expect_all_step(tokens, start + 1, head, 1);
            lemma_expect_all_step(tokens, start + 2, head, 2);
            lemma_expect_all_step(tokens, start + 3, head, 3);
            lemma_expect_all_step(tokens, start + 4, head, 4);
            lemma_expect_all_step(tokens, start + 5, head, 5);
        }
        match self.expect(Terminal::Int) {
            Ok(_) => {},
            Err(e) => {
                return Err(e);
            },
        }
        let name = match self.consume_ident() {
            Ok(name) => name,
            Err(e) => {
                return Err(e);
            },
        };
        match self.expect(Terminal::OpenParen) {
            Ok(_) => {},
            Err(e) => {
                return Err(e);
            },
        }
        match self.expect(Terminal::Void) {
            Ok(_) => {},
            Err(e) => {
                return Err(e);
            },
        }
        match self.expect(Terminal::CloseParen) {
            Ok(_) => {},
            Err(e) => {
                return Err(e);
            },
        }
        match self.expect(Terminal::OpenBrace) {
            Ok(_) => {},
            Err(e) => {
                return Err(e);
            },
        }
        let return_statement = match self.parse_return_statement() {
            Ok(statement) => statement,
            Err(e) => {
                return Err(e);
            },
        };
        proof {
            lemma_expect_all_step(tokens, self.cursor(), tail, 0);
            lemma_expect_all_step(tokens, self.cursor() + 1, tail, 1);
        }
        match self.expect(Terminal::Semicolon) {
            Ok(_) => {},
            Err(e) => {
                return Err(e);
            },
        }
        match self.expect(Terminal::CloseBrace) {
            Ok(_) => {},
            Err(e) => {
                return Err(e);
            },
        }
        Ok(FunctionDefinition::new(name, return_statement))
    }
}

} // verus!
