use rustcc::ast::{
    BinaryOperator, ExprNode, FactorNode, FunctionDefinition, StatementNode, UnaryOperator,
};
use rustcc::lexer::{Lexer, Token};
use rustcc::parser::{ParseError, Parser, Terminal};

fn parser(source: &str) -> Parser {
    Parser::new(Lexer::new(source.to_string()).tokenize().unwrap())
}

fn expr(source: &str) -> Result<ExprNode, ParseError> {
    parser(source).parse_expr(0).map(|e| *e)
}

fn lit(value: i32) -> ExprNode {
    ExprNode::Integer(value)
}

fn binary(binary_op: BinaryOperator, lhs: ExprNode, rhs: ExprNode) -> ExprNode {
    ExprNode::Binary { binary_op, lhs: Box::new(lhs), rhs: Box::new(rhs) }
}

fn unary(unary_op: UnaryOperator, expr: ExprNode) -> ExprNode {
    ExprNode::Unary { unary_op, expr: Box::new(expr) }
}

#[test]
fn multiplication_binds_tighter_than_addition() {
    assert_eq!(
        expr("1+2*3"),
        Ok(binary(
            BinaryOperator::Add,
            lit(1),
            binary(BinaryOperator::Multiply, lit(2), lit(3))
        ))
    );
    assert_eq!(
        expr("1*2+3"),
        Ok(binary(
            BinaryOperator::Add,
            binary(BinaryOperator::Multiply, lit(1), lit(2)),
            lit(3)
        ))
    );
}

#[test]
fn subtraction_groups_to_the_left() {
    assert_eq!(
        expr("1-2-3"),
        Ok(binary(
            BinaryOperator::Subtract,
            binary(BinaryOperator::Subtract, lit(1), lit(2)),
            lit(3)
        ))
    );
}

#[test]
fn operators_of_one_rank_group_to_the_left() {
    assert_eq!(
        expr("8/4%3*2"),
        Ok(binary(
            BinaryOperator::Multiply,
            binary(
                BinaryOperator::Mod,
                binary(BinaryOperator::Divide, lit(8), lit(4)),
                lit(3)
            ),
            lit(2)
        ))
    );
}

#[test]
fn parentheses_override_precedence() {
    assert_eq!(
        expr("(1+2)*3"),
        Ok(binary(
            BinaryOperator::Multiply,
            binary(BinaryOperator::Add, lit(1), lit(2)),
            lit(3)
        ))
    );
    assert_eq!(expr("((7))"), Ok(lit(7)));
}

#[test]
fn a_unary_operator_binds_tighter_than_a_binary_one() {
    assert_eq!(
        expr("-1+2"),
        Ok(binary(BinaryOperator::Add, unary(UnaryOperator::Negate, lit(1)), lit(2)))
    );
    assert_ne!(
        expr("-1+2"),
        Ok(unary(UnaryOperator::Negate, binary(BinaryOperator::Add, lit(1), lit(2))))
    );
    assert_eq!(
        expr("~1*2"),
        Ok(binary(BinaryOperator::Multiply, unary(UnaryOperator::Complement, lit(1)), lit(2)))
    );
    assert_eq!(
        expr("2*-3+4"),
        Ok(binary(
            BinaryOperator::Add,
            binary(BinaryOperator::Multiply, lit(2), unary(UnaryOperator::Negate, lit(3))),
            lit(4)
        ))
    );
    assert_eq!(
        expr("1 - -2"),
        Ok(binary(BinaryOperator::Subtract, lit(1), unary(UnaryOperator::Negate, lit(2))))
    );
}

#[test]
fn a_unary_operator_takes_one_operand() {
    let mut p = parser("-1+2");
    assert_eq!(
        p.parse_factor(),
        Ok(FactorNode::Unary { unary_op: UnaryOperator::Negate, expr: Box::new(lit(1)) })
    );
    assert_eq!(p.position(), 2);
    assert_eq!(p.curr_tok(), Ok(&Token::Plus));
    assert_eq!(expr("-1"), Ok(unary(UnaryOperator::Negate, lit(1))));
    assert_eq!(
        expr("~-3"),
        Ok(unary(UnaryOperator::Complement, unary(UnaryOperator::Negate, lit(3))))
    );
    assert_eq!(
        expr("-~2"),
        Ok(unary(UnaryOperator::Negate, unary(UnaryOperator::Complement, lit(2))))
    );
}

#[test]
fn a_parenthesized_operand_of_a_unary_operator() {
    assert_eq!(
        expr("(-1)+2"),
        Ok(binary(BinaryOperator::Add, unary(UnaryOperator::Negate, lit(1)), lit(2)))
    );
    assert_eq!(
        expr("-(1)+2"),
        Ok(binary(BinaryOperator::Add, unary(UnaryOperator::Negate, lit(1)), lit(2)))
    );
    assert_eq!(
        expr("-(1+2)"),
        Ok(unary(UnaryOperator::Negate, binary(BinaryOperator::Add, lit(1), lit(2))))
    );
}

#[test]
fn a_unary_operator_without_an_operand_is_an_error() {
    let mut p = parser("-;");
    assert_eq!(
        p.parse_expr(0),
        Err(ParseError::ExpectedExpression { found: Token::Semicolon })
    );
    assert_eq!(p.position(), 1);
    let mut p = parser("~");
    assert_eq!(p.parse_factor(), Err(ParseError::OutOfBounds));
    assert_eq!(p.position(), 1);
    let mut p = parser("-*2");
    assert_eq!(
        p.parse_factor(),
        Err(ParseError::ExpectedExpression { found: Token::Asterisk })
    );
    assert_eq!(p.position(), 1);
}

#[test]
fn parses_a_function_definition() {
    let mut p = parser("int main(void){return 2;}");
    assert_eq!(
        p.parse_function_definition(),
        Ok(FunctionDefinition::new(
            "main".to_string(),
            StatementNode::Return(ExprNode::Integer(2))
        ))
    );
    assert_eq!(p.position(), 10);
}

#[test]
fn function_definition_accessors() {
    let f = parser("int answer ( void ) { return 6 * 7 ; }").parse_function_definition().unwrap();
    assert_eq!(f.identifier(), "answer");
    assert_eq!(
        *f.body(),
        StatementNode::Return(binary(BinaryOperator::Multiply, lit(6), lit(7)))
    );
}

#[test]
fn a_missing_expression_is_an_error() {
    let mut p = parser("int main(void){return;}");
    assert_eq!(
        p.parse_function_definition(),
        Err(ParseError::ExpectedExpression { found: Token::Semicolon })
    );
    assert_eq!(p.position(), 7);
}

#[test]
fn a_missing_brace_is_an_error_and_the_cursor_stays() {
    let mut p = parser("int main(void) return 2; }");
    assert_eq!(
        p.parse_function_definition(),
        Err(ParseError::UnexpectedToken { expected: Terminal::OpenBrace, found: Token::Return })
    );
    assert_eq!(p.position(), 5);
    assert_eq!(p.curr_tok(), Ok(&Token::Return));
}

#[test]
fn each_terminal_of_the_function_definition_is_required() {
    let cases = [
        ("main(void){return 2;}", Terminal::Int, 0),
        ("int (void){return 2;}", Terminal::Identifier, 1),
        ("int main void){return 2;}", Terminal::OpenParen, 2),
        ("int main(){return 2;}", Terminal::Void, 3),
        ("int main(void{return 2;}", Terminal::CloseParen, 4),
        ("int main(void)return 2;}", Terminal::OpenBrace, 5),
        ("int main(void){2;}", Terminal::Return, 6),
        ("int main(void){return 2}", Terminal::Semicolon, 8),
        ("int main(void){return 2;;", Terminal::CloseBrace, 9),
    ];
    for (source, expected, at) in cases {
        let mut p = parser(source);
        match p.parse_function_definition() {
            Err(ParseError::UnexpectedToken { expected: e, found }) => {
                assert_eq!(e, expected);
                assert_eq!(p.curr_tok(), Ok(&found));
            }
            other => panic!("{:?}", other),
        }
        assert_eq!(p.position(), at);
    }
}

#[test]
fn the_end_of_the_tokens_is_the_end_of_the_input() {
    let sources = [
        "",
        "int",
        "int main",
        "int main(",
        "int main(void",
        "int main(void)",
        "int main(void){",
        "int main(void){return",
        "int main(void){return 2",
        "int main(void){return 2;",
        "int main(void){return 2+",
        "int main(void){return (2",
    ];
    for source in sources {
        let mut p = parser(source);
        let len = Lexer::new(source.to_string()).tokenize().unwrap().len();
        assert_eq!(p.parse_function_definition(), Err(ParseError::OutOfBounds));
        assert_eq!(p.position(), len);
    }
}

#[test]
fn tokens_after_the_definition_are_left() {
    let mut p = parser("int main(void){return 2;} int");
    assert!(p.parse_function_definition().is_ok());
    assert_eq!(p.position(), 10);
    assert_eq!(p.curr_tok(), Ok(&Token::Int));
}

#[test]
fn a_doubled_operator_is_an_error() {
    let mut p = parser("1 + * 2");
    assert_eq!(
        p.parse_expr(0),
        Err(ParseError::ExpectedExpression { found: Token::Asterisk })
    );
    assert_eq!(p.position(), 2);
}

#[test]
fn an_unclosed_parenthesis_is_an_error() {
    let mut p = parser("(1+2;");
    assert_eq!(
        p.parse_expr(0),
        Err(ParseError::UnexpectedToken { expected: Terminal::CloseParen, found: Token::Semicolon })
    );
    assert_eq!(p.position(), 4);
}

#[test]
fn division_by_a_literal_zero_is_accepted() {
    assert_eq!(expr("1/0"), Ok(binary(BinaryOperator::Divide, lit(1), lit(0))));
    assert_eq!(expr("1%0"), Ok(binary(BinaryOperator::Mod, lit(1), lit(0))));
}

#[test]
fn an_expression_ends_before_a_token_that_is_no_binary_operator() {
    let mut p = parser("1+2 == 3");
    assert_eq!(p.parse_expr(0).map(|e| *e), Ok(binary(BinaryOperator::Add, lit(1), lit(2))));
    assert_eq!(p.position(), 3);
    assert_eq!(p.curr_tok(), Ok(&Token::EqualEqual));
    assert_eq!(p.peek_tok(), Ok(&Token::Integer(3)));
}

#[test]
fn the_minimum_rank_bounds_the_operators() {
    let mut p = parser("1*2+3");
    assert_eq!(
        p.parse_expr(10).map(|e| *e),
        Ok(binary(BinaryOperator::Multiply, lit(1), lit(2)))
    );
    assert_eq!(p.position(), 3);
    let mut p = parser("1*2+3");
    assert_eq!(p.parse_expr(11).map(|e| *e), Ok(lit(1)));
    assert_eq!(p.position(), 1);
    let mut p = parser("1*2+3");
    assert_eq!(
        p.parse_expr(i32::MIN).map(|e| *e),
        Ok(binary(
            BinaryOperator::Add,
            binary(BinaryOperator::Multiply, lit(1), lit(2)),
            lit(3)
        ))
    );
}

#[test]
fn parse_factor_reads_one_operand() {
    let mut p = parser("5+6");
    assert_eq!(p.parse_factor(), Ok(FactorNode::Integer(5)));
    assert_eq!(p.position(), 1);
    let mut p = parser("(5+6)*2");
    assert_eq!(
        p.parse_factor(),
        Ok(FactorNode::Expr(Box::new(binary(BinaryOperator::Add, lit(5), lit(6)))))
    );
    assert_eq!(p.position(), 5);
    let mut p = parser("~5");
    assert_eq!(
        p.parse_factor(),
        Ok(FactorNode::Unary { unary_op: UnaryOperator::Complement, expr: Box::new(lit(5)) })
    );
    let mut p = parser("!5");
    assert_eq!(
        p.parse_factor(),
        Err(ParseError::ExpectedExpression { found: Token::Exclamation })
    );
    assert_eq!(p.position(), 0);
}

#[test]
fn the_parse_functions_of_the_nodes() {
    let mut p = parser("1+2");
    assert_eq!(
        ExprNode::parse(&mut p).map(|e| *e),
        Ok(binary(BinaryOperator::Add, lit(1), lit(2)))
    );
    let mut p = parser("1+2");
    assert_eq!(FactorNode::parse(&mut p), Ok(FactorNode::Integer(1)));
    let mut p = parser("return 1+2");
    assert_eq!(
        StatementNode::parse(&mut p),
        Ok(StatementNode::Return(binary(BinaryOperator::Add, lit(1), lit(2))))
    );
    let mut p = parser("int f(void){return 0;}");
    assert_eq!(
        FunctionDefinition::parse(&mut p),
        Ok(FunctionDefinition::new("f".to_string(), StatementNode::Return(lit(0))))
    );
}

#[test]
fn parse_return_statement_needs_the_keyword() {
    let mut p = parser("1+2");
    assert_eq!(
        p.parse_return_statement(),
        Err(ParseError::UnexpectedToken { expected: Terminal::Return, found: Token::Integer(1) })
    );
    assert_eq!(p.position(), 0);
}

#[test]
fn precedence_ranks() {
    assert_eq!(BinaryOperator::Multiply.precedence(), 10);
    assert_eq!(BinaryOperator::Divide.precedence(), 10);
    assert_eq!(BinaryOperator::Mod.precedence(), 10);
    assert_eq!(BinaryOperator::Add.precedence(), 9);
    assert_eq!(BinaryOperator::Subtract.precedence(), 9);
    assert_eq!(BinaryOperator::LessThan.precedence(), 8);
    assert_eq!(BinaryOperator::LessThanEqual.precedence(), 8);
    assert_eq!(BinaryOperator::GreaterThan.precedence(), 8);
    assert_eq!(BinaryOperator::GreaterThanEqual.precedence(), 8);
    assert_eq!(BinaryOperator::Equal.precedence(), 7);
    assert_eq!(BinaryOperator::NotEqual.precedence(), 7);
    assert_eq!(BinaryOperator::And.precedence(), 6);
    assert_eq!(BinaryOperator::Or.precedence(), 5);
}

#[test]
fn binary_operator_tokens() {
    assert_eq!(Token::Plus.is_binary_operator(), Some(BinaryOperator::Add));
    assert_eq!(Token::Hyphen.is_binary_operator(), Some(BinaryOperator::Subtract));
    assert_eq!(Token::Asterisk.is_binary_operator(), Some(BinaryOperator::Multiply));
    assert_eq!(Token::Percent.is_binary_operator(), Some(BinaryOperator::Mod));
    assert_eq!(Token::Backslash.is_binary_operator(), Some(BinaryOperator::Divide));
    assert_eq!(Token::Tilde.is_binary_operator(), None);
    assert_eq!(Token::EqualEqual.is_binary_operator(), None);
    assert_eq!(Token::Integer(1).is_binary_operator(), None);
    assert_eq!(Token::Identifier("x".to_string()).is_binary_operator(), None);
}

#[test]
fn reading_tokens_past_the_end() {
    let p = Parser::new(vec![Token::Int]);
    assert_eq!(p.curr_tok(), Ok(&Token::Int));
    assert_eq!(p.peek_tok(), Err(ParseError::OutOfBounds));
    let p = Parser::new(vec![]);
    assert_eq!(p.curr_tok(), Err(ParseError::OutOfBounds));
    assert_eq!(p.position(), 0);
}

#[test]
fn terminals_admit_their_tokens() {
    assert!(Terminal::Int.admits(&Token::Int));
    assert!(Terminal::Identifier.admits(&Token::Identifier("x".to_string())));
    assert!(Terminal::Identifier.admits(&Token::Identifier(String::new())));
    assert!(!Terminal::Identifier.admits(&Token::Int));
    assert!(!Terminal::Int.admits(&Token::Integer(0)));
    assert!(Terminal::CloseBrace.admits(&Token::CloseBrace));
    assert!(!Terminal::CloseBrace.admits(&Token::OpenBrace));
}

#[test]
fn parse_error_messages() {
    assert_eq!(ParseError::OutOfBounds.message(), "tried to read token out of bounds");
    assert_eq!(ParseError::UnexpectedEnd.message(), "unexpected end of tokens");
    assert_eq!(
        ParseError::UnexpectedToken { expected: Terminal::OpenBrace, found: Token::Return }
            .message(),
        "expected Token::OpenBrace, found Return"
    );
    assert_eq!(
        ParseError::UnexpectedToken {
            expected: Terminal::Identifier,
            found: Token::Integer(3)
        }
        .message(),
        "expected Identifier, found Integer(3)"
    );
    assert_eq!(
        ParseError::UnexpectedToken {
            expected: Terminal::Int,
            found: Token::Identifier("x".to_string())
        }
        .message(),
        "expected Token::Int, found Identifier(\"x\")"
    );
    assert_eq!(
        ParseError::ExpectedExpression { found: Token::Semicolon }.message(),
        "expected an expression, found Semicolon"
    );
}

#[test]
fn the_message_of_a_failed_parse() {
    let e = parser("int main(void){return;}").parse_function_definition().unwrap_err();
    assert_eq!(e.message(), "expected an expression, found Semicolon");
    let e = parser("int main(void) return 2; }").parse_function_definition().unwrap_err();
    assert_eq!(e.message(), "expected Token::OpenBrace, found Return");
}

#[test]
fn terminal_names() {
    assert_eq!(Terminal::Int.describe(), "Token::Int");
    assert_eq!(Terminal::Identifier.describe(), "Identifier");
    assert_eq!(Terminal::OpenParen.describe(), "Token::OpenParen");
    assert_eq!(Terminal::Void.describe(), "Token::Void");
    assert_eq!(Terminal::CloseParen.describe(), "Token::CloseParen");
    assert_eq!(Terminal::OpenBrace.describe(), "Token::OpenBrace");
    assert_eq!(Terminal::Return.describe(), "Token::Return");
    assert_eq!(Terminal::Semicolon.describe(), "Token::Semicolon");
    assert_eq!(Terminal::CloseBrace.describe(), "Token::CloseBrace");
}

#[test]
fn advance_stops_at_the_end() {
    let mut p = Parser::new(vec![Token::Int, Token::Void]);
    assert_eq!(p.advance(), Ok(()));
    assert_eq!(p.position(), 1);
    assert_eq!(p.advance(), Ok(()));
    assert_eq!(p.position(), 2);
    assert_eq!(p.advance(), Err(ParseError::UnexpectedEnd));
    assert_eq!(p.position(), 2);
    assert_eq!(Parser::new(vec![]).advance(), Err(ParseError::UnexpectedEnd));
}

#[test]
fn expect_moves_on_a_match_only() {
    let mut p = Parser::new(vec![Token::OpenParen, Token::Void]);
    assert_eq!(p.expect(Terminal::OpenParen), Ok(()));
    assert_eq!(p.position(), 1);
    assert_eq!(
        p.expect(Terminal::CloseParen),
        Err(ParseError::UnexpectedToken { expected: Terminal::CloseParen, found: Token::Void })
    );
    assert_eq!(p.position(), 1);
    assert_eq!(p.expect(Terminal::Void), Ok(()));
    assert_eq!(p.expect(Terminal::Void), Err(ParseError::OutOfBounds));
    assert_eq!(p.position(), 2);
}

#[test]
fn consume_ident_gives_the_name() {
    let mut p = Parser::new(vec![Token::Identifier("main".to_string()), Token::Int]);
    assert_eq!(p.consume_ident(), Ok("main".to_string()));
    assert_eq!(p.position(), 1);
    assert_eq!(
        p.consume_ident(),
        Err(ParseError::UnexpectedToken { expected: Terminal::Identifier, found: Token::Int })
    );
    assert_eq!(p.position(), 1);
    assert_eq!(Parser::new(vec![]).consume_ident(), Err(ParseError::OutOfBounds));
}

#[test]
fn a_keyword_is_no_function_name() {
    let mut p = parser("int return(void){return 2;}");
    assert_eq!(
        p.parse_function_definition(),
        Err(ParseError::UnexpectedToken { expected: Terminal::Identifier, found: Token::Return })
    );
    assert_eq!(p.position(), 1);
}

#[test]
fn nested_parentheses_and_unary_operators() {
    assert_eq!(
        expr("~(1+2)*3"),
        Ok(binary(
            BinaryOperator::Multiply,
            unary(UnaryOperator::Complement, binary(BinaryOperator::Add, lit(1), lit(2))),
            lit(3)
        ))
    );
    assert_eq!(
        expr("(1-(2-3))-4"),
        Ok(binary(
            BinaryOperator::Subtract,
            binary(
                BinaryOperator::Subtract,
                lit(1),
                binary(BinaryOperator::Subtract, lit(2), lit(3))
            ),
            lit(4)
        ))
    );
    assert_eq!(
        expr("1-2*3-4"),
        Ok(binary(
            BinaryOperator::Subtract,
            binary(
                BinaryOperator::Subtract,
                lit(1),
                binary(BinaryOperator::Multiply, lit(2), lit(3))
            ),
            lit(4)
        ))
    );
}

#[test]
fn a_decrement_is_no_pair_of_signs() {
    let mut p = parser("--1");
    assert_eq!(
        p.parse_expr(0),
        Err(ParseError::ExpectedExpression { found: Token::Decrement })
    );
    assert_eq!(
        expr("- -1"),
        Ok(unary(UnaryOperator::Negate, unary(UnaryOperator::Negate, lit(1))))
    );
}

#[test]
fn a_long_sum_leans_to_the_left() {
    let mut source = String::from("0");
    let mut expected = lit(0);
    for i in 1..300 {
        source.push_str(" + ");
        source.push_str(&i.to_string());
        expected = binary(BinaryOperator::Add, expected, lit(i));
    }
    assert_eq!(expr(&source), Ok(expected));
}

#[test]
fn deep_parentheses() {
    let depth = 200;
    let source = format!("{}5{}", "(".repeat(depth), ")".repeat(depth));
    let mut p = parser(&source);
    assert_eq!(p.parse_expr(0).map(|e| *e), Ok(lit(5)));
    assert_eq!(p.position(), 2 * depth + 1);
}

#[test]
fn an_operand_as_an_expression() {
    assert_eq!(*FactorNode::Integer(4).into_expr(), lit(4));
    assert_eq!(
        *FactorNode::Unary { unary_op: UnaryOperator::Not, expr: Box::new(lit(0)) }.into_expr(),
        unary(UnaryOperator::Not, lit(0))
    );
    assert_eq!(
        *FactorNode::Expr(Box::new(binary(BinaryOperator::Add, lit(1), lit(2)))).into_expr(),
        binary(BinaryOperator::Add, lit(1), lit(2))
    );
}
