use rustcc::lexer::{is_word_character, keyword_or_identifier, LexError, Lexer, Token};

fn lex(source: &str) -> Result<Vec<Token>, LexError> {
    Lexer::new(source.to_string()).tokenize()
}

fn ident(name: &str) -> Token {
    Token::Identifier(name.to_string())
}

#[test]
fn tokenizes_a_function_definition() {
    let tokens = lex("int main(void){return 2;}").unwrap();
    assert_eq!(tokens.len(), 10);
    assert_eq!(
        tokens,
        vec![
            Token::Int,
            ident("main"),
            Token::OpenParen,
            Token::Void,
            Token::CloseParen,
            Token::OpenBrace,
            Token::Return,
            Token::Integer(2),
            Token::Semicolon,
            Token::CloseBrace,
        ]
    );
}

#[test]
fn double_equal_is_one_token() {
    assert_eq!(lex("==").unwrap(), vec![Token::EqualEqual]);
    assert_ne!(lex("==").unwrap(), vec![Token::Equal, Token::Equal]);
}

#[test]
fn double_hyphen_is_decrement() {
    assert_eq!(lex("--").unwrap(), vec![Token::Decrement]);
    assert_ne!(lex("--").unwrap(), vec![Token::Hyphen, Token::Hyphen]);
}

#[test]
fn every_two_character_operator() {
    assert_eq!(
        lex("== != <= >= && || --").unwrap(),
        vec![
            Token::EqualEqual,
            Token::ExclamationEqual,
            Token::LessThanEqual,
            Token::GreaterThanEqual,
            Token::AmpersandAmpersand,
            Token::BarBar,
            Token::Decrement,
        ]
    );
}

#[test]
fn every_one_character_prefix() {
    assert_eq!(
        lex("= ! < > & | -").unwrap(),
        vec![
            Token::Equal,
            Token::Exclamation,
            Token::LessThan,
            Token::GreaterThan,
            Token::Ampersand,
            Token::Bar,
            Token::Hyphen,
        ]
    );
}

#[test]
fn prefix_at_the_end_of_the_input() {
    assert_eq!(lex("1-").unwrap(), vec![Token::Integer(1), Token::Hyphen]);
    assert_eq!(lex("=").unwrap(), vec![Token::Equal]);
}

#[test]
fn lookahead_takes_one_character_only() {
    assert_eq!(lex("---").unwrap(), vec![Token::Decrement, Token::Hyphen]);
    assert_eq!(lex("===").unwrap(), vec![Token::EqualEqual, Token::Equal]);
    assert_eq!(lex("<==").unwrap(), vec![Token::LessThanEqual, Token::Equal]);
    assert_eq!(lex("!==").unwrap(), vec![Token::ExclamationEqual, Token::Equal]);
    assert_eq!(lex("&|").unwrap(), vec![Token::Ampersand, Token::Bar]);
}

#[test]
fn punctuation_and_operators() {
    assert_eq!(
        lex(";(){}~+*/%").unwrap(),
        vec![
            Token::Semicolon,
            Token::OpenParen,
            Token::CloseParen,
            Token::OpenBrace,
            Token::CloseBrace,
            Token::Tilde,
            Token::Plus,
            Token::Asterisk,
            Token::Backslash,
            Token::Percent,
        ]
    );
}

#[test]
fn white_space_separates_and_is_dropped() {
    assert_eq!(lex("1 2").unwrap(), vec![Token::Integer(1), Token::Integer(2)]);
    assert_eq!(lex("12").unwrap(), vec![Token::Integer(12)]);
    assert_eq!(
        lex(" \t\r\n int \n\n x\u{a0}\u{2003}; ").unwrap(),
        vec![Token::Int, ident("x"), Token::Semicolon]
    );
}

#[test]
fn empty_and_blank_sources_have_no_tokens() {
    assert_eq!(lex("").unwrap(), vec![]);
    assert_eq!(lex("   \n\t ").unwrap(), vec![]);
}

#[test]
fn tokenize_ends_at_the_end_of_the_source() {
    let mut lexer = Lexer::new("return 1 ;  ".to_string());
    assert!(lexer.tokenize().is_ok());
    assert_eq!(lexer.position(), 12);
    assert_eq!(lexer.tokenize().unwrap(), vec![]);
    assert_eq!(lexer.position(), 12);
}

#[test]
fn keywords_and_identifiers() {
    assert_eq!(
        lex("int integer return returned void voids _x a1_B Int").unwrap(),
        vec![
            Token::Int,
            ident("integer"),
            Token::Return,
            ident("returned"),
            Token::Void,
            ident("voids"),
            ident("_x"),
            ident("a1_B"),
            ident("Int"),
        ]
    );
}

#[test]
fn a_numeral_takes_every_digit_that_follows() {
    assert_eq!(lex("123abc").unwrap(), vec![Token::Integer(123), ident("abc")]);
    assert_eq!(lex("abc123").unwrap(), vec![ident("abc123")]);
    assert_eq!(lex("007").unwrap(), vec![Token::Integer(7)]);
    assert_eq!(lex("0").unwrap(), vec![Token::Integer(0)]);
}

#[test]
fn numerals_are_32_bit_signed() {
    assert_eq!(lex("2147483647").unwrap(), vec![Token::Integer(i32::MAX)]);
    assert_eq!(lex("0000000002147483647").unwrap(), vec![Token::Integer(i32::MAX)]);
    assert_eq!(lex("2147483648"), Err(LexError::MalformedNumber));
    assert_eq!(lex("99999999999999999999999999999"), Err(LexError::MalformedNumber));
    assert_eq!(lex("return 4294967296;"), Err(LexError::MalformedNumber));
}

#[test]
fn a_character_that_starts_no_token_is_an_error() {
    assert_eq!(lex("@"), Err(LexError::ExpectedAlphanumeric));
    assert_eq!(lex("int x = #;"), Err(LexError::ExpectedAlphanumeric));
    assert_eq!(lex("caf\u{e9}"), Err(LexError::ExpectedAlphanumeric));
    assert_eq!(lex("\u{663}"), Err(LexError::ExpectedAlphanumeric));
    assert_eq!(lex("1\u{bd}"), Err(LexError::ExpectedAlphanumeric));
}

#[test]
fn the_first_error_ends_the_tokenization() {
    let mut lexer = Lexer::new("ab $ 99999999999".to_string());
    assert_eq!(lexer.tokenize(), Err(LexError::ExpectedAlphanumeric));
    assert_eq!(lexer.position(), 3);
    let mut lexer = Lexer::new("a 99999999999 $".to_string());
    assert_eq!(lexer.tokenize(), Err(LexError::MalformedNumber));
    assert_eq!(lexer.position(), 12);
}

#[test]
fn collect_number_ends_on_the_last_digit() {
    let mut lexer = Lexer::new("123+4".to_string());
    assert_eq!(lexer.collect_number(), Ok(123));
    assert_eq!(lexer.position(), 2);
    let mut lexer = Lexer::new("7".to_string());
    assert_eq!(lexer.collect_number(), Ok(7));
    assert_eq!(lexer.position(), 0);
}

#[test]
fn collect_number_errors() {
    let mut lexer = Lexer::new("x1".to_string());
    assert_eq!(lexer.collect_number(), Err(LexError::ExpectedNumeric));
    assert_eq!(lexer.position(), 0);
    let mut lexer = Lexer::new(String::new());
    assert_eq!(lexer.collect_number(), Err(LexError::OutOfBounds));
    assert_eq!(lexer.position(), 0);
    let mut lexer = Lexer::new("2147483648;".to_string());
    assert_eq!(lexer.collect_number(), Err(LexError::MalformedNumber));
    assert_eq!(lexer.position(), 9);
    let mut lexer = Lexer::new("-1".to_string());
    assert_eq!(lexer.collect_number(), Err(LexError::ExpectedNumeric));
}

#[test]
fn collect_identifier_str_ends_on_the_last_character() {
    let mut lexer = Lexer::new("foo_1 bar".to_string());
    assert_eq!(lexer.collect_identifier_str(), Ok("foo_1".to_string()));
    assert_eq!(lexer.position(), 4);
    let mut lexer = Lexer::new("int".to_string());
    assert_eq!(lexer.collect_identifier_str(), Ok("int".to_string()));
    assert_eq!(lexer.position(), 2);
    let mut lexer = Lexer::new("9lives(".to_string());
    assert_eq!(lexer.collect_identifier_str(), Ok("9lives".to_string()));
    assert_eq!(lexer.position(), 5);
}

#[test]
fn collect_identifier_str_errors() {
    let mut lexer = Lexer::new("+x".to_string());
    assert_eq!(lexer.collect_identifier_str(), Err(LexError::ExpectedAlphanumeric));
    assert_eq!(lexer.position(), 0);
    let mut lexer = Lexer::new(String::new());
    assert_eq!(lexer.collect_identifier_str(), Err(LexError::OutOfBounds));
}

#[test]
fn scan_token_reads_one_token() {
    let mut lexer = Lexer::new("<=1".to_string());
    assert_eq!(lexer.scan_token(), Ok(Token::LessThanEqual));
    assert_eq!(lexer.position(), 1);
    let mut lexer = Lexer::new("return;".to_string());
    assert_eq!(lexer.scan_token(), Ok(Token::Return));
    assert_eq!(lexer.position(), 5);
    let mut lexer = Lexer::new(String::new());
    assert_eq!(lexer.scan_token(), Err(LexError::OutOfBounds));
    let mut lexer = Lexer::new(" 1".to_string());
    assert_eq!(lexer.scan_token(), Err(LexError::ExpectedAlphanumeric));
    assert_eq!(lexer.position(), 0);
}

#[test]
fn the_lexer_never_emits_the_end_marker() {
    for source in ["", "int main(void){return 2;}", "EOF eof", "1 + 2 - 3"] {
        assert!(lex(source).unwrap().iter().all(|t| *t != Token::EOF));
    }
}

#[test]
fn messages_carry_line_zero() {
    let lexer = Lexer::new("int\n\n\nx".to_string());
    assert_eq!(
        lexer.error("expected a numeric char"),
        "[lexer] line 0: expected a numeric char"
    );
    let mut lexer = Lexer::new("\n\n\n$".to_string());
    let e = lexer.tokenize().unwrap_err();
    assert_eq!(lexer.error(e.message()), "[lexer] line 0: expected an alphanumeric char");
}

#[test]
fn lex_error_messages() {
    assert_eq!(
        LexError::OutOfBounds.message(),
        "exceeded bounds trying to read current character"
    );
    assert_eq!(LexError::ExpectedNumeric.message(), "expected a numeric char");
    assert_eq!(LexError::ExpectedAlphanumeric.message(), "expected an alphanumeric char");
    assert_eq!(LexError::MalformedNumber.message(), "expected a number that fits in 32 bits");
}

#[test]
fn token_clone_is_equal() {
    let token = ident("main");
    assert_eq!(token.clone(), token);
    assert_eq!(Token::Integer(-5).clone(), Token::Integer(-5));
    assert_eq!(Token::BarBar.clone(), Token::BarBar);
}

#[test]
fn tokens_written_out() {
    assert_eq!(ident("main").describe(), "Identifier(\"main\")");
    assert_eq!(ident("").describe(), "Identifier(\"\")");
    assert_eq!(Token::Integer(2).describe(), "Integer(2)");
    assert_eq!(Token::Integer(-40).describe(), "Integer(-40)");
    assert_eq!(Token::Semicolon.describe(), "Semicolon");
    assert_eq!(Token::EOF.describe(), "EOF");
    assert_eq!(Token::AmpersandAmpersand.describe(), "AmpersandAmpersand");
    assert_eq!(Token::GreaterThanEqual.describe(), "GreaterThanEqual");
}

#[test]
fn tokens_written_out_as_their_debug_form() {
    let tokens = lex("int main(void){return 2;} x1 ~ - -- + * / % ! != & && | || = == < <= > >=")
        .unwrap();
    assert_eq!(tokens.len(), 30);
    for token in tokens {
        assert_eq!(token.describe(), format!("{:?}", token));
    }
    assert_eq!(Token::EOF.describe(), format!("{:?}", Token::EOF));
}

#[test]
fn is_word_character_is_ascii_alphanumeric_or_underscore() {
    for code in 0u32..0x300 {
        let c = char::from_u32(code).unwrap();
        assert_eq!(is_word_character(c), c.is_ascii_alphanumeric() || c == '_');
    }
}

#[test]
fn keyword_or_identifier_knows_three_keywords() {
    assert_eq!(keyword_or_identifier("int".to_string()), Token::Int);
    assert_eq!(keyword_or_identifier("return".to_string()), Token::Return);
    assert_eq!(keyword_or_identifier("void".to_string()), Token::Void);
    assert_eq!(keyword_or_identifier("main".to_string()), ident("main"));
    assert_eq!(keyword_or_identifier("INT".to_string()), ident("INT"));
    assert_eq!(keyword_or_identifier(String::new()), ident(""));
}

#[test]
fn collect_number_reads_like_the_standard_parse() {
    let numerals = [
        "0", "1", "9", "10", "00", "0123", "2147483646", "2147483647", "2147483648",
        "2147483650", "21474836470", "4294967295", "4294967296", "9999999999",
        "18446744073709551616", "000000000000000000000000000001",
    ];
    for numeral in numerals {
        let mut lexer = Lexer::new(numeral.to_string());
        assert_eq!(lexer.collect_number().ok(), numeral.parse::<i32>().ok());
        assert_eq!(lexer.position(), numeral.len() - 1);
    }
}

#[test]
fn white_space_between_tokens_changes_nothing() {
    let plain = lex("int main(void){return 2;}").unwrap();
    assert_eq!(lex("int main ( void ) { return 2 ; }").unwrap(), plain);
    assert_eq!(lex(" int\tmain\n(\r\nvoid)\u{a0}{return  2;\n}\n").unwrap(), plain);
    assert_eq!(lex("1<=2").unwrap(), lex(" 1 <= 2 ").unwrap());
    assert_eq!(lex("a--b").unwrap(), lex("a -- b").unwrap());
}

#[test]
fn white_space_inside_a_token_splits_it() {
    assert_eq!(lex("= =").unwrap(), vec![Token::Equal, Token::Equal]);
    assert_eq!(lex("- -").unwrap(), vec![Token::Hyphen, Token::Hyphen]);
    assert_eq!(lex("1 2").unwrap(), vec![Token::Integer(1), Token::Integer(2)]);
    assert_eq!(lex("re turn").unwrap(), vec![ident("re"), ident("turn")]);
}
