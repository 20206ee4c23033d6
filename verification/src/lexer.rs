//! The lexer: tokens, lexical errors and the conversion of source text into
//! tokens.

use crate::scan::{
    char_of, lemma_run_end, lemma_token_within, lemma_tokens_skip_space, number_at, remaining,
    run_len, token_at, tokens_from, word_at, word_token, CharClass, Lexed, is_space, is_word_char,
};
use crate::text::{
    decimal_string, decimal_text, decimal_value, is_decimal_digit, is_digit,
    lemma_decimal_value_push, signed_decimal_string, signed_decimal_text, text_equals,
};
use vstd::prelude::*;

verus! {

/// One lexical unit of the source text.
#[derive(Debug, PartialEq, Eq)]
pub enum Token {
    Identifier(String),
    Integer(i32),
    Void,
    Return,
    Semicolon,
    OpenParen,
    CloseParen,
    OpenBrace,
    CloseBrace,
    Int,
    /// The end of the input. The lexer never produces it: the token sequence
    /// simply ends.
    EOF,
    Tilde,
    Hyphen,
    Decrement,
    Plus,
    Asterisk,
    Backslash,
    Percent,
    Exclamation,
    Ampersand,
    AmpersandAmpersand,
    Bar,
    BarBar,
    EqualEqual,
    Equal,
    ExclamationEqual,
    LessThan,
    LessThanEqual,
    GreaterThan,
    GreaterThanEqual,
}

/// A token as a mathematical value: an identifier carries its name as a
/// sequence of characters.
pub enum TokenView {
    Identifier(Seq<char>),
    Integer(i32),
    Void,
    Return,
    Semicolon,
    OpenParen,
    CloseParen,
    OpenBrace,
    CloseBrace,
    Int,
    EOF,
    Tilde,
    Hyphen,
    Decrement,
    Plus,
    Asterisk,
    Backslash,
    Percent,
    Exclamation,
    Ampersand,
    AmpersandAmpersand,
    Bar,
    BarBar,
    EqualEqual,
    Equal,
    ExclamationEqual,
    LessThan,
    LessThanEqual,
    GreaterThan,
    GreaterThanEqual,
}

impl Clone for Token {
    fn clone(&self) -> (token: Token)
        ensures
            token == *self,
    {
        match self {
            Token::Identifier(name) => Token::Identifier(name.clone()),
            Token::Integer(value) => Token::Integer(*value),
            Token::Void => Token::Void,
            Token::Return => Token::Return,
            Token::Semicolon => Token::Semicolon,
            Token::OpenParen => Token::OpenParen,
            Token::CloseParen => Token::CloseParen,
            Token::OpenBrace => Token::OpenBrace,
            Token::CloseBrace => Token::CloseBrace,
            Token::Int => Token::Int,
            Token::EOF => Token::EOF,
            Token::Tilde => Token::Tilde,
            Token::Hyphen => Token::Hyphen,
            Token::Decrement => Token::Decrement,
            Token::Plus => Token::Plus,
            Token::Asterisk => Token::Asterisk,
            Token::Backslash => Token::Backslash,
            Token::Percent => Token::Percent,
            Token::Exclamation => Token::Exclamation,
            Token::Ampersand => Token::Ampersand,
            Token::AmpersandAmpersand => Token::AmpersandAmpersand,
            Token::Bar => Token::Bar,
            Token::BarBar => Token::BarBar,
            Token::EqualEqual => Token::EqualEqual,
            Token::Equal => Token::Equal,
            Token::ExclamationEqual => Token::ExclamationEqual,
            Token::LessThan => Token::LessThan,
            Token::LessThanEqual => Token::LessThanEqual,
            Token::GreaterThan => Token::GreaterThan,
            Token::GreaterThanEqual => Token::GreaterThanEqual,
        }
    }
}

impl View for Token {
    type V = TokenView;

    open spec fn view(&self) -> TokenView {
        match *self {
            Token::Identifier(name) => TokenView::Identifier(name@),
            Token::Integer(value) => TokenView::Integer(value),
            Token::Void => TokenView::Void,
            Token::Return => TokenView::Return,
            Token::Semicolon => TokenView::Semicolon,
            Token::OpenParen => TokenView::OpenParen,
            Token::CloseParen => TokenView::CloseParen,
            Token::OpenBrace => TokenView::OpenBrace,
            Token::CloseBrace => TokenView::CloseBrace,
            Token::Int => TokenView::Int,
            Token::EOF => TokenView::EOF,
            Token::Tilde => TokenView::Tilde,
            Token::Hyphen => TokenView::Hyphen,
            Token::Decrement => TokenView::Decrement,
            Token::Plus => TokenView::Plus,
            Token::Asterisk => TokenView::Asterisk,
            Token::Backslash => TokenView::Backslash,
            Token::Percent => TokenView::Percent,
            Token::Exclamation => TokenView::Exclamation,
            Token::Ampersand => TokenView::Ampersand,
            Token::AmpersandAmpersand => TokenView::AmpersandAmpersand,
            Token::Bar => TokenView::Bar,
            Token::BarBar => TokenView::BarBar,
            Token::EqualEqual => TokenView::EqualEqual,
            Token::Equal => TokenView::Equal,
            Token::ExclamationEqual => TokenView::ExclamationEqual,
            Token::LessThan => TokenView::LessThan,
            Token::LessThanEqual => TokenView::LessThanEqual,
            Token::GreaterThan => TokenView::GreaterThan,
            Token::GreaterThanEqual => TokenView::GreaterThanEqual,
        }
    }
}

impl TokenView {
    /// The token written out: the name of its kind, and for an identifier
    /// or an integer its content in parentheses, the name of an identifier
    /// between double quotes.
    pub open spec fn text(self) -> Seq<char> {
        match self {
            TokenView::Identifier(name) => "Identifier(\""@ + name + "\")"@,
            TokenView::Integer(value) => "Integer("@ + signed_decimal_text(value as int) + ")"@,
            TokenView::Void => "Void"@,
            TokenView::Return => "Return"@,
            TokenView::Semicolon => "Semicolon"@,
            TokenView::OpenParen => "OpenParen"@,
            TokenView::CloseParen => "CloseParen"@,
            TokenView::OpenBrace => "OpenBrace"@,
            TokenView::CloseBrace => "CloseBrace"@,
            TokenView::Int => "Int"@,
            TokenView::EOF => "EOF"@,
            TokenView::Tilde => "Tilde"@,
            TokenView::Hyphen => "Hyphen"@,
            TokenView::Decrement => "Decrement"@,
            TokenView::Plus => "Plus"@,
            TokenView::Asterisk => "Asterisk"@,
            TokenView::Backslash => "Backslash"@,
            TokenView::Percent => "Percent"@,
            TokenView::Exclamation => "Exclamation"@,
            TokenView::Ampersand => "Ampersand"@,
            TokenView::AmpersandAmpersand => "AmpersandAmpersand"@,
            TokenView::Bar => "Bar"@,
            TokenView::BarBar => "BarBar"@,
            TokenView::EqualEqual => "EqualEqual"@,
            TokenView::Equal => "Equal"@,
            TokenView::ExclamationEqual => "ExclamationEqual"@,
            TokenView::LessThan => "LessThan"@,
            TokenView::LessThanEqual => "LessThanEqual"@,
            TokenView::GreaterThan => "GreaterThan"@,
            TokenView::GreaterThanEqual => "GreaterThanEqual"@,
        }
    }
}

impl Token {
    /// Writes the token out for a message.
    pub fn describe(&self) -> (text: String)
        ensures
            text@ == self@.text(),
    {
        match self {
            Token::Identifier(name) => "Identifier(\"".to_owned().concat(name.as_str()).concat(
                "\")",
            ),
            Token::Integer(value) => "Integer(".to_owned().concat(
                signed_decimal_string(*value).as_str(),
            ).concat(")"),
            Token::Void => "Void".to_owned(),
            Token::Return => "Return".to_owned(),
            Token::Semicolon => "Semicolon".to_owned(),
            Token::OpenParen => "OpenParen".to_owned(),
            Token::CloseParen => "CloseParen".to_owned(),
            Token::OpenBrace => "OpenBrace".to_owned(),
            Token::CloseBrace => "CloseBrace".to_owned(),
            Token::Int => "Int".to_owned(),
            Token::EOF => "EOF".to_owned(),
            Token::Tilde => "Tilde".to_owned(),
            Token::Hyphen => "Hyphen".to_owned(),
            Token::Decrement => "Decrement".to_owned(),
            Token::Plus => "Plus".to_owned(),
            Token::Asterisk => "Asterisk".to_owned(),
            Token::Backslash => "Backslash".to_owned(),
            Token::Percent => "Percent".to_owned(),
            Token::Exclamation => "Exclamation".to_owned(),
            Token::Ampersand => "Ampersand".to_owned(),
            Token::AmpersandAmpersand => "AmpersandAmpersand".to_owned(),
            Token::Bar => "Bar".to_owned(),
            Token::BarBar => "BarBar".to_owned(),
            Token::EqualEqual => "EqualEqual".to_owned(),
            Token::Equal => "Equal".to_owned(),
            Token::ExclamationEqual => "ExclamationEqual".to_owned(),
            Token::LessThan => "LessThan".to_owned(),
            Token::LessThanEqual => "LessThanEqual".to_owned(),
            Token::GreaterThan => "GreaterThan".to_owned(),
            Token::GreaterThanEqual => "GreaterThanEqual".to_owned(),
        }
    }
}

/// The tokens of a sequence as mathematical values.
pub open spec fn views(tokens: Seq<Token>) -> Seq<TokenView> {
    tokens.map_values(|t: Token| t@)
}

/// Why the lexer could not go on.
#[derive(Debug, Clone, Copy, PartialEq, Eq, Structural)]
pub enum LexError {
    /// A character was needed at or past the end of the input.
    OutOfBounds,
    /// A numeral was asked for where no decimal digit stands.
    ExpectedNumeric,
    /// A word was asked for where no letter, digit or underscore stands: the
    /// character can start no token.
    ExpectedAlphanumeric,
    /// The digits do not denote a 32-bit signed value.
    MalformedNumber,
}

impl LexError {
    /// The text of the error.
    pub open spec fn text(self) -> Seq<char> {
        match self {
            LexError::OutOfBounds => "exceeded bounds trying to read current character"@,
            LexError::ExpectedNumeric => "expected a numeric char"@,
            LexError::ExpectedAlphanumeric => "expected an alphanumeric char"@,
            LexError::MalformedNumber => "expected a number that fits in 32 bits"@,
        }
    }

    /// A description of the error for a reader.
    pub fn message(&self) -> (msg: &'static str)
        ensures
            msg@ == self.text(),
    {
        match self {
            LexError::OutOfBounds => "exceeded bounds trying to read current character",
            LexError::ExpectedNumeric => "expected a numeric char",
            LexError::ExpectedAlphanumeric => "expected an alphanumeric char",
            LexError::MalformedNumber => "expected a number that fits in 32 bits",
        }
    }
}

/// A message of the lexer together with the line that it is about.
pub open spec fn located(line: nat, msg: Seq<char>) -> Seq<char> {
    "[lexer] line "@ + decimal_text(line) + ": "@ + msg
}

/// The character that was needed, or the error of reading past the end.
pub open spec fn needed(c: Option<char>) -> Result<char, LexError> {
    match c {
        Some(c) => Ok(c),
        None => Err(LexError::OutOfBounds),
    }
}

/// The outcome of scanning a token, with the token as a mathematical value.
pub open spec fn token_outcome(r: Result<Token, LexError>) -> Result<TokenView, LexError> {
    match r {
        Ok(token) => Ok(token@),
        Err(e) => Err(e),
    }
}

/// The outcome of scanning a word, with the word as a sequence of characters.
pub open spec fn word_outcome(r: Result<String, LexError>) -> Result<Seq<char>, LexError> {
    match r {
        Ok(word) => Ok(word@),
        Err(e) => Err(e),
    }
}

/// The outcome of a tokenization, with the tokens as mathematical values.
pub open spec fn tokens_outcome(r: Result<Vec<Token>, LexError>) -> Result<
    Seq<TokenView>,
    LexError,
> {
    match r {
        Ok(tokens) => Ok(views(tokens@)),
        Err(e) => Err(e),
    }
}

/// Whether `c` is an ASCII letter, a decimal digit or the underscore.
pub fn is_word_character(c: char) -> (b: bool)
    ensures
        b == is_word_char(c),
{
    (c >= 'a' && c <= 'z') || (c >= 'A' && c <= 'Z') || is_decimal_digit(c) || c == '_'
}

/// The token of a word: a keyword, or an identifier named by the word.
pub fn keyword_or_identifier(word: String) -> (token: Token)
    ensures
        token@ == word_token(word@),
{
    proof {
        reveal_strlit("int");
        reveal_strlit("return");
        reveal_strlit("void");
        assert("int"@ =~= seq!['i', 'n', 't']);
        assert("return"@ =~= seq!['r', 'e', 't', 'u', 'r', 'n']);
        assert("void"@ =~= seq!['v', 'o', 'i', 'd']);
    }
    if text_equals(word.as_str(), "int") {
        Token::Int
    } else if text_equals(word.as_str(), "return") {
        Token::Return
    } else if text_equals(word.as_str(), "void") {
        Token::Void
    } else {
        Token::Identifier(word)
    }
}

/// A cursor over a source text. The line number is kept for messages; the
/// lexer does not count lines, so it stays at the value it was made with.
pub struct Lexer {
    input: String,
    pos: usize,
    line: usize,
}

impl Lexer {
    /// The source text.
    pub closed spec fn source(&self) -> Seq<char> {
        self.input@
    }

    /// The index of the character under the cursor.
    pub closed spec fn cursor(&self) -> nat {
        self.pos as nat
    }

    /// The line number that messages carry.
    pub closed spec fn line(&self) -> nat {
        self.line as nat
    }

    /// A lexer at the start of `input`, on line 0.
    pub fn new(input: String) -> (lexer: Lexer)
        ensures
            lexer.source() == input@,
            lexer.cursor() == 0,
            lexer.line() == 0,
    {
        Lexer { input, pos: 0, line: 0 }
    }

    /// The index of the character under the cursor.
    pub fn position(&self) -> (pos: usize)
        ensures
            pos == self.cursor(),
    {
        self.pos
    }

    /// The message `msg` with the lexer's line in front.
    pub fn error(&self, msg: &'static str) -> (text: String)
        ensures
            text@ == located(self.line(), msg@),
    {
        let text = "[lexer] line ".to_owned();
        let text = text.concat(decimal_string(self.line as u64).as_str());
        let text = text.concat(": ");
        text.concat(msg)
    }

    /// The character at index `n` of the source, if there is one.
    fn char_at(&self, n: usize) -> (c: Option<char>)
        ensures
            c == char_of(self.source(), n as nat),
            self.source().len() <= usize::MAX,
    {
        let text = self.input.as_str();
        if n < text.unicode_len() {
            Some(text.get_char(n))
        } else {
            None
        }
    }

    /// The character under the cursor.
    fn cur_char(&self) -> (c: Result<char, LexError>)
        ensures
            c == needed(char_of(self.source(), self.cursor())),
            self.source().len() <= usize::MAX,
    {
        match self.char_at(self.pos) {
            Some(c) => Ok(c),
            None => Err(LexError::OutOfBounds),
        }
    }

    /// The character after the one under the cursor.
    fn peek_char(&self) -> (c: Result<char, LexError>)
        ensures
            c == needed(char_of(self.source(), self.cursor() + 1)),
            self.source().len() <= usize::MAX,
    {
        if self.pos == usize::MAX {
            // The length is a `usize`: no character stands after this index.
            let len = self.input.as_str().unicode_len();
            return Err(LexError::OutOfBounds);
        }
        match self.char_at(self.pos + 1) {
            Some(c) => Ok(c),
            None => Err(LexError::OutOfBounds),
        }
    }

    /// Reads the numeral under the cursor and leaves the cursor on its last
    /// digit. On the errors `OutOfBounds` and `ExpectedNumeric` the cursor
    /// stays where it was.
    pub fn collect_number(&mut self) -> (r: Result<i32, LexError>)
        ensures
            final(self).source() == old(self).source(),
            final(self).line() == old(self).line(),
            r == number_at(old(self).source(), old(self).cursor()).item,
            final(self).cursor() == old(self).cursor() + number_at(
                old(self).source(),
                old(self).cursor(),
            ).extra,
    {
        let first = match self.cur_char() {
            Ok(c) => c,
            Err(e) => {
                return Err(e);
            },
        };
        if !is_decimal_digit(first) {
            return Err(LexError::ExpectedNumeric);
        }
        let ghost s = self.input@;
        let ghost start = self.pos as int;
        let mut c = first;
        let mut value: i64 = 0;
        let mut fits = true;
        let mut more = true;
        while more
            invariant
                self.input@ == s,
                self.line == old(self).line,
                start == old(self).pos,
                start <= self.pos <= s.len() <= usize::MAX,
                more ==> self.pos < s.len() && c == s[self.pos as int] && is_digit(c),
                !more ==> self.pos > start && !(self.pos < s.len() && is_digit(s[self.pos as int])),
                forall|i: int| start <= i < self.pos ==> is_digit(s[i]),
                fits ==> value == decimal_value(s.subrange(start, self.pos as int)) && 0 <= value
                    <= i32::MAX,
                !fits ==> decimal_value(s.subrange(start, self.pos as int)) > i32::MAX,
            decreases s.len() - self.pos + (if more { 1int } else { 0int }),
        {
            proof {
                lemma_decimal_value_push(s.subrange(start, self.pos as int), c);
                assert(s.subrange(start, self.pos as int).push(c) =~= s.subrange(
                    start,
                    self.pos + 1,
                ));
            }
            let digit: i64 = (c as u32 - 48) as i64;
            if fits {
                let next: i64 = value * 10 + digit;
                if next <= 0x7fff_ffff {
                    value = next;
                } else {
                    fits = false;
                }
            }
            self.pos += 1;
            match self.cur_char() {
                Ok(next) => {
                    if is_decimal_digit(next) {
                        c = next;
                    } else {
                        more = false;
                    }
                },
                Err(_) => {
                    more = false;
                },
            }
        }
        proof {
            lemma_run_end(s, (start + 1) as nat, self.pos as nat, CharClass::Digit);
        }
        self.pos -= 1;
        if fits {
            Ok(value as i32)
        } else {
            Err(LexError::MalformedNumber)
        }
    }

    /// Reads the word under the cursor and leaves the cursor on its last
    /// character. On an error the cursor stays where it was.
    pub fn collect_identifier_str(&mut self) -> (r: Result<String, LexError>)
        ensures
            final(self).source() == old(self).source(),
            final(self).line() == old(self).line(),
            word_outcome(r) == word_at(old(self).source(), old(self).cursor()).item,
            final(self).cursor() == old(self).cursor() + word_at(
                old(self).source(),
                old(self).cursor(),
            ).extra,
    {
        let first = match self.cur_char() {
            Ok(c) => c,
            Err(e) => {
                return Err(e);
            },
        };
        if !is_word_character(first) {
            return Err(LexError::ExpectedAlphanumeric);
        }
        let ghost s = self.input@;
        let start: usize = self.pos;
        let mut more = true;
        while more
            invariant
                self.input@ == s,
                self.line == old(self).line,
                start == old(self).pos,
                start <= self.pos <= s.len() <= usize::MAX,
                more ==> self.pos < s.len() && is_word_char(s[self.pos as int]),
                !more ==> self.pos > start && !(self.pos < s.len() && is_word_char(
                    s[self.pos as int],
                )),
                forall|i: int| start <= i < self.pos ==> is_word_char(s[i]),
            decreases s.len() - self.pos + (if more { 1int } else { 0int }),
        {
            self.pos += 1;
            match self.cur_char() {
                Ok(next) => {
                    if !is_word_character(next) {
                        more = false;
                    }
                },
                Err(_) => {
                    more = false;
                },
            }
        }
        proof {
            lemma_run_end(s, (start + 1) as nat, self.pos as nat, CharClass::Word);
        }
        let word = self.input.as_str().substring_char(start, self.pos).to_owned();
        self.pos -= 1;
        Ok(word)
    }

    /// Moves the cursor past the white space under it, if any.
    fn skip_whitespace(&mut self)
        ensures
            final(self).source() == old(self).source(),
            final(self).line() == old(self).line(),
            final(self).cursor() == old(self).cursor() + run_len(
                old(self).source(),
                old(self).cursor(),
                CharClass::Space,
            ),
    {
        let ghost s = self.input@;
        let ghost start = self.pos as int;
        let mut more = true;
        while more
            invariant
                self.input@ == s,
                self.line == old(self).line,
                start == old(self).pos,
                start <= self.pos,
                self.pos > start ==> self.pos <= s.len() <= usize::MAX,
                forall|i: int| start <= i < self.pos ==> is_space(s[i]),
                !more ==> self.pos >= s.len() || !is_space(s[self.pos as int]),
            decreases remaining(s.len(), self.pos as nat) + (if more { 1int } else { 0int }),
        {
            match self.cur_char() {
                Ok(c) => {
                    if c.is_whitespace() {
                        self.pos += 1;
                    } else {
                        more = false;
                    }
                },
                Err(_) => {
                    more = false;
                },
            }
        }
        proof {
            lemma_run_end(s, start as nat, self.pos as nat, CharClass::Space);
        }
    }

    /// Chooses between a two-character operator and its one-character
    /// prefix: where the character after the cursor is `x`, moves the cursor
    /// onto it and returns `if_true`; otherwise returns `if_false`.
    fn if_next_tok(&mut self, x: char, if_true: Token, if_false: Token) -> (token: Token)
        ensures
            final(self).source() == old(self).source(),
            final(self).line() == old(self).line(),
            char_of(old(self).source(), old(self).cursor() + 1) == Some(x) ==> token == if_true
                && final(self).cursor() == old(self).cursor() + 1,
            char_of(old(self).source(), old(self).cursor() + 1) != Some(x) ==> token == if_false
                && final(self).cursor() == old(self).cursor(),
    {
        match self.peek_char() {
            Ok(c) => {
                if c == x {
                    self.pos += 1;
                    return if_true;
                }
            },
            Err(_) => {},
        }
        if_false
    }

    /// Scans the token under the cursor and leaves the cursor on its last
    /// character. White space is not passed over: a white space character
    /// under the cursor is treated like any other.
    pub fn scan_token(&mut self) -> (r: Result<Token, LexError>)
        ensures
            final(self).source() == old(self).source(),
            final(self).line() == old(self).line(),
            token_outcome(r) == token_at(old(self).source(), old(self).cursor()).item,
            final(self).cursor() == old(self).cursor() + token_at(
                old(self).source(),
                old(self).cursor(),
            ).extra,
    {
        let c = match self.cur_char() {
            Ok(c) => c,
            Err(e) => {
                return Err(e);
            },
        };
        let token = match c {
            ';' => Token::Semicolon,
            '(' => Token::OpenParen,
            ')' => Token::CloseParen,
            '{' => Token::OpenBrace,
            '}' => Token::CloseBrace,
            '~' => Token::Tilde,
            '+' => Token::Plus,
            '*' => Token::Asterisk,
            '/' => Token::Backslash,
            '%' => Token::Percent,
            '!' => self.if_next_tok('=', Token::ExclamationEqual, Token::Exclamation),
            '&' => self.if_next_tok('&', Token::AmpersandAmpersand, Token::Ampersand),
            '|' => self.if_next_tok('|', Token::BarBar, Token::Bar),
            '-' => self.if_next_tok('-', Token::Decrement, Token::Hyphen),
            '=' => self.if_next_tok('=', Token::EqualEqual, Token::Equal),
            '<' => self.if_next_tok('=', Token::LessThanEqual, Token::LessThan),
            '>' => self.if_next_tok('=', Token::GreaterThanEqual, Token::GreaterThan),
            _ => {
                if is_decimal_digit(c) {
                    match self.collect_number() {
                        Ok(value) => Token::Integer(value),
                        Err(e) => {
                            return Err(e);
                        },
                    }
                } else {
                    match self.collect_identifier_str() {
                        Ok(word) => keyword_or_identifier(word),
                        Err(e) => {
                            return Err(e);
                        },
                    }
                }
            },
        };
        Ok(token)
    }

    /// Converts the source from the cursor to its end into tokens. White
    /// space between tokens is passed over. On success the cursor is at the
    /// end of the source; on an error it is on the last character scanned.
    pub fn tokenize(&mut self) -> (r: Result<Vec<Token>, LexError>)
        ensures
            final(self).source() == old(self).source(),
            final(self).line() == old(self).line(),
            tokens_outcome(r) == tokens_from(old(self).source(), old(self).cursor()).tokens,
            final(self).cursor() == tokens_from(old(self).source(), old(self).cursor()).end,
    {
        let ghost s = self.input@;
        let ghost start = self.pos as nat;
        let mut res: Vec<Token> = Vec::new();
        let mut failure: Option<LexError> = None;
        let mut more = true;
        assert(tokens_from(s, start).after(views(res@)) == tokens_from(s, start)) by {
            assert(views(res@) =~= Seq::<TokenView>::empty());
            match tokens_from(s, start).tokens {
                Ok(tokens) => {
                    assert(Seq::<TokenView>::empty() + tokens =~= tokens);
                },
                Err(_) => {},
            }
        }
        while more
            invariant
                self.input@ == s,
                self.line == old(self).line,
                more ==> failure is None && tokens_from(s, start) == tokens_from(
                    s,
                    self.pos as nat,
                ).after(views(res@)),
                !more ==> tokens_from(s, start) == match failure {
                    None => Lexed { tokens: Ok(views(res@)), end: self.pos as nat },
                    Some(e) => Lexed { tokens: Err(e), end: self.pos as nat },
                },
            decreases remaining(s.len(), self.pos as nat) + (if more { 1int } else { 0int }),
        {
            let ghost pos = self.pos as nat;
            let ghost before = views(res@);
            match self.cur_char() {
                Err(_) => {
                    more = false;
                    assert(before + Seq::<TokenView>::empty() =~= before);
                },
                Ok(c) => {
                    if c.is_whitespace() {
                        self.skip_whitespace();
                        proof {
                            lemma_tokens_skip_space(s, pos);
                        }
                    } else {
                        match self.scan_token() {
                            Ok(token) => {
                                proof {
                                    lemma_token_within(s, pos);
                                    lemma_after_after(
                                        tokens_from(s, (self.pos + 1) as nat),
                                        before,
                                        token@,
                                    );
                                    assert(views(res@.push(token)) =~= before.push(token@));
                                }
                                res.push(token);
                                self.pos += 1;
                            },
                            Err(e) => {
                                failure = Some(e);
                                more = false;
                            },
                        }
                    }
                },
            }
        }
        match failure {
            None => Ok(res),
            Some(e) => Err(e),
        }
    }
}

/// Putting one token and then more tokens in front of an outcome is putting
/// the longer sequence in front of it.
proof fn lemma_after_after(lexed: Lexed, before: Seq<TokenView>, token: TokenView)
    ensures
        lexed.after(seq![token]).after(before) == lexed.after(before.push(token)),
{
    match lexed.tokens {
        Ok(tokens) => {
            assert(before + (seq![token] + tokens) =~= before.push(token) + tokens);
        },
        Err(_) => {},
    }
}

} // verus!
