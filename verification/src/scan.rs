//! What tokenization means: the token that starts at a position of the source
//! text, and the sequence of tokens from a position to the end.

use crate::lexer::{LexError, TokenView};
use crate::text::{decimal_value, is_digit};
use vstd::prelude::*;

verus! {

/// Whether `c` is white space in the sense of `char::is_whitespace`, that is,
/// whether Unicode marks it as `White_Space`.
pub uninterp spec fn is_space(c: char) -> bool;

/// `char::is_whitespace` of std. Its answer depends on the character alone;
/// the contract gives that answer the name `is_space` and claims no more.
pub assume_specification[ char::is_whitespace ](c: char) -> (b: bool)
    ensures
        b == is_space(c),
;

/// Whether `c` may stand in an identifier or keyword: an ASCII letter, a
/// decimal digit or the underscore.
pub open spec fn is_word_char(c: char) -> bool {
    ||| 'a' <= c <= 'z'
    ||| 'A' <= c <= 'Z'
    ||| is_digit(c)
    ||| c == '_'
}

/// The classes of characters of which the lexer consumes whole runs.
pub enum CharClass {
    Digit,
    Word,
    Space,
}

impl CharClass {
    /// Whether `c` belongs to the class.
    pub open spec fn has(self, c: char) -> bool {
        match self {
            CharClass::Digit => is_digit(c),
            CharClass::Word => is_word_char(c),
            CharClass::Space => is_space(c),
        }
    }
}

/// The number of characters left in a text of length `len` from index `pos`.
pub open spec fn remaining(len: nat, pos: nat) -> nat {
    if pos <= len {
        (len - pos) as nat
    } else {
        0
    }
}

/// The length of the longest run of characters of `class` that starts at
/// index `pos` of `s`; zero where `pos` is past the end.
pub open spec fn run_len(s: Seq<char>, pos: nat, class: CharClass) -> nat
    decreases remaining(s.len(), pos),
{
    if pos < s.len() && class.has(s[pos as int]) {
        1 + run_len(s, pos + 1, class)
    } else {
        0
    }
}

/// The token of a word: one of the keywords `int`, `return` and `void`, or
/// else an identifier with the word as its name.
pub open spec fn word_token(word: Seq<char>) -> TokenView {
    if word =~= seq!['i', 'n', 't'] {
        TokenView::Int
    } else if word =~= seq!['r', 'e', 't', 'u', 'r', 'n'] {
        TokenView::Return
    } else if word =~= seq!['v', 'o', 'i', 'd'] {
        TokenView::Void
    } else {
        TokenView::Identifier(word)
    }
}

/// The token of a character that is punctuation or starts an operator, and
/// whether the token takes the following character `next` too. `None` for
/// every other character.
pub open spec fn symbol_token(c: char, next: Option<char>) -> Option<(TokenView, bool)> {
    if c == ';' {
        Some((TokenView::Semicolon, false))
    } else if c == '(' {
        Some((TokenView::OpenParen, false))
    } else if c == ')' {
        Some((TokenView::CloseParen, false))
    } else if c == '{' {
        Some((TokenView::OpenBrace, false))
    } else if c == '}' {
        Some((TokenView::CloseBrace, false))
    } else if c == '~' {
        Some((TokenView::Tilde, false))
    } else if c == '+' {
        Some((TokenView::Plus, false))
    } else if c == '*' {
        Some((TokenView::Asterisk, false))
    } else if c == '/' {
        Some((TokenView::Backslash, false))
    } else if c == '%' {
        Some((TokenView::Percent, false))
    } else if c == '!' {
        Some(pair(next, '=', TokenView::ExclamationEqual, TokenView::Exclamation))
    } else if c == '&' {
        Some(pair(next, '&', TokenView::AmpersandAmpersand, TokenView::Ampersand))
    } else if c == '|' {
        Some(pair(next, '|', TokenView::BarBar, TokenView::Bar))
    } else if c == '-' {
        Some(pair(next, '-', TokenView::Decrement, TokenView::Hyphen))
    } else if c == '=' {
        Some(pair(next, '=', TokenView::EqualEqual, TokenView::Equal))
    } else if c == '<' {
        Some(pair(next, '=', TokenView::LessThanEqual, TokenView::LessThan))
    } else if c == '>' {
        Some(pair(next, '=', TokenView::GreaterThanEqual, TokenView::GreaterThan))
    } else {
        None
    }
}

/// The choice between a two-character operator and its one-character prefix:
/// `double` together with the following character where that is `second`, and
/// `single` alone otherwise.
pub open spec fn pair(next: Option<char>, second: char, double: TokenView, single: TokenView) -> (
    TokenView,
    bool,
) {
    if next == Some(second) {
        (double, true)
    } else {
        (single, false)
    }
}

/// The character of `s` at index `n`, if there is one.
pub open spec fn char_of(s: Seq<char>, n: nat) -> Option<char> {
    if n < s.len() {
        Some(s[n as int])
    } else {
        None
    }
}

/// What scanning one item at a position gives: the item or the error, and the
/// number of characters taken after the first. The cursor ends on the last
/// character taken, which is `extra` characters after the position.
pub struct Scanned<T> {
    pub item: Result<T, LexError>,
    pub extra: nat,
}

/// The numeral that starts at index `pos` of `s`: the longest run of decimal
/// digits there, read as a 32-bit signed value. It is an error for `pos` to
/// be past the end, for the character there to be no digit, and for the value
/// to exceed the largest 32-bit signed value.
pub open spec fn number_at(s: Seq<char>, pos: nat) -> Scanned<i32> {
    if pos >= s.len() {
        Scanned { item: Err(LexError::OutOfBounds), extra: 0 }
    } else if !is_digit(s[pos as int]) {
        Scanned { item: Err(LexError::ExpectedNumeric), extra: 0 }
    } else {
        let extra = run_len(s, pos + 1, CharClass::Digit);
        let value = decimal_value(s.subrange(pos as int, pos + 1 + extra as int));
        if value <= i32::MAX {
            Scanned { item: Ok(value as i32), extra }
        } else {
            Scanned { item: Err(LexError::MalformedNumber), extra }
        }
    }
}

/// The word that starts at index `pos` of `s`: the longest run of word
/// characters there. It is an error for `pos` to be past the end and for the
/// character there to be no word character.
pub open spec fn word_at(s: Seq<char>, pos: nat) -> Scanned<Seq<char>> {
    if pos >= s.len() {
        Scanned { item: Err(LexError::OutOfBounds), extra: 0 }
    } else if !is_word_char(s[pos as int]) {
        Scanned { item: Err(LexError::ExpectedAlphanumeric), extra: 0 }
    } else {
        let extra = run_len(s, pos + 1, CharClass::Word);
        Scanned { item: Ok(s.subrange(pos as int, pos + 1 + extra as int)), extra }
    }
}

/// The token that starts at index `pos` of `s`. Punctuation and operators go
/// by their first character, with one character of lookahead where two
/// operators share it; a decimal digit starts a numeral; any other character
/// starts a word, and is an error where it is no word character.
pub open spec fn token_at(s: Seq<char>, pos: nat) -> Scanned<TokenView> {
    if pos >= s.len() {
        Scanned { item: Err(LexError::OutOfBounds), extra: 0 }
    } else {
        match symbol_token(s[pos as int], char_of(s, pos + 1)) {
            Some((token, double)) => Scanned { item: Ok(token), extra: if double { 1 } else { 0 } },
            None => if is_digit(s[pos as int]) {
                let number = number_at(s, pos);
                match number.item {
                    Ok(value) => Scanned { item: Ok(TokenView::Integer(value)), extra: number.extra },
                    Err(e) => Scanned { item: Err(e), extra: number.extra },
                }
            } else {
                let word = word_at(s, pos);
                match word.item {
                    Ok(text) => Scanned { item: Ok(word_token(text)), extra: word.extra },
                    Err(e) => Scanned { item: Err(e), extra: word.extra },
                }
            },
        }
    }
}

/// What tokenizing from a position gives: the tokens or the first error, and
/// the index at which the cursor ends.
pub struct Lexed {
    pub tokens: Result<Seq<TokenView>, LexError>,
    pub end: nat,
}

impl Lexed {
    /// The same outcome with the tokens `before` in front.
    pub open spec fn after(self, before: Seq<TokenView>) -> Lexed {
        match self.tokens {
            Ok(tokens) => Lexed { tokens: Ok(before + tokens), end: self.end },
            Err(e) => Lexed { tokens: Err(e), end: self.end },
        }
    }
}

/// The tokens of `s` from index `pos` to its end, in order. White space
/// between tokens is passed over. The first token that is in error ends the
/// tokenization with that error, the cursor on the last character scanned.
pub open spec fn tokens_from(s: Seq<char>, pos: nat) -> Lexed
    decreases remaining(s.len(), pos),
{
    if pos >= s.len() {
        Lexed { tokens: Ok(Seq::empty()), end: pos }
    } else if is_space(s[pos as int]) {
        tokens_from(s, pos + 1)
    } else {
        let scanned = token_at(s, pos);
        match scanned.item {
            Ok(token) => tokens_from(s, pos + scanned.extra + 1).after(seq![token]),
            Err(e) => Lexed { tokens: Err(e), end: pos + scanned.extra },
        }
    }
}

/// A run ends where the class ends: if every character from `from` up to `to`
/// belongs to `class` and the character at `to`, if any, does not, the run
/// from `from` has the length `to - from`.
pub proof fn lemma_run_end(s: Seq<char>, from: nat, to: nat, class: CharClass)
    requires
        from <= to,
        from < to ==> to <= s.len(),
        forall|i: int| from <= i < to ==> class.has(s[i]),
        to >= s.len() || !class.has(s[to as int]),
    ensures
        run_len(s, from, class) == to - from,
    decreases to - from,
{
    if from < to {
        lemma_run_end(s, from + 1, to, class);
    }
}

/// A run stays inside the text and consists of characters of its class.
pub proof fn lemma_run_within(s: Seq<char>, pos: nat, class: CharClass)
    requires
        pos <= s.len(),
    ensures
        pos + run_len(s, pos, class) <= s.len(),
        forall|i: int| pos <= i < pos + run_len(s, pos, class) ==> class.has(s[i]),
        pos + run_len(s, pos, class) == s.len() || !class.has(
            s[pos + run_len(s, pos, class) as int],
        ),
    decreases s.len() - pos,
{
    if pos < s.len() && class.has(s[pos as int]) {
        lemma_run_within(s, pos + 1, class);
    }
}

/// The last character of a token lies inside the text.
pub proof fn lemma_token_within(s: Seq<char>, pos: nat)
    requires
        pos < s.len(),
    ensures
        pos + token_at(s, pos).extra < s.len(),
{
    lemma_run_within(s, pos + 1, CharClass::Digit);
    lemma_run_within(s, pos + 1, CharClass::Word);
}

/// White space before a token does not change the tokens: tokenizing from the
/// start of a run of white space is tokenizing from its end.
pub proof fn lemma_tokens_skip_space(s: Seq<char>, pos: nat)
    ensures
        tokens_from(s, pos) == tokens_from(s, pos + run_len(s, pos, CharClass::Space)),
    decreases remaining(s.len(), pos),
{
    if pos < s.len() && is_space(s[pos as int]) {
        lemma_tokens_skip_space(s, pos + 1);
    }
}

/// Two characters that form an operator together are one token, never two:
/// the second character is taken with the first.
pub proof fn lemma_double_operator(s: Seq<char>, pos: nat)
    requires
        pos + 1 < s.len(),
    ensures
        s[pos as int] == '=' && s[pos + 1 as int] == '=' ==> token_at(s, pos) == (Scanned {
            item: Ok(TokenView::EqualEqual),
            extra: 1,
        }),
        s[pos as int] == '!' && s[pos + 1 as int] == '=' ==> token_at(s, pos) == (Scanned {
            item: Ok(TokenView::ExclamationEqual),
            extra: 1,
        }),
        s[pos as int] == '<' && s[pos + 1 as int] == '=' ==> token_at(s, pos) == (Scanned {
            item: Ok(TokenView::LessThanEqual),
            extra: 1,
        }),
        s[pos as int] == '>' && s[pos + 1 as int] == '=' ==> token_at(s, pos) == (Scanned {
            item: Ok(TokenView::GreaterThanEqual),
            extra: 1,
        }),
        s[pos as int] == '&' && s[pos + 1 as int] == '&' ==> token_at(s, pos) == (Scanned {
            item: Ok(TokenView::AmpersandAmpersand),
            extra: 1,
        }),
        s[pos as int] == '|' && s[pos + 1 as int] == '|' ==> token_at(s, pos) == (Scanned {
            item: Ok(TokenView::BarBar),
            extra: 1,
        }),
        s[pos as int] == '-' && s[pos + 1 as int] == '-' ==> token_at(s, pos) == (Scanned {
            item: Ok(TokenView::Decrement),
            extra: 1,
        }),
{
}

/// The lookahead for an operator takes one character at most.
pub proof fn lemma_operator_extra(s: Seq<char>, pos: nat)
    requires
        pos < s.len(),
        symbol_token(s[pos as int], char_of(s, pos + 1)) is Some,
    ensures
        token_at(s, pos).item is Ok,
        token_at(s, pos).extra <= 1,
{
}

/// Whether a token is one that the lexer produces: not the end marker; an
/// integer that is not negative; an identifier whose name is a word that
/// does not start with a digit and is no keyword.
pub open spec fn lexical(token: TokenView) -> bool {
    match token {
        TokenView::EOF => false,
        TokenView::Integer(value) => value >= 0,
        TokenView::Identifier(name) => {
            &&& name.len() > 0
            &&& !is_digit(name[0])
            &&& forall|i: int| 0 <= i < name.len() ==> is_word_char(#[trigger] name[i])
            &&& word_token(name) == token
        },
        _ => true,
    }
}

/// Every token that is scanned is one that the lexer produces, and scanning
/// a token never reads past the end.
pub proof fn lemma_token_lexical(s: Seq<char>, pos: nat)
    requires
        pos < s.len(),
    ensures
        token_at(s, pos).item matches Ok(token) ==> lexical(token),
        token_at(s, pos).item != Err::<TokenView, LexError>(LexError::OutOfBounds),
        token_at(s, pos).item != Err::<TokenView, LexError>(LexError::ExpectedNumeric),
{
    lemma_run_within(s, pos + 1, CharClass::Word);
    let c = s[pos as int];
    if symbol_token(c, char_of(s, pos + 1)) is None && !is_digit(c) && is_word_char(c) {
        let extra = run_len(s, pos + 1, CharClass::Word);
        let word = s.subrange(pos as int, pos + 1 + extra as int);
        assert forall|i: int| 0 <= i < word.len() implies is_word_char(#[trigger] word[i]) by {
            assert(word[i] == s[pos + i as int]);
            if i > 0 {
                assert(CharClass::Word.has(s[pos + i as int]));
            }
        }
    }
}

/// A tokenization that succeeds ends at the end of the source and holds only
/// tokens that the lexer produces: the end marker is never among them. One
/// that fails ends inside the source, on the last character scanned, and not
/// for want of a character.
pub proof fn lemma_tokens_lexical(s: Seq<char>, pos: nat)
    requires
        pos <= s.len(),
    ensures
        match tokens_from(s, pos).tokens {
            Ok(tokens) => {
                &&& tokens_from(s, pos).end == s.len()
                &&& forall|i: int| 0 <= i < tokens.len() ==> lexical(#[trigger] tokens[i])
            },
            Err(e) => {
                &&& tokens_from(s, pos).end < s.len()
                &&& e == LexError::ExpectedAlphanumeric || e == LexError::MalformedNumber
            },
        },
    decreases remaining(s.len(), pos),
{
    if pos < s.len() {
        if is_space(s[pos as int]) {
            lemma_tokens_lexical(s, pos + 1);
        } else {
            lemma_token_lexical(s, pos);
            lemma_token_within(s, pos);
            let scanned = token_at(s, pos);
            match scanned.item {
                Ok(token) => {
                    lemma_tokens_lexical(s, pos + scanned.extra + 1);
                },
                Err(_) => {},
            }
        }
    }
}

} // verus!
