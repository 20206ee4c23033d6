//! What the tokens of a text have to do with its characters: each token is
//! spelled by the characters it was scanned from, as far as they go, and
//! only white space lies between the tokens.

use crate::lexer::{LexError, TokenView};
use crate::scan::{
    char_of, is_space, is_word_char, lemma_run_end, lemma_run_within, lemma_tokens_skip_space,
    remaining, run_len, symbol_token, token_at, tokens_from, word_token, CharClass, Lexed,
    Scanned,
};
use crate::text::{decimal_value, is_digit};
use vstd::prelude::*;

verus! {

/// The characters of an operator or punctuation token: its first character
/// and, where it has two, its second. `None` for every other token.
pub open spec fn symbol_chars(token: TokenView) -> Option<(char, Option<char>)> {
    match token {
        TokenView::Semicolon => Some((';', None)),
        TokenView::OpenParen => Some(('(', None)),
        TokenView::CloseParen => Some((')', None)),
        TokenView::OpenBrace => Some(('{', None)),
        TokenView::CloseBrace => Some(('}', None)),
        TokenView::Tilde => Some(('~', None)),
        TokenView::Plus => Some(('+', None)),
        TokenView::Asterisk => Some(('*', None)),
        TokenView::Backslash => Some(('/', None)),
        TokenView::Percent => Some(('%', None)),
        TokenView::Exclamation => Some(('!', None)),
        TokenView::ExclamationEqual => Some(('!', Some('='))),
        TokenView::Ampersand => Some(('&', None)),
        TokenView::AmpersandAmpersand => Some(('&', Some('&'))),
        TokenView::Bar => Some(('|', None)),
        TokenView::BarBar => Some(('|', Some('|'))),
        TokenView::Hyphen => Some(('-', None)),
        TokenView::Decrement => Some(('-', Some('-'))),
        TokenView::Equal => Some(('=', None)),
        TokenView::EqualEqual => Some(('=', Some('='))),
        TokenView::LessThan => Some(('<', None)),
        TokenView::LessThanEqual => Some(('<', Some('='))),
        TokenView::GreaterThan => Some(('>', None)),
        TokenView::GreaterThanEqual => Some(('>', Some('='))),
        _ => None,
    }
}

/// The character that makes a two-character operator of the character `c`,
/// if there is one.
pub open spec fn extension(c: char) -> Option<char> {
    if c == '!' || c == '=' || c == '<' || c == '>' {
        Some('=')
    } else if c == '&' || c == '|' || c == '-' {
        Some(c)
    } else {
        None
    }
}

/// Whether the characters from index `from` up to `to` are a whole run of
/// `class`: all of them belong to it, and the character after them, if any,
/// does not.
pub open spec fn whole_run(s: Seq<char>, from: nat, to: nat, class: CharClass) -> bool {
    &&& from < to <= s.len()
    &&& forall|i: int| from <= i < to ==> class.has(#[trigger] s[i])
    &&& to == s.len() || !class.has(s[to as int])
}

/// Whether the characters from index `from` up to `to` spell the token, and
/// no character after them belongs to it as well:
///
/// - an operator or punctuation token is spelled by its one or two
///   characters, and a one-character operator is not followed by the
///   character that would make another operator of it;
/// - an integer is spelled by a whole run of decimal digits with its value;
/// - a keyword or an identifier is spelled by a whole run of word
///   characters that starts with no digit: a keyword by its letters, an
///   identifier by its name, which is no keyword.
///
/// Nothing spells the end marker.
pub open spec fn spelled(s: Seq<char>, from: nat, to: nat, token: TokenView) -> bool {
    &&& from < to <= s.len()
    &&& match token {
        TokenView::EOF => false,
        TokenView::Integer(value) => {
            &&& whole_run(s, from, to, CharClass::Digit)
            &&& decimal_value(s.subrange(from as int, to as int)) == value
        },
        TokenView::Identifier(_) | TokenView::Int | TokenView::Return | TokenView::Void => {
            &&& whole_run(s, from, to, CharClass::Word)
            &&& !is_digit(s[from as int])
            &&& word_token(s.subrange(from as int, to as int)) == token
        },
        _ => {
            &&& symbol_chars(token) matches Some((first, second))
            &&& s[from as int] == first
            &&& match second {
                Some(c) => to == from + 2 && s[from + 1 as int] == c,
                None => to == from + 1 && (extension(first) matches Some(c) ==> char_of(s, to)
                    != Some(c)),
            }
        },
    }
}

/// The characters that a token is written with. An integer has none of its
/// own: every run of digits with its value writes it.
pub open spec fn spelling(token: TokenView) -> Seq<char> {
    match token {
        TokenView::Identifier(name) => name,
        TokenView::Int => seq!['i', 'n', 't'],
        TokenView::Return => seq!['r', 'e', 't', 'u', 'r', 'n'],
        TokenView::Void => seq!['v', 'o', 'i', 'd'],
        _ => match symbol_chars(token) {
            Some((first, Some(second))) => seq![first, second],
            Some((first, None)) => seq![first],
            None => Seq::empty(),
        },
    }
}

/// The characters that spell a token are the characters it is written with;
/// those that spell an integer are decimal digits with its value.
pub proof fn lemma_spelled_text(s: Seq<char>, from: nat, to: nat, token: TokenView)
    requires
        spelled(s, from, to, token),
    ensures
        token !is Integer ==> s.subrange(from as int, to as int) == spelling(token),
        token matches TokenView::Integer(value) ==> {
            &&& decimal_value(s.subrange(from as int, to as int)) == value
            &&& forall|i: int| from <= i < to ==> is_digit(#[trigger] s[i])
        },
{
    let text = s.subrange(from as int, to as int);
    if token is Integer {
        assert forall|i: int| from <= i < to implies is_digit(#[trigger] s[i]) by {
            assert(CharClass::Digit.has(s[i]));
        }
    } else if symbol_chars(token) is Some {
        assert(text[0] == s[from as int]);
        if to == from + 2 {
            assert(text[1] == s[from + 1 as int]);
        }
        assert(text =~= spelling(token));
    } else {
        assert(word_token(text) == token);
    }
}

/// Whether the token `first` starts the tokens of `s` from index `pos` with
/// the characters from `start` up to `end`: only white space lies between
/// `pos` and `start`, and the characters spell the token.
pub open spec fn first_lexeme(s: Seq<char>, pos: nat, start: nat, end: nat, first: TokenView) -> bool {
    &&& pos <= start < end <= s.len()
    &&& forall|i: int| pos <= i < start ==> is_space(#[trigger] s[i])
    &&& !is_space(s[start as int])
    &&& spelled(s, start, end, first)
}

/// Whether `tokens` are the tokens of `s` from index `pos` on: each is
/// spelled by characters of `s`, in order, and all other characters from
/// `pos` to the end are white space.
pub open spec fn lexes(s: Seq<char>, pos: nat, tokens: Seq<TokenView>) -> bool
    decreases tokens.len(),
{
    if tokens.len() == 0 {
        forall|i: int| pos <= i < s.len() ==> is_space(#[trigger] s[i])
    } else {
        exists|start: nat, end: nat| #[trigger]
            first_lexeme(s, pos, start, end, tokens[0]) && lexes(s, end, tokens.drop_first())
    }
}

/// The token that is scanned at a position is spelled by the characters that
/// the scan takes.
pub proof fn lemma_token_spelled(s: Seq<char>, pos: nat)
    requires
        pos < s.len(),
    ensures
        token_at(s, pos).item matches Ok(token) ==> spelled(
            s,
            pos,
            pos + token_at(s, pos).extra + 1,
            token,
        ),
{
    lemma_run_within(s, pos + 1, CharClass::Digit);
    lemma_run_within(s, pos + 1, CharClass::Word);
}

/// The characters that spell a token are scanned as that token.
pub proof fn lemma_spelled_token(s: Seq<char>, from: nat, to: nat, token: TokenView)
    requires
        spelled(s, from, to, token),
    ensures
        token_at(s, from) == (Scanned { item: Ok(token), extra: (to - from - 1) as nat }),
{
    if token is Integer {
        lemma_run_end(s, from + 1, to, CharClass::Digit);
    } else if symbol_chars(token) is None {
        lemma_run_end(s, from + 1, to, CharClass::Word);
    }
}

/// A text that is white space from `pos` on has no tokens from there.
pub proof fn lemma_space_to_the_end(s: Seq<char>, pos: nat)
    requires
        pos <= s.len(),
        forall|i: int| pos <= i < s.len() ==> is_space(#[trigger] s[i]),
    ensures
        tokens_from(s, pos) == (Lexed { tokens: Ok(Seq::empty()), end: s.len() }),
{
    lemma_run_end(s, pos, s.len(), CharClass::Space);
    lemma_tokens_skip_space(s, pos);
}

/// The lexer finds exactly the tokens that the text spells: a tokenization
/// gives `tokens` if and only if `tokens` are the tokens of the text.
pub proof fn lemma_tokenized_iff_lexes(s: Seq<char>, pos: nat, tokens: Seq<TokenView>)
    requires
        pos <= s.len(),
    ensures
        tokens_from(s, pos).tokens == Ok::<Seq<TokenView>, LexError>(tokens) <==> lexes(
            s,
            pos,
            tokens,
        ),
{
    if tokens_from(s, pos).tokens == Ok::<Seq<TokenView>, LexError>(tokens) {
        lemma_tokenized_lexes(s, pos);
    }
    if lexes(s, pos, tokens) {
        lemma_lexes_tokenized(s, pos, tokens);
    }
}

/// The tokens that a tokenization gives are the tokens of the text.
pub proof fn lemma_tokenized_lexes(s: Seq<char>, pos: nat)
    requires
        pos <= s.len(),
    ensures
        tokens_from(s, pos).tokens matches Ok(tokens) ==> lexes(s, pos, tokens),
    decreases remaining(s.len(), pos),
{
    if pos < s.len() {
        if is_space(s[pos as int]) {
            lemma_tokenized_lexes(s, pos + 1);
            match tokens_from(s, pos + 1).tokens {
                Ok(tokens) => {
                    if tokens.len() > 0 {
                        let (start, end) = choose|start: nat, end: nat| #[trigger]
                            first_lexeme(s, pos + 1, start, end, tokens[0]) && lexes(
                                s,
                                end,
                                tokens.drop_first(),
                            );
                        assert(first_lexeme(s, pos, start, end, tokens[0]));
                    }
                },
                Err(_) => {},
            }
        } else {
            let scanned = token_at(s, pos);
            match scanned.item {
                Ok(token) => {
                    let end = pos + scanned.extra + 1;
                    lemma_token_spelled(s, pos);
                    lemma_tokenized_lexes(s, end);
                    match tokens_from(s, end).tokens {
                        Ok(rest) => {
                            let tokens = seq![token] + rest;
                            assert(tokens.drop_first() =~= rest);
                            assert(first_lexeme(s, pos, pos, end, tokens[0]));
                        },
                        Err(_) => {},
                    }
                },
                Err(_) => {},
            }
        }
    }
}

/// The tokens of the text are what a tokenization gives, and it ends at the
/// end of the text.
pub proof fn lemma_lexes_tokenized(s: Seq<char>, pos: nat, tokens: Seq<TokenView>)
    requires
        pos <= s.len(),
        lexes(s, pos, tokens),
    ensures
        tokens_from(s, pos) == (Lexed { tokens: Ok(tokens), end: s.len() }),
    decreases tokens.len(),
{
    if tokens.len() == 0 {
        lemma_space_to_the_end(s, pos);
        assert(tokens =~= Seq::empty());
    } else {
        let (start, end) = choose|start: nat, end: nat| #[trigger]
            first_lexeme(s, pos, start, end, tokens[0]) && lexes(s, end, tokens.drop_first());
        lemma_run_end(s, pos, start, CharClass::Space);
        lemma_tokens_skip_space(s, pos);
        lemma_spelled_token(s, start, end, tokens[0]);
        lemma_lexes_tokenized(s, end, tokens.drop_first());
        assert(seq![tokens[0]] + tokens.drop_first() =~= tokens);
    }
}

/// Whether `c` is white space that is part of no token: it is no word
/// character and does not make a two-character operator of a character
/// before it.
pub open spec fn is_separator(c: char) -> bool {
    &&& is_space(c)
    &&& !is_word_char(c)
    &&& c != '=' && c != '&' && c != '|' && c != '-'
}

/// Whether scanning `s` from index `pos`, token by token and past white
/// space, comes to stand at index `at`: no token lies across that index.
pub open spec fn stands_at(s: Seq<char>, pos: nat, at: nat) -> bool
    decreases remaining(s.len(), pos),
{
    if pos >= at || pos >= s.len() {
        pos == at
    } else if is_space(s[pos as int]) {
        stands_at(s, pos + 1, at)
    } else {
        stands_at(s, pos + token_at(s, pos).extra + 1, at)
    }
}

/// Whether `t` is `s` with one character more at index `at`.
pub open spec fn one_more_at(s: Seq<char>, t: Seq<char>, at: nat) -> bool {
    &&& at <= s.len()
    &&& t.len() == s.len() + 1
    &&& forall|i: int| 0 <= i < at ==> #[trigger] t[i] == s[i]
    &&& forall|i: int| at <= i < s.len() ==> #[trigger] t[i + 1] == s[i]
}

/// After the place of the additional character, a run is the same run one
/// index later.
pub proof fn lemma_run_moved(s: Seq<char>, t: Seq<char>, at: nat, pos: nat, class: CharClass)
    requires
        one_more_at(s, t, at),
        at <= pos,
    ensures
        run_len(t, pos + 1, class) == run_len(s, pos, class),
    decreases remaining(s.len(), pos),
{
    let p = pos as int;
    if p < s.len() {
        assert(t[p + 1] == s[p]);
        if class.has(s[p]) {
            lemma_run_moved(s, t, at, pos + 1, class);
        }
    }
}

/// After the place of the additional character, a token is the same token
/// one index later.
pub proof fn lemma_token_moved(s: Seq<char>, t: Seq<char>, at: nat, pos: nat)
    requires
        one_more_at(s, t, at),
        at <= pos,
    ensures
        token_at(t, pos + 1) == token_at(s, pos),
{
    let p = pos as int;
    if p < s.len() {
        assert(t[p + 1] == s[p]);
        if p + 1 < s.len() {
            assert(t[(p + 1) + 1] == s[p + 1]);
        }
        assert(char_of(t, pos + 2) == char_of(s, pos + 1));
        lemma_run_moved(s, t, at, pos + 1, CharClass::Digit);
        lemma_run_moved(s, t, at, pos + 1, CharClass::Word);
        lemma_run_within(s, pos + 1, CharClass::Digit);
        lemma_run_within(s, pos + 1, CharClass::Word);
        let digits = run_len(s, pos + 1, CharClass::Digit) as int;
        let letters = run_len(s, pos + 1, CharClass::Word) as int;
        assert(t.subrange(p + 1, p + 2 + digits) =~= s.subrange(p, p + 1 + digits)) by {
            assert forall|i: int| 0 <= i < 1 + digits implies #[trigger] t.subrange(
                p + 1,
                p + 2 + digits,
            )[i] == s.subrange(p, p + 1 + digits)[i] by {
                assert(t[(p + i) + 1] == s[p + i]);
            }
        }
        assert(t.subrange(p + 1, p + 2 + letters) =~= s.subrange(p, p + 1 + letters)) by {
            assert forall|i: int| 0 <= i < 1 + letters implies #[trigger] t.subrange(
                p + 1,
                p + 2 + letters,
            )[i] == s.subrange(p, p + 1 + letters)[i] by {
                assert(t[(p + i) + 1] == s[p + i]);
            }
        }
    }
}

/// After the place of the additional character, the tokens are the same
/// tokens, and the cursor ends one index later.
pub proof fn lemma_tokens_moved(s: Seq<char>, t: Seq<char>, at: nat, pos: nat)
    requires
        one_more_at(s, t, at),
        at <= pos,
    ensures
        tokens_from(t, pos + 1) == (Lexed {
            tokens: tokens_from(s, pos).tokens,
            end: tokens_from(s, pos).end + 1,
        }),
    decreases remaining(s.len(), pos),
{
    let p = pos as int;
    if p < s.len() {
        assert(t[p + 1] == s[p]);
        if is_space(s[p]) {
            lemma_tokens_moved(s, t, at, pos + 1);
        } else {
            lemma_token_moved(s, t, at, pos);
            let scanned = token_at(s, pos);
            if scanned.item is Ok {
                lemma_tokens_moved(s, t, at, pos + scanned.extra + 1);
            }
        }
    }
}

/// A token that ends before a separator is the same token without the
/// separator.
pub proof fn lemma_token_before_separator(s: Seq<char>, t: Seq<char>, at: nat, pos: nat)
    requires
        one_more_at(s, t, at),
        is_separator(t[at as int]),
        pos + token_at(s, pos).extra + 1 <= at,
    ensures
        token_at(t, pos) == token_at(s, pos),
{
    let p = pos as int;
    assert(t[p] == s[p]);
    if p + 1 < at {
        assert(t[p + 1] == s[p + 1]);
    }
    lemma_run_within(s, pos + 1, CharClass::Digit);
    lemma_run_within(s, pos + 1, CharClass::Word);
    let c = s[p];
    if symbol_token(c, char_of(s, pos + 1)) is None {
        let class = if is_digit(c) {
            CharClass::Digit
        } else {
            CharClass::Word
        };
        if class.has(c) {
            let to = pos + 1 + run_len(s, pos + 1, class);
            assert forall|i: int| p + 1 <= i < to implies class.has(#[trigger] t[i]) by {
                assert(t[i] == s[i]);
            }
            if to < at {
                assert(t[to as int] == s[to as int]);
            }
            lemma_run_end(t, pos + 1, to, class);
            assert(t.subrange(p, to as int) =~= s.subrange(p, to as int)) by {
                assert forall|i: int| p <= i < to implies #[trigger] t[i] == s[i] by {}
            }
        }
    }
}

/// Scanning comes to stand only at or after the index it starts from.
pub proof fn lemma_stands_after(s: Seq<char>, pos: nat, at: nat)
    requires
        stands_at(s, pos, at),
    ensures
        pos <= at,
{
}

/// White space between tokens does not change them: a separator put where
/// no token lies across leaves the tokens of the text as they are.
pub proof fn lemma_separator_between_tokens(s: Seq<char>, pos: nat, at: nat, c: char)
    requires
        pos <= at <= s.len(),
        stands_at(s, pos, at),
        is_separator(c),
    ensures
        tokens_from(s.insert(at as int, c), pos).tokens == tokens_from(s, pos).tokens,
    decreases remaining(s.len(), pos),
{
    let t = s.insert(at as int, c);
    s.insert_ensures(at as int, c);
    assert(one_more_at(s, t, at));
    if pos == at {
        lemma_tokens_moved(s, t, at, at);
    } else {
        assert(t[pos as int] == s[pos as int]);
        if is_space(s[pos as int]) {
            lemma_separator_between_tokens(s, pos + 1, at, c);
        } else {
            let scanned = token_at(s, pos);
            let next = pos + scanned.extra + 1;
            lemma_stands_after(s, next, at);
            lemma_token_before_separator(s, t, at, pos);
            if scanned.item is Ok {
                lemma_separator_between_tokens(s, next, at, c);
            }
        }
    }
}

} // verus!
