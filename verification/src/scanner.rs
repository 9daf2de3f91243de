//! The scanner: source text to tokens.
//!
//! What the scanner computes is stated by [`lex_from`], a function on the
//! characters of the source; [`Scanner::scan`] is proved to compute it.

use vstd::prelude::*;
use vstd::string::*;

use crate::error::{error_views, Error, ErrorView};
use crate::text::{push_char, same_text, string_of, chars_of};
use crate::token::{token_views, Token, TokenValue, TokenView};

verus! {

/// White space: the characters with the Unicode property `White_Space`.
pub open spec fn is_space(c: char) -> bool {
    let u = c as u32;
    ||| 0x09 <= u <= 0x0D
    ||| u == 0x20
    ||| u == 0x85
    ||| u == 0xA0
    ||| u == 0x1680
    ||| 0x2000 <= u <= 0x200A
    ||| u == 0x2028
    ||| u == 0x2029
    ||| u == 0x202F
    ||| u == 0x205F
    ||| u == 0x3000
}

/// An ASCII decimal digit.
pub open spec fn is_digit(c: char) -> bool {
    '0' <= c <= '9'
}

/// A character of an identifier: an ASCII letter or digit, or `_`.
pub open spec fn is_identifier_char(c: char) -> bool {
    is_digit(c) || 'a' <= c <= 'z' || 'A' <= c <= 'Z' || c == '_'
}

/// Number of line breaks among the first `pos` characters of `s`.
pub open spec fn newlines_before(s: Seq<char>, pos: int) -> nat
    decreases pos,
{
    if pos <= 0 || pos > s.len() {
        0
    } else if s[pos - 1] == '\n' {
        newlines_before(s, pos - 1) + 1
    } else {
        newlines_before(s, pos - 1)
    }
}

/// The line, counted from 1, on which position `pos` of `s` stands.
pub open spec fn line_at(s: Seq<char>, pos: int) -> nat {
    1 + newlines_before(s, pos)
}

/// First position at or after `pos` that holds no white space.
pub open spec fn skip_spaces(s: Seq<char>, pos: int) -> int
    decreases s.len() - pos,
{
    if 0 <= pos < s.len() && is_space(s[pos]) {
        skip_spaces(s, pos + 1)
    } else {
        pos
    }
}

/// End of the run of digits that starts at `pos`.
pub open spec fn digits_end(s: Seq<char>, pos: int) -> int
    decreases s.len() - pos,
{
    if 0 <= pos < s.len() && is_digit(s[pos]) {
        digits_end(s, pos + 1)
    } else {
        pos
    }
}

/// End of the run of identifier characters that starts at `pos`.
pub open spec fn identifier_end(s: Seq<char>, pos: int) -> int
    decreases s.len() - pos,
{
    if 0 <= pos < s.len() && is_identifier_char(s[pos]) {
        identifier_end(s, pos + 1)
    } else {
        pos
    }
}

/// Position of the line break that ends the line of `pos`, or the end of
/// the text.
pub open spec fn line_end(s: Seq<char>, pos: int) -> int
    decreases s.len() - pos,
{
    if 0 <= pos < s.len() && s[pos] != '\n' {
        line_end(s, pos + 1)
    } else {
        pos
    }
}

/// The category of a word: that of the keyword it spells, else
/// `Identifier`.
pub open spec fn keyword(word: Seq<char>) -> TokenValue {
    if word == "function"@ {
        TokenValue::Function
    } else if word == "if"@ {
        TokenValue::If
    } else if word == "else"@ {
        TokenValue::Else
    } else if word == "let"@ {
        TokenValue::Let
    } else if word == "print"@ {
        TokenValue::Print
    } else if word == "return"@ {
        TokenValue::Return
    } else if word == "while"@ {
        TokenValue::While
    } else if word == "true"@ {
        TokenValue::True
    } else if word == "false"@ {
        TokenValue::False
    } else if word == "break"@ {
        TokenValue::Break
    } else {
        TokenValue::Identifier
    }
}

/// What stands at one position of the source.
pub enum Lexeme {
    Token(TokenView),
    Comment,
    Error(ErrorView),
}

/// One scanning step: what was found, and where the next step starts.
pub struct Lexed {
    pub item: Lexeme,
    pub next: int,
}

/// The token of category `val` formed from `s[from..to]`.
pub open spec fn token_of(s: Seq<char>, val: TokenValue, from: int, to: int) -> Lexed {
    Lexed {
        item: Lexeme::Token(
            TokenView { val, lexeme: s.subrange(from, to), line: line_at(s, from) as usize },
        ),
        next: to,
    }
}

/// A two-character operator whose first character stands at `pos`: the
/// token if `second` follows, else an error located at what follows.
pub open spec fn pair_of(
    s: Seq<char>,
    pos: int,
    second: char,
    val: TokenValue,
    msg: Seq<char>,
) -> Lexed {
    if pos + 1 < s.len() && s[pos + 1] == second {
        token_of(s, val, pos, pos + 2)
    } else {
        Lexed {
            item: Lexeme::Error(
                ErrorView {
                    line: line_at(s, pos) as usize,
                    location: if pos + 1 < s.len() {
                        seq![s[pos + 1]]
                    } else {
                        "end"@
                    },
                    msg,
                },
            ),
            next: pos + 1,
        }
    }
}

/// What stands at `pos`, a position within `s` that holds no white space.
pub open spec fn lex_at(s: Seq<char>, pos: int) -> Lexed {
    let c = s[pos];
    if c == '(' {
        token_of(s, TokenValue::LeftParen, pos, pos + 1)
    } else if c == ')' {
        token_of(s, TokenValue::RightParen, pos, pos + 1)
    } else if c == '{' {
        token_of(s, TokenValue::LeftBrace, pos, pos + 1)
    } else if c == '}' {
        token_of(s, TokenValue::RightBrace, pos, pos + 1)
    } else if c == '*' {
        token_of(s, TokenValue::Star, pos, pos + 1)
    } else if c == '/' {
        if pos + 1 < s.len() && s[pos + 1] == '/' {
            Lexed { item: Lexeme::Comment, next: line_end(s, pos + 2) }
        } else {
            token_of(s, TokenValue::Slash, pos, pos + 1)
        }
    } else if c == '+' {
        token_of(s, TokenValue::Plus, pos, pos + 1)
    } else if c == '-' {
        token_of(s, TokenValue::Minus, pos, pos + 1)
    } else if c == '?' {
        token_of(s, TokenValue::Question, pos, pos + 1)
    } else if c == ':' {
        token_of(s, TokenValue::Colon, pos, pos + 1)
    } else if c == ';' {
        token_of(s, TokenValue::Semicolon, pos, pos + 1)
    } else if c == '=' {
        token_of(s, TokenValue::Equal, pos, pos + 1)
    } else if c == ',' {
        token_of(s, TokenValue::Comma, pos, pos + 1)
    } else if c == '&' {
        pair_of(s, pos, '&', TokenValue::And, "Expected '&'."@)
    } else if c == '|' {
        pair_of(s, pos, '|', TokenValue::Or, "Expected '|'."@)
    } else if is_digit(c) {
        token_of(s, TokenValue::Number, pos, digits_end(s, pos + 1))
    } else if is_identifier_char(c) {
        let end = identifier_end(s, pos + 1);
        token_of(s, keyword(s.subrange(pos, end)), pos, end)
    } else {
        Lexed {
            item: Lexeme::Error(
                ErrorView {
                    line: line_at(s, pos) as usize,
                    location: seq![c],
                    msg: "Unexpected character."@,
                },
            ),
            next: pos + 1,
        }
    }
}

/// The tokens and the errors of a scan.
pub struct Lexing {
    pub tokens: Seq<TokenView>,
    pub errors: Seq<ErrorView>,
}

/// The end-of-input marker of `s`: an empty lexeme on the last line.
pub open spec fn end_marker(s: Seq<char>) -> TokenView {
    TokenView {
        val: TokenValue::EOF,
        lexeme: Seq::empty(),
        line: line_at(s, s.len() as int) as usize,
    }
}

/// Everything the scanner finds in `s` from `pos` on: the tokens in
/// source order, closed by the end-of-input marker, and every error.
pub open spec fn lex_from(s: Seq<char>, pos: int) -> Lexing
    decreases s.len() - pos,
    via lex_from_decreases
{
    let p = skip_spaces(s, pos);
    if 0 <= p < s.len() {
        let step = lex_at(s, p);
        let rest = lex_from(s, step.next);
        match step.item {
            Lexeme::Token(t) => Lexing { tokens: seq![t] + rest.tokens, errors: rest.errors },
            Lexeme::Comment => rest,
            Lexeme::Error(e) => Lexing { tokens: rest.tokens, errors: seq![e] + rest.errors },
        }
    } else {
        Lexing { tokens: seq![end_marker(s)], errors: Seq::empty() }
    }
}

#[via_fn]
proof fn lex_from_decreases(s: Seq<char>, pos: int) {
    let p = skip_spaces(s, pos);
    if 0 <= p < s.len() {
        lemma_skip_spaces(s, pos);
        lemma_lex_at_advances(s, p);
    }
}

/// What scanning all of `s` yields.
pub open spec fn lex(s: Seq<char>) -> Lexing {
    lex_from(s, 0)
}

pub proof fn lemma_newlines_bound(s: Seq<char>, pos: int)
    ensures
        newlines_before(s, pos) <= pos || pos <= 0,
        pos <= 0 ==> newlines_before(s, pos) == 0,
    decreases pos,
{
    if pos > 0 && pos <= s.len() {
        lemma_newlines_bound(s, pos - 1);
    }
}

pub proof fn lemma_skip_spaces(s: Seq<char>, pos: int)
    requires
        0 <= pos <= s.len(),
    ensures
        pos <= skip_spaces(s, pos) <= s.len(),
        skip_spaces(s, pos) < s.len() ==> !is_space(s[skip_spaces(s, pos)]),
    decreases s.len() - pos,
{
    if pos < s.len() && is_space(s[pos]) {
        lemma_skip_spaces(s, pos + 1);
    }
}

pub proof fn lemma_digits_end(s: Seq<char>, pos: int)
    requires
        0 <= pos <= s.len(),
    ensures
        pos <= digits_end(s, pos) <= s.len(),
    decreases s.len() - pos,
{
    if pos < s.len() && is_digit(s[pos]) {
        lemma_digits_end(s, pos + 1);
    }
}

pub proof fn lemma_identifier_end(s: Seq<char>, pos: int)
    requires
        0 <= pos <= s.len(),
    ensures
        pos <= identifier_end(s, pos) <= s.len(),
    decreases s.len() - pos,
{
    if pos < s.len() && is_identifier_char(s[pos]) {
        lemma_identifier_end(s, pos + 1);
    }
}

pub proof fn lemma_line_end(s: Seq<char>, pos: int)
    requires
        0 <= pos <= s.len(),
    ensures
        pos <= line_end(s, pos) <= s.len(),
    decreases s.len() - pos,
{
    if pos < s.len() && s[pos] != '\n' {
        lemma_line_end(s, pos + 1);
    }
}

/// Every scanning step consumes at least one character and stays within
/// the text.
pub proof fn lemma_lex_at_advances(s: Seq<char>, pos: int)
    requires
        0 <= pos < s.len(),
    ensures
        pos < lex_at(s, pos).next <= s.len(),
{
    lemma_digits_end(s, pos + 1);
    lemma_identifier_end(s, pos + 1);
    if pos + 1 < s.len() {
        lemma_line_end(s, pos + 2);
    }
}

/// The tokens of a scan end with the end-of-input marker, and it is the
/// only one.
pub proof fn lemma_lex_terminated(s: Seq<char>, pos: int)
    requires
        0 <= pos <= s.len(),
    ensures
        lex_from(s, pos).tokens.len() > 0,
        lex_from(s, pos).tokens.last() == end_marker(s),
        forall|i: int|
            0 <= i < lex_from(s, pos).tokens.len() - 1 ==> #[trigger] lex_from(s, pos).tokens[i].val
                != TokenValue::EOF,
    decreases s.len() - pos,
{
    lemma_skip_spaces(s, pos);
    let p = skip_spaces(s, pos);
    if 0 <= p < s.len() {
        lemma_lex_at_advances(s, p);
        let step = lex_at(s, p);
        lemma_lex_terminated(s, step.next);
        let rest = lex_from(s, step.next);
        match step.item {
            Lexeme::Token(t) => {
                assert(t.val != TokenValue::EOF);
                let all = seq![t] + rest.tokens;
                assert(all.last() == rest.tokens.last());
                assert forall|i: int| 0 <= i < all.len() - 1 implies #[trigger] all[i].val
                    != TokenValue::EOF by {
                    if i > 0 {
                        assert(all[i] == rest.tokens[i - 1]);
                    }
                }
            },
            _ => {},
        }
    }
}

/// The line of a position does not decrease with the position.
pub proof fn lemma_line_at_grows(s: Seq<char>, from: int, to: int)
    requires
        from <= to <= s.len(),
    ensures
        line_at(s, from) <= line_at(s, to),
    decreases to - from,
{
    if from < to {
        lemma_line_at_grows(s, from, to - 1);
        lemma_newlines_bound(s, to - 1);
    }
}

/// Whether `t` was formed from a part of `s` that is not empty, starts at
/// or after `least`, and stands on the line of `t`.
pub open spec fn in_source(s: Seq<char>, t: TokenView, least: int) -> bool {
    exists|from: int, to: int|
        least <= from < to <= s.len() && t.lexeme == #[trigger] s.subrange(from, to) && t.line
            == line_at(s, from) as usize
}

/// Every token but the end-of-input marker was formed from a part of the
/// source that is not empty.
pub proof fn lemma_tokens_come_from_the_source(s: Seq<char>, pos: int)
    requires
        0 <= pos <= s.len(),
    ensures
        forall|i: int|
            0 <= i < lex_from(s, pos).tokens.len() - 1 ==> in_source(
                s,
                #[trigger] lex_from(s, pos).tokens[i],
                pos,
            ),
    decreases s.len() - pos,
{
    lemma_skip_spaces(s, pos);
    let p = skip_spaces(s, pos);
    if 0 <= p < s.len() {
        lemma_lex_at_advances(s, p);
        let step = lex_at(s, p);
        lemma_tokens_come_from_the_source(s, step.next);
        lemma_lex_terminated(s, step.next);
        let rest = lex_from(s, step.next);
        let all = lex_from(s, pos).tokens;
        assert forall|i: int| 0 <= i < all.len() - 1 implies in_source(s, #[trigger] all[i], pos) by {
            match step.item {
                Lexeme::Token(t) => {
                    if i == 0 {
                        assert(t.lexeme == s.subrange(p, step.next));
                    } else {
                        assert(all[i] == rest.tokens[i - 1]);
                        assert(in_source(s, rest.tokens[i - 1], step.next));
                    }
                },
                _ => {
                    assert(in_source(s, rest.tokens[i], step.next));
                },
            }
        }
    }
}

/// The lines of the tokens never decrease, and none lies before the line
/// at which scanning started.
pub proof fn lemma_lines_never_decrease(s: Seq<char>, pos: int)
    requires
        0 <= pos <= s.len(),
        s.len() < usize::MAX,
    ensures
        forall|i: int|
            0 <= i < lex_from(s, pos).tokens.len() ==> line_at(s, pos) <= (#[trigger] lex_from(
                s,
                pos,
            ).tokens[i]).line,
        forall|i: int, j: int|
            0 <= i <= j < lex_from(s, pos).tokens.len() ==> (#[trigger] lex_from(
                s,
                pos,
            ).tokens[i]).line <= (#[trigger] lex_from(s, pos).tokens[j]).line,
    decreases s.len() - pos,
{
    lemma_skip_spaces(s, pos);
    lemma_newlines_bound(s, s.len() as int);
    let p = skip_spaces(s, pos);
    let all = lex_from(s, pos).tokens;
    if 0 <= p < s.len() {
        lemma_lex_at_advances(s, p);
        let step = lex_at(s, p);
        lemma_lines_never_decrease(s, step.next);
        lemma_line_at_grows(s, pos, p);
        lemma_line_at_grows(s, p, step.next);
        lemma_line_at_grows(s, p, s.len() as int);
        lemma_newlines_bound(s, p);
        let rest = lex_from(s, step.next).tokens;
        match step.item {
            Lexeme::Token(t) => {
                assert(t.line == line_at(s, p));
                assert forall|i: int| 0 <= i < all.len() implies line_at(s, pos) <= (
                #[trigger] all[i]).line by {
                    if i > 0 {
                        assert(all[i] == rest[i - 1]);
                    }
                }
                assert forall|i: int, j: int| 0 <= i <= j < all.len() implies (
                #[trigger] all[i]).line <= (#[trigger] all[j]).line by {
                    if i > 0 {
                        assert(all[i] == rest[i - 1]);
                        assert(all[j] == rest[j - 1]);
                    } else if j > 0 {
                        assert(all[j] == rest[j - 1]);
                    }
                }
            },
            _ => {},
        }
    } else {
        lemma_line_at_grows(s, pos, s.len() as int);
    }
}

/// Whether `c` is white space.
pub fn is_whitespace(c: char) -> (b: bool)
    ensures
        b == is_space(c),
{
    let u = c as u32;
    (0x09 <= u && u <= 0x0D) || u == 0x20 || u == 0x85 || u == 0xA0 || u == 0x1680 || (0x2000 <= u
        && u <= 0x200A) || u == 0x2028 || u == 0x2029 || u == 0x202F || u == 0x205F || u == 0x3000
}

/// Whether `c` is an ASCII decimal digit.
pub fn is_ascii_digit(c: char) -> (b: bool)
    ensures
        b == is_digit(c),
{
    '0' <= c && c <= '9'
}

/// What a scanning step handed back, in the terms of [`lex_at`].
pub open spec fn lexeme_of(r: Result<Option<Token>, Error>) -> Lexeme {
    match r {
        Ok(Some(t)) => Lexeme::Token(t@),
        Ok(None) => Lexeme::Comment,
        Err(e) => Lexeme::Error(e@),
    }
}

/// Whether `r` hands out the tokens of `l` if it found no error, and else
/// its errors.
pub open spec fn is_outcome(r: Result<Vec<Token>, Vec<Error>>, l: Lexing) -> bool {
    match r {
        Ok(tokens) => l.errors.len() == 0 && token_views(tokens@) == l.tokens,
        Err(errors) => l.errors.len() > 0 && error_views(errors@) == l.errors,
    }
}

/// A scanner over one source text.
#[derive(Debug)]
pub struct Scanner {
    src: Vec<char>,
    start: usize,
    current: usize,
    line: usize,
}

impl Scanner {
    /// The characters of the source.
    pub closed spec fn source(&self) -> Seq<char> {
        self.src@
    }

    /// The position from which scanning goes on.
    pub closed spec fn position(&self) -> int {
        self.current as int
    }

    /// The scanner stands within its source and knows its line.
    pub closed spec fn wf(&self) -> bool {
        &&& self.src.len() < usize::MAX
        &&& self.start <= self.current <= self.src.len()
        &&& self.line == line_at(self.src@, self.current as int)
    }

    /// A scanner at the start of `src`.
    pub fn new(src: String) -> (s: Scanner)
        requires
            src@.len() < usize::MAX,
        ensures
            s.wf(),
            s.source() == src@,
            s.position() == 0,
    {
        Scanner { src: chars_of(src.as_str()), start: 0, current: 0, line: 1 }
    }

    /// Scans the rest of the source.  Returns the tokens, closed by the
    /// end-of-input marker, if no error was found, and else every error.
    pub fn scan(&mut self) -> (r: Result<Vec<Token>, Vec<Error>>)
        requires
            old(self).wf(),
        ensures
            final(self).wf(),
            final(self).source() == old(self).source(),
            final(self).position() == old(self).source().len(),
            is_outcome(r, lex_from(old(self).source(), old(self).position())),
    {
        let mut tokens: Vec<Token> = Vec::new();
        let mut errors: Vec<Error> = Vec::new();
        let ghost s = self.src@;
        let ghost all = lex_from(s, self.current as int);

        loop
            invariant
                self.wf(),
                self.src@ == s,
                all.tokens == token_views(tokens@) + lex_from(s, self.current as int).tokens,
                all.errors == error_views(errors@) + lex_from(s, self.current as int).errors,
            ensures
                self.wf(),
                self.src@ == s,
                self.current == s.len(),
                all.tokens == token_views(tokens@).push(end_marker(s)),
                all.errors == error_views(errors@),
            decreases s.len() - self.current,
        {
            proof {
                lemma_skip_spaces(s, self.current as int);
            }
            self.skip_whitespaces();
            if self.is_at_end() {
                break;
            }
            let ghost p = self.current as int;
            let ghost rest = lex_from(s, lex_at(s, p).next);
            let ghost found = token_views(tokens@);
            let ghost failed = error_views(errors@);
            proof {
                lemma_lex_at_advances(s, p);
            }
            match self.scan_token() {
                Ok(Some(token)) => {
                    tokens.push(token);
                    assert(token_views(tokens@) + rest.tokens == found + (seq![token@]
                        + rest.tokens));
                },
                Ok(None) => {},
                Err(error) => {
                    errors.push(error);
                    assert(error_views(errors@) + rest.errors == failed + (seq![error@]
                        + rest.errors));
                },
            }
        }

        self.start = self.current;
        let end = self.make_token(TokenValue::EOF);
        let ghost found = token_views(tokens@);
        assert(end@.lexeme =~= Seq::empty());
        assert(end@ == end_marker(s));
        tokens.push(end);
        assert(token_views(tokens@) =~= found.push(end_marker(s)));
        if errors.len() == 0 {
            Ok(tokens)
        } else {
            Err(errors)
        }
    }

    /// Scans what stands at the current position, which holds no white
    /// space: a token, a comment (`None`) or an error.
    fn scan_token(&mut self) -> (r: Result<Option<Token>, Error>)
        requires
            old(self).wf(),
            old(self).current < old(self).src.len(),
            !is_space(old(self).src@[old(self).current as int]),
        ensures
            final(self).wf(),
            final(self).src@ == old(self).src@,
            final(self).current == lex_at(old(self).src@, old(self).current as int).next,
            lexeme_of(r) == lex_at(old(self).src@, old(self).current as int).item,
    {
        self.start = self.current;
        let c = self.advance();
        if c == '(' {
            Ok(Some(self.make_token(TokenValue::LeftParen)))
        } else if c == ')' {
            Ok(Some(self.make_token(TokenValue::RightParen)))
        } else if c == '{' {
            Ok(Some(self.make_token(TokenValue::LeftBrace)))
        } else if c == '}' {
            Ok(Some(self.make_token(TokenValue::RightBrace)))
        } else if c == '*' {
            Ok(Some(self.make_token(TokenValue::Star)))
        } else if c == '/' {
            if !self.is_at_end() && self.peek() == '/' {
                self.advance();
                while !self.is_at_end() && self.peek() != '\n'
                    invariant
                        self.wf(),
                        self.src@ == old(self).src@,
                        old(self).current + 2 <= self.current,
                        line_end(self.src@, old(self).current + 2) == line_end(
                            self.src@,
                            self.current as int,
                        ),
                    decreases self.src.len() - self.current,
                {
                    self.advance();
                }
                Ok(None)
            } else {
                Ok(Some(self.make_token(TokenValue::Slash)))
            }
        } else if c == '+' {
            Ok(Some(self.make_token(TokenValue::Plus)))
        } else if c == '-' {
            Ok(Some(self.make_token(TokenValue::Minus)))
        } else if c == '?' {
            Ok(Some(self.make_token(TokenValue::Question)))
        } else if c == ':' {
            Ok(Some(self.make_token(TokenValue::Colon)))
        } else if c == ';' {
            Ok(Some(self.make_token(TokenValue::Semicolon)))
        } else if c == '=' {
            Ok(Some(self.make_token(TokenValue::Equal)))
        } else if c == ',' {
            Ok(Some(self.make_token(TokenValue::Comma)))
        } else if c == '&' {
            self.two_letter_op_or_error('&', TokenValue::And, "Expected '&'.")
        } else if c == '|' {
            self.two_letter_op_or_error('|', TokenValue::Or, "Expected '|'.")
        } else if is_ascii_digit(c) {
            Ok(Some(self.number()))
        } else if Self::is_identifier_char(c) {
            Ok(Some(self.identifier()))
        } else {
            let mut location = String::new();
            push_char(&mut location, c);
            Err(self.error(location.as_str(), "Unexpected character."))
        }
    }

    /// Moves past the white space at the current position, counting the
    /// lines.
    fn skip_whitespaces(&mut self)
        requires
            old(self).wf(),
        ensures
            final(self).wf(),
            final(self).src@ == old(self).src@,
            final(self).current == skip_spaces(old(self).src@, old(self).current as int),
            final(self).current < final(self).src.len() ==> !is_space(
                final(self).src@[final(self).current as int],
            ),
    {
        while !self.is_at_end() && is_whitespace(self.peek())
            invariant
                self.wf(),
                self.src@ == old(self).src@,
                skip_spaces(self.src@, old(self).current as int) == skip_spaces(
                    self.src@,
                    self.current as int,
                ),
            decreases self.src.len() - self.current,
        {
            proof {
                lemma_newlines_bound(self.src@, self.current as int);
            }
            if self.peek() == '\n' {
                self.line += 1;
            }
            self.current += 1;
        }
    }

    /// The second character of a two-character operator: the token if it
    /// stands at the current position, else an error located at what does.
    fn two_letter_op_or_error(&mut self, second: char, op: TokenValue, msg: &str) -> (r: Result<
        Option<Token>,
        Error,
    >)
        requires
            old(self).wf(),
            old(self).start + 1 == old(self).current,
            old(self).src@[old(self).start as int] != '\n',
            second != '\n',
        ensures
            final(self).wf(),
            final(self).src@ == old(self).src@,
            final(self).current == pair_of(
                old(self).src@,
                old(self).start as int,
                second,
                op,
                msg@,
            ).next,
            lexeme_of(r) == pair_of(old(self).src@, old(self).start as int, second, op, msg@).item,
    {
        if !self.is_at_end() && self.peek() == second {
            self.advance();
            Ok(Some(self.make_token(op)))
        } else if self.is_at_end() {
            Err(self.error("end", msg))
        } else {
            let mut location = String::new();
            push_char(&mut location, self.peek());
            Err(self.error(location.as_str(), msg))
        }
    }

    /// The number whose first digit was just consumed.
    fn number(&mut self) -> (t: Token)
        requires
            old(self).wf(),
            old(self).start + 1 == old(self).current,
            old(self).src@[old(self).start as int] != '\n',
        ensures
            final(self).wf(),
            final(self).src@ == old(self).src@,
            final(self).current == digits_end(old(self).src@, old(self).current as int),
            Lexeme::Token(t@) == token_of(
                old(self).src@,
                TokenValue::Number,
                old(self).start as int,
                final(self).current as int,
            ).item,
    {
        while !self.is_at_end() && is_ascii_digit(self.peek())
            invariant
                self.wf(),
                self.src@ == old(self).src@,
                self.start == old(self).start,
                self.start < self.current,
                self.line == line_at(self.src@, self.start as int),
                digits_end(self.src@, old(self).current as int) == digits_end(
                    self.src@,
                    self.current as int,
                ),
            decreases self.src.len() - self.current,
        {
            self.advance();
        }
        self.make_token(TokenValue::Number)
    }

    /// The identifier or keyword whose first character was just consumed.
    fn identifier(&mut self) -> (t: Token)
        requires
            old(self).wf(),
            old(self).start + 1 == old(self).current,
            old(self).src@[old(self).start as int] != '\n',
        ensures
            final(self).wf(),
            final(self).src@ == old(self).src@,
            final(self).current == identifier_end(old(self).src@, old(self).current as int),
            Lexeme::Token(t@) == token_of(
                old(self).src@,
                keyword(
                    old(self).src@.subrange(old(self).start as int, final(self).current as int),
                ),
                old(self).start as int,
                final(self).current as int,
            ).item,
    {
        while !self.is_at_end() && Self::is_identifier_char(self.peek())
            invariant
                self.wf(),
                self.src@ == old(self).src@,
                self.start == old(self).start,
                self.start < self.current,
                self.line == line_at(self.src@, self.start as int),
                identifier_end(self.src@, old(self).current as int) == identifier_end(
                    self.src@,
                    self.current as int,
                ),
            decreases self.src.len() - self.current,
        {
            self.advance();
        }
        let lexeme = self.lexeme();
        let word = lexeme.as_str();
        if same_text(word, "function") {
            self.make_token(TokenValue::Function)
        } else if same_text(word, "if") {
            self.make_token(TokenValue::If)
        } else if same_text(word, "else") {
            self.make_token(TokenValue::Else)
        } else if same_text(word, "let") {
            self.make_token(TokenValue::Let)
        } else if same_text(word, "print") {
            self.make_token(TokenValue::Print)
        } else if same_text(word, "return") {
            self.make_token(TokenValue::Return)
        } else if same_text(word, "while") {
            self.make_token(TokenValue::While)
        } else if same_text(word, "true") {
            self.make_token(TokenValue::True)
        } else if same_text(word, "false") {
            self.make_token(TokenValue::False)
        } else if same_text(word, "break") {
            self.make_token(TokenValue::Break)
        } else {
            self.make_token(TokenValue::Identifier)
        }
    }

    /// Whether `c` may stand in an identifier.
    fn is_identifier_char(c: char) -> (b: bool)
        ensures
            b == is_identifier_char(c),
    {
        is_ascii_digit(c) || ('a' <= c && c <= 'z') || ('A' <= c && c <= 'Z') || c == '_'
    }

    /// The token of category `val` whose text lies between the scanner's
    /// start mark and its position.
    fn make_token(&self, val: TokenValue) -> (t: Token)
        requires
            self.start <= self.current <= self.src.len(),
        ensures
            t@ == (TokenView {
                val,
                lexeme: self.src@.subrange(self.start as int, self.current as int),
                line: self.line,
            }),
    {
        Token::new(val, self.lexeme(), self.line)
    }

    /// The text between the start mark and the position.
    fn lexeme(&self) -> (s: String)
        requires
            self.start <= self.current <= self.src.len(),
        ensures
            s@ == self.src@.subrange(self.start as int, self.current as int),
    {
        string_of(&self.src, self.start, self.current)
    }

    /// Consumes the character at the current position, which is no line
    /// break.
    fn advance(&mut self) -> (c: char)
        requires
            old(self).wf(),
            old(self).current < old(self).src.len(),
            old(self).src@[old(self).current as int] != '\n',
        ensures
            final(self).wf(),
            final(self).src@ == old(self).src@,
            final(self).start == old(self).start,
            final(self).line == old(self).line,
            final(self).current == old(self).current + 1,
            c == old(self).src@[old(self).current as int],
    {
        self.current += 1;
        self.src[self.current - 1]
    }

    fn is_at_end(&self) -> (b: bool)
        ensures
            b == (self.current >= self.src.len()),
    {
        self.current >= self.src.len()
    }

    /// The character at the current position, or NUL at the end.
    fn peek(&self) -> (c: char)
        ensures
            c == if self.current < self.src.len() {
                self.src@[self.current as int]
            } else {
                '\0'
            },
    {
        if self.is_at_end() {
            '\0'
        } else {
            self.src[self.current]
        }
    }

    /// An error on the scanner's line.
    fn error(&self, location: &str, msg: &str) -> (e: Error)
        ensures
            e@ == (ErrorView { line: self.line, location: location@, msg: msg@ }),
    {
        Error::new(self.line, location, msg)
    }
}

} // verus!
