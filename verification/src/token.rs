//! The lexical categories and the tokens that the scanner emits.

use vstd::prelude::*;
use vstd::string::*;

use crate::text::{canonical, canonical_string, decimal, decimal_string};

verus! {

/// Lexical category of a token.
#[derive(Debug, PartialEq, Eq, Clone, Copy, Structural)]
pub enum TokenValue {
    LeftParen,
    RightParen,
    LeftBrace,
    RightBrace,
    Plus,
    Minus,
    Star,
    Slash,
    Question,
    Colon,
    Semicolon,
    Equal,
    Comma,
    And,
    Or,
    Identifier,
    /// A run of decimal digits; the token's lexeme holds them.
    Number,
    True,
    False,
    Function,
    If,
    Else,
    Let,
    Print,
    Return,
    While,
    Break,
    EOF,
}

impl TokenValue {
    /// How a message names the category: the text itself for punctuation,
    /// operators and keywords, `id` for identifiers, `number` for numbers
    /// and `end` for the end of input.
    pub open spec fn text(self) -> Seq<char> {
        match self {
            TokenValue::LeftParen => "("@,
            TokenValue::RightParen => ")"@,
            TokenValue::LeftBrace => "{"@,
            TokenValue::RightBrace => "}"@,
            TokenValue::Plus => "+"@,
            TokenValue::Minus => "-"@,
            TokenValue::Star => "*"@,
            TokenValue::Slash => "/"@,
            TokenValue::Question => "?"@,
            TokenValue::Colon => ":"@,
            TokenValue::Semicolon => ";"@,
            TokenValue::Equal => "="@,
            TokenValue::Comma => ","@,
            TokenValue::And => "&&"@,
            TokenValue::Or => "||"@,
            TokenValue::Identifier => "id"@,
            TokenValue::Number => "number"@,
            TokenValue::True => "true"@,
            TokenValue::False => "false"@,
            TokenValue::Function => "function"@,
            TokenValue::If => "if"@,
            TokenValue::Else => "else"@,
            TokenValue::Let => "let"@,
            TokenValue::Print => "print"@,
            TokenValue::Return => "return"@,
            TokenValue::While => "while"@,
            TokenValue::Break => "break"@,
            TokenValue::EOF => "end"@,
        }
    }

    /// The category's own name.
    pub open spec fn name(self) -> Seq<char> {
        match self {
            TokenValue::LeftParen => "LeftParen"@,
            TokenValue::RightParen => "RightParen"@,
            TokenValue::LeftBrace => "LeftBrace"@,
            TokenValue::RightBrace => "RightBrace"@,
            TokenValue::Plus => "Plus"@,
            TokenValue::Minus => "Minus"@,
            TokenValue::Star => "Star"@,
            TokenValue::Slash => "Slash"@,
            TokenValue::Question => "Question"@,
            TokenValue::Colon => "Colon"@,
            TokenValue::Semicolon => "Semicolon"@,
            TokenValue::Equal => "Equal"@,
            TokenValue::Comma => "Comma"@,
            TokenValue::And => "And"@,
            TokenValue::Or => "Or"@,
            TokenValue::Identifier => "Identifier"@,
            TokenValue::Number => "Number"@,
            TokenValue::True => "True"@,
            TokenValue::False => "False"@,
            TokenValue::Function => "Function"@,
            TokenValue::If => "If"@,
            TokenValue::Else => "Else"@,
            TokenValue::Let => "Let"@,
            TokenValue::Print => "Print"@,
            TokenValue::Return => "Return"@,
            TokenValue::While => "While"@,
            TokenValue::Break => "Break"@,
            TokenValue::EOF => "EOF"@,
        }
    }

    /// How a message names the category.
    pub fn symbol(&self) -> (s: &'static str)
        ensures
            s@ == self.text(),
    {
        match self {
            TokenValue::LeftParen => "(",
            TokenValue::RightParen => ")",
            TokenValue::LeftBrace => "{",
            TokenValue::RightBrace => "}",
            TokenValue::Plus => "+",
            TokenValue::Minus => "-",
            TokenValue::Star => "*",
            TokenValue::Slash => "/",
            TokenValue::Question => "?",
            TokenValue::Colon => ":",
            TokenValue::Semicolon => ";",
            TokenValue::Equal => "=",
            TokenValue::Comma => ",",
            TokenValue::And => "&&",
            TokenValue::Or => "||",
            TokenValue::Identifier => "id",
            TokenValue::Number => "number",
            TokenValue::True => "true",
            TokenValue::False => "false",
            TokenValue::Function => "function",
            TokenValue::If => "if",
            TokenValue::Else => "else",
            TokenValue::Let => "let",
            TokenValue::Print => "print",
            TokenValue::Return => "return",
            TokenValue::While => "while",
            TokenValue::Break => "break",
            TokenValue::EOF => "end",
        }
    }

    /// The category's own name.
    pub fn label(&self) -> (s: &'static str)
        ensures
            s@ == self.name(),
    {
        match self {
            TokenValue::LeftParen => "LeftParen",
            TokenValue::RightParen => "RightParen",
            TokenValue::LeftBrace => "LeftBrace",
            TokenValue::RightBrace => "RightBrace",
            TokenValue::Plus => "Plus",
            TokenValue::Minus => "Minus",
            TokenValue::Star => "Star",
            TokenValue::Slash => "Slash",
            TokenValue::Question => "Question",
            TokenValue::Colon => "Colon",
            TokenValue::Semicolon => "Semicolon",
            TokenValue::Equal => "Equal",
            TokenValue::Comma => "Comma",
            TokenValue::And => "And",
            TokenValue::Or => "Or",
            TokenValue::Identifier => "Identifier",
            TokenValue::Number => "Number",
            TokenValue::True => "True",
            TokenValue::False => "False",
            TokenValue::Function => "Function",
            TokenValue::If => "If",
            TokenValue::Else => "Else",
            TokenValue::Let => "Let",
            TokenValue::Print => "Print",
            TokenValue::Return => "Return",
            TokenValue::While => "While",
            TokenValue::Break => "Break",
            TokenValue::EOF => "EOF",
        }
    }

    /// The text that names the category in a message.
    pub fn to_text(&self) -> (s: String)
        ensures
            s@ == self.text(),
    {
        String::from_str(self.symbol())
    }
}

/// A token: its category, the source text it was formed from and the line
/// on which it stands.
#[derive(Debug, PartialEq, Eq)]
pub struct Token {
    pub val: TokenValue,
    pub lexeme: String,
    pub line: usize,
}

/// Mathematical content of a [`Token`].
pub struct TokenView {
    pub val: TokenValue,
    pub lexeme: Seq<char>,
    pub line: usize,
}

impl View for Token {
    type V = TokenView;

    open spec fn view(&self) -> TokenView {
        TokenView { val: self.val, lexeme: self.lexeme@, line: self.line }
    }
}

/// The views of a sequence of tokens.
pub open spec fn token_views(tokens: Seq<Token>) -> Seq<TokenView> {
    Seq::new(tokens.len(), |i: int| tokens[i]@)
}

/// Rendering of one token: `(NAME 'LEXEME' LINE)`.  A number shows
/// after the name the digits of its lexeme, without leading zeros and
/// with `.0` behind them: `(Number(12.0) '12' 1)`.  This is the rendering
/// of the digits, not of the double-precision number that they are read
/// as: the two agree for a number of up to 15 digits; a longer one shows
/// here in full, where the double may round it or show an exponent.
pub open spec fn token_text(t: TokenView) -> Seq<char> {
    let name = if t.val == TokenValue::Number {
        "Number("@ + canonical(t.lexeme) + ".0)"@
    } else {
        t.val.name()
    };
    "("@ + name + " '"@ + t.lexeme + "' "@ + decimal(t.line as nat) + ")"@
}

/// Rendering of a token sequence: one token per line.
pub open spec fn tokens_text(tokens: Seq<TokenView>) -> Seq<char>
    decreases tokens.len(),
{
    if tokens.len() == 0 {
        Seq::empty()
    } else {
        tokens_text(tokens.drop_last()) + token_text(tokens.last()) + "\n"@
    }
}

impl Clone for Token {
    fn clone(&self) -> (r: Self)
        ensures
            r@ == self@,
    {
        Token { val: self.val, lexeme: self.lexeme.clone(), line: self.line }
    }
}

impl Token {
    /// The token of category `val` formed from `lexeme` on line `line`.
    pub fn new(val: TokenValue, lexeme: String, line: usize) -> (t: Token)
        ensures
            t@ == (TokenView { val, lexeme: lexeme@, line }),
    {
        Token { val, lexeme, line }
    }

    /// The token's rendering.
    pub fn to_text(&self) -> (s: String)
        ensures
            s@ == token_text(self@),
    {
        let mut s = String::from_str("(");
        if self.val == TokenValue::Number {
            s.append("Number(");
            let digits = canonical_string(self.lexeme.as_str());
            s.append(digits.as_str());
            s.append(".0)");
        } else {
            s.append(self.val.label());
        }
        s.append(" '");
        s.append(self.lexeme.as_str());
        s.append("' ");
        let line = decimal_string(self.line);
        s.append(line.as_str());
        s.append(")");
        s
    }
}

/// Renders a token sequence, one token per line.
pub fn stringify_tokens(tokens: &Vec<Token>) -> (s: String)
    ensures
        s@ == tokens_text(token_views(tokens@)),
{
    let mut result = String::new();
    let mut i: usize = 0;
    while i < tokens.len()
        invariant
            0 <= i <= tokens.len(),
            result@ == tokens_text(token_views(tokens@).take(i as int)),
        decreases tokens.len() - i,
    {
        let t = tokens[i].to_text();
        result.append(t.as_str());
        result.append("\n");
        proof {
            let all = token_views(tokens@);
            assert(all.take(i + 1).drop_last() == all.take(i as int));
            assert(all.take(i + 1).last() == tokens[i as int]@);
        }
        i += 1;
    }
    proof {
        let all = token_views(tokens@);
        assert(all.take(tokens.len() as int) == all);
    }
    result
}

} // verus!
