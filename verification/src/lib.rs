//! A small scripting language: scanner, parser and evaluator.
//!
//! Source text becomes tokens ([`scanner`]), tokens become statements
//! ([`parser`], after the [`grammar`]), and statements are run by an
//! abstract machine ([`interpreter`], after the [`machine`]).  Numbers are
//! double-precision numbers, which the machine holds by their bit
//! patterns: it computes nothing with them but a change of sign and a
//! comparison with zero, and asks whoever runs it for the rest, and for
//! printing.
//!
//! What each stage computes is stated as a function on mathematical
//! values, and the stage is proved to compute it.  What holds of these
//! functions, whatever the input, is proved in [`progress`] (parsing moves
//! forward), [`shapes`] (what the grammar can yield), [`scoping`] and
//! [`sound`] (scopes), [`laws`] (evaluation), [`agreement`] (the machine
//! does what evaluating a construct as a whole comes to, as told in
//! [`semantics`]), and [`arithmetic`] (from the text of a sum to its
//! number).

use vstd::prelude::*;

pub mod agreement;
pub mod arithmetic;
pub mod ast;
pub mod env;
pub mod error;
pub mod grammar;
pub mod interpreter;
pub mod laws;
pub mod machine;
pub mod parser;
pub mod progress;
pub mod scanner;
pub mod scoping;
pub mod shapes;
pub mod semantics;
pub mod sound;
pub mod text;
pub mod token;

use crate::ast::Stmt;
use crate::error::Error;
use crate::grammar::parse_all;
use crate::parser::Parser;
use crate::scanner::{is_outcome, lemma_lex_terminated, lex, Scanner};
use crate::token::Token;

verus! {

/// Scans a source text: its tokens, closed by the end-of-input marker, if
/// it holds no lexical error, and else every lexical error.
pub fn scan(src: &str) -> (r: Result<Vec<Token>, Vec<Error>>)
    requires
        src@.len() < usize::MAX,
    ensures
        is_outcome(r, lex(src@)),
{
    let mut scanner = Scanner::new(String::from_str(src));
    scanner.scan()
}

/// Whether `r` is what parsing the source `src` yields: the lexical errors
/// if there are any; else the statements if each of them parsed, and
/// else the error of each that did not.
pub open spec fn is_parse_of(r: Result<Vec<Stmt>, Vec<Error>>, src: Seq<char>) -> bool {
    if lex(src).errors.len() > 0 {
        r is Err && crate::error::error_views(r->Err_0@) == lex(src).errors
    } else {
        crate::parser::is_outcome(r, parse_all(lex(src).tokens))
    }
}

/// Scans and parses a source text.
pub fn parse(src: &str) -> (r: Result<Vec<Stmt>, Vec<Error>>)
    requires
        src@.len() < usize::MAX,
    ensures
        is_parse_of(r, src@),
{
    match scan(src) {
        Err(errors) => Err(errors),
        Ok(tokens) => {
            proof {
                lemma_lex_terminated(src@, 0);
            }
            let mut parser = Parser::new(tokens.as_slice());
            parser.parse()
        },
    }
}

} // verus!
