use jasc::error::Error;
use jasc::scanner::Scanner;
use jasc::token::{stringify_tokens, Token, TokenValue};

fn scan(src: &str, expected: &str) {
    let result = jasc::scan(src);
    match result {
        Ok(tokens) => assert_eq!(stringify_tokens(&tokens), expected),
        _ => panic!("Failed - result: {:?}", result),
    }
}

fn scan_err(src: &str, vexpected: Vec<Error>) {
    let result = jasc::scan(src);
    match result {
        Err(ve) => assert_eq!(ve, vexpected),
        _ => panic!("Failed - result: {:?}", result),
    };
}

fn scan_err1(src: &str, line: usize, location: &str, msg: &str) {
    scan_err(src, vec![Error::new(line, location, msg)])
}

#[test]
fn test_scanner() {
    let src =
        "function (a, b) { let a = (-1 + 2) / 3 * 4;\nif else return print while break a ? true : false && || ; }";
    let result = Scanner::new(src.to_string()).scan();
    let expected = vec![
        Token::new(TokenValue::Function, "function".to_string(), 1),
        Token::new(TokenValue::LeftParen, "(".to_string(), 1),
        Token::new(TokenValue::Identifier, "a".to_string(), 1),
        Token::new(TokenValue::Comma, ",".to_string(), 1),
        Token::new(TokenValue::Identifier, "b".to_string(), 1),
        Token::new(TokenValue::RightParen, ")".to_string(), 1),
        Token::new(TokenValue::LeftBrace, "{".to_string(), 1),
        Token::new(TokenValue::Let, "let".to_string(), 1),
        Token::new(TokenValue::Identifier, "a".to_string(), 1),
        Token::new(TokenValue::Equal, "=".to_string(), 1),
        Token::new(TokenValue::LeftParen, "(".to_string(), 1),
        Token::new(TokenValue::Minus, "-".to_string(), 1),
        Token::new(TokenValue::Number, "1".to_string(), 1),
        Token::new(TokenValue::Plus, "+".to_string(), 1),
        Token::new(TokenValue::Number, "2".to_string(), 1),
        Token::new(TokenValue::RightParen, ")".to_string(), 1),
        Token::new(TokenValue::Slash, "/".to_string(), 1),
        Token::new(TokenValue::Number, "3".to_string(), 1),
        Token::new(TokenValue::Star, "*".to_string(), 1),
        Token::new(TokenValue::Number, "4".to_string(), 1),
        Token::new(TokenValue::Semicolon, ";".to_string(), 1),
        Token::new(TokenValue::If, "if".to_string(), 2),
        Token::new(TokenValue::Else, "else".to_string(), 2),
        Token::new(TokenValue::Return, "return".to_string(), 2),
        Token::new(TokenValue::Print, "print".to_string(), 2),
        Token::new(TokenValue::While, "while".to_string(), 2),
        Token::new(TokenValue::Break, "break".to_string(), 2),
        Token::new(TokenValue::Identifier, "a".to_string(), 2),
        Token::new(TokenValue::Question, "?".to_string(), 2),
        Token::new(TokenValue::True, "true".to_string(), 2),
        Token::new(TokenValue::Colon, ":".to_string(), 2),
        Token::new(TokenValue::False, "false".to_string(), 2),
        Token::new(TokenValue::And, "&&".to_string(), 2),
        Token::new(TokenValue::Or, "||".to_string(), 2),
        Token::new(TokenValue::Semicolon, ";".to_string(), 2),
        Token::new(TokenValue::RightBrace, "}".to_string(), 2),
    ];
    match result {
        Ok(tokens) => {
            assert_eq!(tokens.len(), expected.len() + 1);
            for (token, exp) in tokens.iter().zip(&expected) {
                assert_eq!(token, exp);
            }
        }
        Err(_) => panic!("Failed - result: {:?}", result),
    }
}

#[test]
fn test_and() {
    assert_eq!(
        Scanner::new("&&".to_string()).scan(),
        Ok(vec![
            Token::new(TokenValue::And, "&&".to_string(), 1),
            Token::new(TokenValue::EOF, "".to_string(), 1),
        ])
    );
    assert_eq!(
        Scanner::new("&a".to_string()).scan(),
        Err(vec![Error::new(1, "a", "Expected '&'.",)])
    );
    assert_eq!(
        Scanner::new("&".to_string()).scan(),
        Err(vec![Error::new(1, "end", "Expected '&'.",)])
    );
}

#[test]
fn test_or() {
    assert_eq!(
        Scanner::new("||".to_string()).scan(),
        Ok(vec![
            Token::new(TokenValue::Or, "||".to_string(), 1),
            Token::new(TokenValue::EOF, "".to_string(), 1),
        ])
    );
    assert_eq!(
        Scanner::new("|a".to_string()).scan(),
        Err(vec![Error::new(1, "a", "Expected '|'.",)])
    );
    assert_eq!(
        Scanner::new("|".to_string()).scan(),
        Err(vec![Error::new(1, "end", "Expected '|'.",)])
    );
}

#[test]
fn token_number() {
    scan("123", "(Number(123.0) '123' 1)\n(EOF '' 1)\n");
}

#[test]
fn parens() {
    scan("()", "(LeftParen '(' 1)\n(RightParen ')' 1)\n(EOF '' 1)\n");
}

#[test]
fn braces() {
    scan("{}", "(LeftBrace '{' 1)\n(RightBrace '}' 1)\n(EOF '' 1)\n");
}

#[test]
fn skip_whitespaces() {
    scan(
        " \t\n(  \t\t\n\n) \t\n",
        "(LeftParen '(' 2)\n(RightParen ')' 4)\n(EOF '' 5)\n",
    );
}

#[test]
fn unexpected_charcter() {
    scan_err1("@", 1, "@", "Unexpected character.");
}

#[test]
fn multi_errors_multi_lines() {
    scan_err(
        "@\n^)",
        vec![
            Error::new(1, "@", "Unexpected character."),
            Error::new(2, "^", "Unexpected character."),
        ],
    );
}

#[test]
fn white_space_is_that_of_the_standard_library() {
    let mut code = 0u32;
    while code <= 0x10FFFF {
        if let Some(c) = char::from_u32(code) {
            assert_eq!(jasc::scanner::is_whitespace(c), c.is_whitespace(), "U+{:04X}", code);
            assert_eq!(jasc::scanner::is_ascii_digit(c), c.is_ascii_digit(), "U+{:04X}", code);
        }
        code += 1;
    }
}

#[test]
fn keywords_and_identifiers() {
    scan(
        "iff _x1 let",
        "(Identifier 'iff' 1)\n(Identifier '_x1' 1)\n(Let 'let' 1)\n(EOF '' 1)\n",
    );
}

#[test]
fn comment_runs_to_the_end_of_its_line() {
    scan("1 // two 2\n3 /", "(Number(1.0) '1' 1)\n(Number(3.0) '3' 2)\n(Slash '/' 2)\n(EOF '' 2)\n");
    scan("// only", "(EOF '' 1)\n");
}

#[test]
fn number_shows_without_leading_zeros() {
    scan("007 0 00", "(Number(7.0) '007' 1)\n(Number(0.0) '0' 1)\n(Number(0.0) '00' 1)\n(EOF '' 1)\n");
}

#[test]
fn digits_then_letters_are_two_tokens() {
    scan("12ab", "(Number(12.0) '12' 1)\n(Identifier 'ab' 1)\n(EOF '' 1)\n");
}

#[test]
fn failed_operator_keeps_what_follows() {
    scan_err(
        "&\n|;@",
        vec![
            Error::new(1, "\n", "Expected '&'."),
            Error::new(2, ";", "Expected '|'."),
            Error::new(2, "@", "Unexpected character."),
        ],
    );
}

#[test]
fn report_line_of_an_error() {
    assert_eq!(
        Error::new(3, "@", "Unexpected character.").report_line(),
        "[line 3] Error at '@': Unexpected character."
    );
    assert_eq!(
        Error::new(12, "\n", "Expected '&'.").report_line(),
        "[line 12] Error at '\\n': Expected '&'."
    );
    assert_eq!(Error::new(1, "", "Oops.").report_line(), "[line 1] Error: Oops.");
    assert_eq!(Error::new(1, "x", "Oops.").format_report("y"), "[line 1] Error at 'y': Oops.");
}

#[test]
fn characters_outside_the_alphabet_are_unexpected() {
    scan_err(
        "é\0٣",
        vec![
            Error::new(1, "é", "Unexpected character."),
            Error::new(1, "\0", "Unexpected character."),
            Error::new(1, "٣", "Unexpected character."),
        ],
    );
}

#[test]
fn every_white_space_separates_and_only_line_feed_counts_lines() {
    scan(
        "a\u{2003}b\r\nc\u{b}d\u{85}e",
        "(Identifier 'a' 1)\n(Identifier 'b' 1)\n(Identifier 'c' 2)\n(Identifier 'd' 2)\n(Identifier 'e' 2)\n(EOF '' 2)\n",
    );
}

#[test]
fn scanner_goes_on_from_where_it_stands() {
    let mut scanner = Scanner::new("1 2".to_string());
    assert_eq!(scanner.scan().unwrap().len(), 3);
    assert_eq!(
        scanner.scan(),
        Ok(vec![Token::new(TokenValue::EOF, "".to_string(), 1)])
    );
}
