use jasc::ast::stringify_statements;
use jasc::error::Error;

fn parse(src: &str, expected: &str) {
    let result = jasc::parse(src);
    match result {
        Ok(stmts) => assert_eq!(stringify_statements(&stmts), expected),
        _ => panic!("Failed - result: {:?}", result),
    }
}

fn parse_err(src: &str, vexpected: Vec<Error>) {
    let result = jasc::parse(src);
    match result {
        Err(ve) => assert_eq!(ve, vexpected),
        _ => panic!("Failed - result: {:?}", result),
    };
}

fn parse_err1(src: &str, line: usize, location: &str, msg: &str) {
    parse_err(src, vec![Error::new(line, location, msg)])
}

#[test]
fn ast_number() {
    parse("123;", "(expression 123)")
}

#[test]
fn test_bool() {
    parse("true;", "(expression true)");
    parse("false;", "(expression false)");
}

#[test]
fn unary() {
    parse("-123;", "(expression (- 123))");
    parse("-true;", "(expression (- true))");
}

#[test]
fn term() {
    parse("12 * -34 / 56;", "(expression (/ (* 12 (- 34)) 56))");
}

#[test]
fn factor() {
    parse(
        "12+-34*56-78/90;",
        "(expression (- (+ 12 (* (- 34) 56)) (/ 78 90)))",
    );
}

#[test]
fn grouping() {
    parse(
        "((12+-34)*56-78)/90;",
        "(expression (/ (group (- (* (group (+ 12 (- 34))) 56) 78)) 90))",
    );
    parse(
        "true && (-true || false);",
        "(expression (&& true (group (|| (- true) false))))",
    );
}

#[test]
fn ternary() {
    parse("1 ? 2 ? 3 : 4 : 5;", "(expression (? 1 (? 2 3 4) 5))");
    parse("1 ? 2 : 3 ? 4 : 5;", "(expression (? 1 2 (? 3 4 5)))");
    parse(
        "1 ? 2 ? 3 : 4 : 5 ? 6 : 7;",
        "(expression (? 1 (? 2 3 4) (? 5 6 7)))",
    );
    parse("true ? 1 : false;", "(expression (? true 1 false))");
}

#[test]
fn or() {
    parse("true || -false;", "(expression (|| true (- false)))");
    parse(
        "true || false && true;",
        "(expression (|| true (&& false true)))",
    );
}

#[test]
fn and() {
    parse("true && -false;", "(expression (&& true (- false)))");
}

#[test]
fn let_() {
    parse("let a = 1;", "(let a 1)");
    parse("let a = true;", "(let a true)");
}

#[test]
fn assignment() {
    parse("a = 1;", "(expression (assignment a 1))");
    parse(
        "a = b + c;",
        "(expression (assignment a (+ (var b) (var c))))",
    );
    parse("a = b = 3;", "(expression (assignment a (assignment b 3)))");
    parse("a = true;", "(expression (assignment a true))");
}

#[test]
fn block() {
    parse("{}", "(block )");
    parse("{123;456;}", "(block (expression 123) (expression 456))");
    parse(
        "{123;{456;}}",
        "(block (expression 123) (block (expression 456)))",
    );
}

#[test]
fn function() {
    parse(
        "function(){};",
        "(expression (function (parameters) (statements)))",
    );
    parse(
        "function(a){print a;};",
        "(expression (function (parameters a) (statements (print (var a)))))",
    );
    parse(
        "function(a, b){return a;};",
        "(expression (function (parameters a b) (statements (return (var a)))))",
    );
}

#[test]
fn if_() {
    parse("if (1 + 1) 2 + 2;", "(if (+ 1 1) (expression (+ 2 2)))");
    parse("if (1) {2;}", "(if 1 (block (expression 2)))");
    parse("if (1) 2; else 3;", "(if 1 (expression 2) (expression 3))");
    parse(
        "if (1) {2;} else {3;}",
        "(if 1 (block (expression 2)) (block (expression 3)))",
    );
}

#[test]
fn test_while() {
    parse(
        "while (1 + 1) 2 + 2;",
        "(while (+ 1 1) (expression (+ 2 2)))",
    );
}

#[test]
fn test_break() {
    parse("while (1) break;", "(while 1 (break))");
    parse("while (1) { break; }", "(while 1 (block (break)))");
}

#[test]
fn several_statements_are_separated_by_spaces() {
    parse("1; 2; 3;", "(expression 1) (expression 2) (expression 3)");
    parse("", "");
}

#[test]
fn let_without_initializer_binds_undefined() {
    parse("let a;", "(let a undefined)");
}

#[test]
fn break_and_return_take_what_starts_an_expression() {
    parse("return -1;", "(return (- 1))");
    parse("return (1);", "(return (group 1))");
    parse("return function(){};", "(return (function (parameters) (statements)))");
    parse("return true;", "(return true)");
    parse("while (1) break a;", "(while 1 (break (var a)))");
    parse("return\n1;", "(return 1)");
}

#[test]
fn break_and_return_with_values() {
    parse("while (1) break 2 + 3;", "(while 1 (break (+ 2 3)))");
    parse("return;", "(return)");
    parse("return 1;", "(return 1)");
}

#[test]
fn calls_chain_and_list_their_arguments() {
    parse("f();", "(expression (call (var f) ()))");
    parse("f(1, a)(2);", "(expression (call (call (var f) (1 (var a))) (2)))");
    parse("f(1,);", "(expression (call (var f) (1)))");
    parse("-f;", "(expression (- (var f)))");
    parse("-f();", "(expression (- (call (var f) ())))");
    parse("1 - -f(2)(3) * 4;", "(expression (- 1 (* (- (call (call (var f) (2)) (3))) 4)))");
}

#[test]
fn number_literal_drops_leading_zeros() {
    parse("007; 0; 000;", "(expression 7) (expression 0) (expression 0)");
}

#[test]
fn binary_levels_group_from_the_left() {
    parse("1 - 2 - 3;", "(expression (- (- 1 2) 3))");
    parse("1 / 2 * 3;", "(expression (* (/ 1 2) 3))");
    parse("a || b || c;", "(expression (|| (|| (var a) (var b)) (var c)))");
    parse("a && b && c;", "(expression (&& (&& (var a) (var b)) (var c)))");
}

#[test]
fn assignment_needs_a_plain_variable() {
    parse_err1("1 = 2;", 1, "=", "Semicolon expected.");
    parse_err1("(a) = 2;", 1, "=", "Semicolon expected.");
    parse("a = b ? c : d;", "(expression (assignment a (? (var b) (var c) (var d))))");
}

#[test]
fn missing_semicolon_is_reported_at_the_offending_token() {
    parse_err1("1 2;", 1, "2", "Semicolon expected.");
    parse_err1("print 1", 1, "end", "Semicolon expected.");
    parse_err1("return 1", 1, "end", "Semicolon expected.");
    parse_err1("while (1) break 1", 1, "end", "Semicolon expected.");
    parse_err1("let a = 1", 1, "end", "Semicolon expected.");
    parse_err1("let a", 1, "end", "Semicolon expected.");
    parse_err1("let a 1;", 1, "1", "Semicolon expected.");
    parse_err1("let a = 1 2;", 1, "2", "Semicolon expected.");
    parse_err1("break 1 }", 1, "}", "Semicolon expected.");
    parse_err1("break", 1, "end", "Semicolon expected.");
    parse_err1("return", 1, "end", "Semicolon expected.");
    parse_err1("while (1) { break }", 1, "}", "Semicolon expected.");
    parse_err1("return\n+ 1;", 2, "+", "Semicolon expected.");
    parse_err1("1", 1, "end", "Semicolon expected.");
    parse_err1("f()", 1, "end", "Semicolon expected.");
    parse_err1("f(1)\n+ 2 3;", 2, "3", "Semicolon expected.");
}

#[test]
fn let_without_its_semicolon() {
    let tokens = jasc::scan("let a = 1").unwrap();
    assert_eq!(
        jasc::parser::Parser::new(&tokens).parse(),
        Err(vec![Error::new(1, "end", "Semicolon expected.")])
    );
}

#[test]
fn every_failing_statement_is_reported() {
    parse_err(
        "12+34+;\n        45+67+;",
        vec![
            Error::new(1, ";", "Expression expected, found `;`"),
            Error::new(2, ";", "Expression expected, found `;`"),
        ],
    );
    parse_err(
        "1 +; 2; * 3; let = 4; print 5;",
        vec![
            Error::new(1, ";", "Expression expected, found `;`"),
            Error::new(1, "*", "Expression expected, found `*`"),
            Error::new(1, "=", "Variable expected."),
        ],
    );
}

#[test]
fn recovery_stops_at_a_statement_keyword() {
    parse_err(
        "1 + + 2 print 3 let",
        vec![
            Error::new(1, "+", "Expression expected, found `+`"),
            Error::new(1, "let", "Semicolon expected."),
            Error::new(1, "end", "Variable expected."),
        ],
    );
}

#[test]
fn error_messages_of_each_construct() {
    parse_err1("{ 1;", 1, "end", "Right brace expected.");
    parse_err1("if 1) 2;", 1, "1", "Left paren expected.");
    parse_err1("if (1 2;", 1, "2", "Right paren expected.");
    parse_err1("while 1) 2;", 1, "1", "Left paren expected.");
    parse_err1("while (1 2;", 1, "2", "Right paren expected.");
    parse_err1("let 1 = 2;", 1, "1", "Variable expected.");
    parse_err1("let", 1, "end", "Variable expected.");
    parse_err1("let (a) = 2;", 1, "(", "Variable expected.");
    parse_err1("let a + 1;", 1, "+", "Semicolon expected.");
    parse_err1("let a(1);", 1, "(", "Semicolon expected.");
    parse_err1("1 ? 2 ;", 1, ";", "Colon expected.");
    parse_err1("f(", 1, "end", "No closing parenthesis.");
    parse_err1("f(1,", 1, "end", "No closing parenthesis.");
    parse_err1("f(1", 1, "end", "No closing parenthesis.");
    parse_err1("f(1, 2", 1, "end", "No closing parenthesis.");
    parse_err1("f(g(1)", 1, "end", "No closing parenthesis.");
    parse_err1("f(1 2", 1, "2", "Comma expected.");
    parse_err1("f(1 2);", 1, "2", "Comma expected.");
    parse_err1("(1;", 1, ";", "Right paren expected");
    parse_err1("function;", 1, ";", "Left parenthesis expected");
    parse_err1("function(a;", 1, ";", "Right paren expected.");
    parse_err1("function(1){};", 1, "1", "Identifier expected.");
    parse_err1("function(a,", 1, "end", "Right paren expected.");
    parse_err1("function(a) 1;", 1, "1", "Left brace expected");
    parse_err1("function(a) { 1;", 1, "end", "Right brace expected.");
    parse_err1("1 +", 1, "end", "Expression expected, found `end`");
    parse_err1("print", 1, "end", "Expression expected, found `end`");
    parse_err1("else;", 1, "else", "Expression expected, found `else`");
    parse_err1("&& 1;", 1, "&&", "Expression expected, found `&&`");
    parse_err1("--1;", 1, "-", "Expression expected, found `-`");
}

#[test]
fn error_line_is_that_of_the_token() {
    parse_err1("1 +\n\n2\n3;", 4, "3", "Semicolon expected.");
    parse_err1("let\n1;", 2, "1", "Variable expected.");
}

#[test]
fn lexical_errors_come_before_parsing() {
    parse_err("1 + ; @", vec![Error::new(1, "@", "Unexpected character.")]);
}

#[test]
fn parser_on_a_token_list() {
    let tokens = jasc::scan("1 + 2;").unwrap();
    let mut parser = jasc::parser::Parser::new(&tokens);
    let statements = parser.parse().unwrap();
    assert_eq!(stringify_statements(&statements), "(expression (+ 1 2))");
}
