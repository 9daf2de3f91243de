use jasc::ast::{copy_expr, copy_stmt, stringify_statements, Expr, Literal, Stmt, Value};
use jasc::env::Environment;
use jasc::error::Error;
use jasc::interpreter::{Action, Interpreter, Runtime};
use jasc::text::{canonical_string, chars_of, decimal_string, same_text, string_of};
use jasc::token::{stringify_tokens, Token, TokenValue};

fn token(val: TokenValue, lexeme: &str) -> Token {
    Token::new(val, lexeme.to_string(), 1)
}

fn name(lexeme: &str) -> Token {
    token(TokenValue::Identifier, lexeme)
}

fn literal(digits: &str) -> Box<Expr> {
    Box::new(Expr::Literal(Literal::Number(digits.to_string())))
}

fn end_of(statements: Vec<Stmt>) -> Result<Value, Vec<Error>> {
    let mut machine = Interpreter::new();
    machine.interpret(statements);
    for _ in 0..1000 {
        match machine.step() {
            Action::Convert(digits) => machine.supply(digits.parse::<f64>().unwrap().to_bits()),
            Action::Compute(_, l, r) => {
                machine.supply((f64::from_bits(l) + f64::from_bits(r)).to_bits())
            }
            Action::Done(result) => return result,
            _ => {}
        }
    }
    panic!("the program did not end");
}

#[test]
fn decimal_notation() {
    assert_eq!(decimal_string(0), "0");
    assert_eq!(decimal_string(9), "9");
    assert_eq!(decimal_string(10), "10");
    assert_eq!(decimal_string(12345678901234567890), "12345678901234567890");
    assert_eq!(decimal_string(usize::MAX), usize::MAX.to_string());
}

#[test]
fn canonical_digits() {
    assert_eq!(canonical_string("0"), "0");
    assert_eq!(canonical_string("000"), "0");
    assert_eq!(canonical_string("0120"), "120");
    assert_eq!(canonical_string("120"), "120");
    assert_eq!(canonical_string(""), "");
}

#[test]
fn canonical_digits_are_those_of_the_number() {
    for digits in ["0", "00", "7", "0042", "9007199254740991", "1000000000000000"] {
        let number: f64 = digits.parse().unwrap();
        assert_eq!(canonical_string(digits), format!("{}", number));
    }
}

#[test]
fn characters_and_strings() {
    assert_eq!(chars_of("aé\n"), vec!['a', 'é', '\n']);
    assert_eq!(chars_of(""), Vec::<char>::new());
    let chars = vec!['a', 'b', 'c', 'd'];
    assert_eq!(string_of(&chars, 1, 3), "bc");
    assert_eq!(string_of(&chars, 2, 2), "");
    assert_eq!(string_of(&chars, 0, 4), "abcd");
    assert!(same_text("let", "let"));
    assert!(!same_text("let", "lets"));
    assert!(!same_text("let", "leT"));
    assert!(same_text("", ""));
}

#[test]
fn token_kinds_have_a_text_and_a_name() {
    assert_eq!(TokenValue::LeftBrace.to_text(), "{");
    assert_eq!(TokenValue::And.to_text(), "&&");
    assert_eq!(TokenValue::Identifier.to_text(), "id");
    assert_eq!(TokenValue::Number.to_text(), "number");
    assert_eq!(TokenValue::EOF.to_text(), "end");
    assert_eq!(TokenValue::While.symbol(), "while");
    assert_eq!(TokenValue::While.label(), "While");
    assert_eq!(TokenValue::EOF.label(), "EOF");
}

#[test]
fn token_rendering() {
    let tokens = vec![
        Token::new(TokenValue::Number, "012".to_string(), 3),
        Token::new(TokenValue::Identifier, "x".to_string(), 10),
    ];
    assert_eq!(tokens[0].to_text(), "(Number(12.0) '012' 3)");
    assert_eq!(stringify_tokens(&tokens), "(Number(12.0) '012' 3)\n(Identifier 'x' 10)\n");
    assert_eq!(stringify_tokens(&vec![]), "");
    assert_eq!(tokens[0].clone(), tokens[0]);
}

#[test]
fn errors_from_tokens() {
    assert_eq!(Error::from_token(&name("a"), "Oops."), Error::new(1, "a", "Oops."));
    assert_eq!(
        Error::from_token(&Token::new(TokenValue::EOF, "".to_string(), 4), "Oops."),
        Error::new(4, "end", "Oops.")
    );
    assert_eq!(Runtime::from_token(&name("a"), "Oops."), Runtime::Error(Error::new(1, "a", "Oops.")));
    assert_eq!(Error::new(2, "b", "c").clone(), Error::new(2, "b", "c"));
}

#[test]
fn copies_are_equal() {
    let statements = jasc::parse(
        "let f = function(a, b) { while (a) { if (b) break a ? b : -1; else return f(a = 2, true); } print a || b && c; };",
    )
    .unwrap();
    for s in &statements {
        assert_eq!(&copy_stmt(s), s);
        assert_eq!(&s.clone(), s);
    }
    let e = Expr::Call(name("("), Box::new(Expr::Variable(name("f"))), vec![*literal("1")]);
    assert_eq!(copy_expr(&e), e);
    assert_eq!(e.clone(), e);
    let v = Value::Function(vec![name("a")], statements, 3);
    assert_eq!(v.clone(), v);
    assert_eq!(Literal::Bool(true).clone(), Literal::Bool(true));
}

#[test]
fn rendering_of_hand_made_trees() {
    let call = Expr::Call(
        name("("),
        Box::new(Expr::Variable(name("f"))),
        vec![*literal("1"), Expr::Literal(Literal::Undefined)],
    );
    assert_eq!(call.to_text(), "(call (var f) (1 undefined))");
    assert_eq!(Literal::Bool(false).to_text(), "false");
    let s = Stmt::Break(token(TokenValue::Break, "break"), Some(Box::new(call)));
    assert_eq!(s.to_text(), "(break (call (var f) (1 undefined)))");
    assert_eq!(stringify_statements(&vec![]), "");
}

#[test]
fn values_print_and_count_as_true() {
    assert_eq!(Value::Null.to_text(), Some("null".to_string()));
    assert_eq!(Value::Undefined.to_text(), Some("undefined".to_string()));
    assert_eq!(Value::Bool(true).to_text(), Some("true".to_string()));
    assert_eq!(Value::Number(7).to_text(), None);
    assert_eq!(
        Value::Function(vec![name("a"), name("b")], vec![], 0).to_text(),
        Some("(function (a b))".to_string())
    );
    assert!(Value::Number(1.0f64.to_bits()).is_truthy());
    assert!(Value::Number(f64::NAN.to_bits()).is_truthy());
    assert!(Value::Number((-1.5f64).to_bits()).is_truthy());
    assert!(!Value::Number(0.0f64.to_bits()).is_truthy());
    assert!(!Value::Number((-0.0f64).to_bits()).is_truthy());
    assert!(Value::Bool(true).is_truthy());
    assert!(!Value::Bool(false).is_truthy());
    assert!(!Value::Null.is_truthy());
    assert!(!Value::Undefined.is_truthy());
    assert!(Value::Function(vec![], vec![], 0).is_truthy());
}

#[test]
fn truthiness_of_numbers_is_that_of_comparison_with_zero() {
    for x in [0.0, -0.0, 1.0, -1.0, f64::MIN_POSITIVE, f64::INFINITY, f64::NAN, 5e-324] {
        assert_eq!(Value::Number(x.to_bits()).is_truthy(), x != 0.0, "{}", x);
    }
}

#[test]
fn scopes_define_assign_and_get() {
    let mut env = Environment::new();
    assert_eq!(env.len(), 1);
    let a = name("a");
    let b = name("b");
    assert_eq!(env.get(0, &a), Err(Error::new(1, "a", "Variable not defined.")));
    assert_eq!(env.assign(0, &a, Value::Null), Err(Error::new(1, "a", "Variable not defined.")));
    assert_eq!(env.define(0, &a, Value::Number(1)), Ok(Value::Null));
    assert_eq!(env.define(0, &a, Value::Number(2)), Err(Error::new(1, "a", "Variable already defined.")));
    assert_eq!(env.get(0, &a), Ok(Value::Number(1)));
    let inner = env.enclosed_by(0);
    assert_eq!(inner, 1);
    assert_eq!(env.get(inner, &a), Ok(Value::Number(1)));
    assert_eq!(env.assign(inner, &a, Value::Number(3)), Ok(Value::Number(3)));
    assert_eq!(env.get(0, &a), Ok(Value::Number(3)));
    assert_eq!(env.define(inner, &a, Value::Bool(true)), Ok(Value::Null));
    assert_eq!(env.get(inner, &a), Ok(Value::Bool(true)));
    assert_eq!(env.get(0, &a), Ok(Value::Number(3)));
    assert_eq!(env.assign(inner, &a, Value::Bool(false)), Ok(Value::Bool(false)));
    assert_eq!(env.get(0, &a), Ok(Value::Number(3)));
    assert_eq!(env.define(inner, &b, Value::Undefined), Ok(Value::Null));
    assert_eq!(env.get(inner, &b), Err(Error::new(1, "b", "Variable not initialized.")));
    assert_eq!(env.get(0, &b), Err(Error::new(1, "b", "Variable not defined.")));
    assert_eq!(env.assign(inner, &b, Value::Null), Ok(Value::Null));
    assert_eq!(env.get(inner, &b), Ok(Value::Null));
    let sibling = env.enclosed_by(0);
    assert_eq!(env.get(sibling, &b), Err(Error::new(1, "b", "Variable not defined.")));
    assert_eq!(env.get(sibling, &a), Ok(Value::Number(3)));
    assert_eq!(env.len(), 3);
}

#[test]
fn scopes_that_do_not_exist_hold_nothing() {
    let mut env = Environment::new();
    let a = name("a");
    assert_eq!(env.get(5, &a), Err(Error::new(1, "a", "Variable not defined.")));
    assert_eq!(env.define(5, &a, Value::Null), Err(Error::new(1, "a", "Variable not defined.")));
    assert_eq!(env.assign(5, &a, Value::Null), Err(Error::new(1, "a", "Variable not defined.")));
    let lone = env.enclosed_by(9);
    assert_eq!(env.define(0, &a, Value::Null), Ok(Value::Null));
    assert_eq!(env.get(lone, &a), Err(Error::new(1, "a", "Variable not defined.")));
}

#[test]
fn operators_that_the_grammar_never_makes_are_unknown() {
    let question = token(TokenValue::Question, "?");
    let plus = token(TokenValue::Plus, "+");
    let binary = Stmt::Expression(Box::new(Expr::Binary(question.clone(), literal("1"), literal("2"))));
    assert_eq!(end_of(vec![binary]), Err(vec![Error::new(1, "?", "Unknown operation.")]));
    let unary = Stmt::Expression(Box::new(Expr::Unary(plus.clone(), literal("1"))));
    assert_eq!(end_of(vec![unary]), Err(vec![Error::new(1, "+", "Unknown operation.")]));
    let logical = Stmt::Expression(Box::new(Expr::Logical(plus, literal("1"), literal("2"))));
    assert_eq!(end_of(vec![logical]), Err(vec![Error::new(1, "+", "Unknown operation.")]));
}

#[test]
fn hand_made_program_runs() {
    let plus = token(TokenValue::Plus, "+");
    let sum = Stmt::Expression(Box::new(Expr::Binary(plus, literal("1"), literal("2"))));
    assert_eq!(end_of(vec![sum]), Ok(Value::Number(3.0f64.to_bits())));
}

#[test]
fn scopes_are_released_unless_a_closure_was_made_in_them() {
    let mut env = Environment::new();
    let a = env.enclosed_by(0);
    let b = env.enclosed_by(a);
    assert_eq!(env.len(), 3);
    env.release(a);
    assert_eq!(env.len(), 3);
    env.release(b);
    assert_eq!(env.len(), 2);
    env.capture(a);
    env.release(a);
    assert_eq!(env.len(), 2);
    env.release(0);
    env.release(7);
    env.capture(7);
    assert_eq!(env.len(), 2);
    let c = env.enclosed_by(a);
    assert_eq!(c, 2);
    env.release(c);
    assert_eq!(env.len(), 2);
}
