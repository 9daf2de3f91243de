use jasc::ast::Value;
use jasc::error::Error;
use jasc::interpreter::{Action, Interpreter};
use jasc::token::TokenValue;

fn show(value: &Value) -> String {
    match value {
        Value::Number(bits) => format!("{}", f64::from_bits(*bits)),
        other => other.to_text().unwrap(),
    }
}

fn run_with_output(src: &str, steps: usize) -> (Result<Value, Vec<Error>>, Vec<String>) {
    let mut printed = vec![];
    let statements = match jasc::parse(src) {
        Ok(statements) => statements,
        Err(errors) => return (Err(errors), printed),
    };
    let mut machine = Interpreter::new();
    machine.interpret(statements);
    for _ in 0..steps {
        match machine.step() {
            Action::Continue => {}
            Action::Convert(digits) => {
                let number: f64 = digits.parse().unwrap();
                machine.supply(number.to_bits());
            }
            Action::Compute(op, left, right) => {
                let (l, r) = (f64::from_bits(left), f64::from_bits(right));
                let result = match op {
                    TokenValue::Plus => l + r,
                    TokenValue::Minus => l - r,
                    TokenValue::Star => l * r,
                    TokenValue::Slash => l / r,
                    _ => unreachable!(),
                };
                machine.supply(result.to_bits());
            }
            Action::Print(value) => printed.push(show(&value)),
            Action::Done(result) => return (result, printed),
        }
    }
    panic!("the program did not end within {} steps", steps);
}

fn run(src: &str) -> Result<Value, Vec<Error>> {
    run_with_output(src, 1_000_000).0
}

fn number(x: f64) -> Value {
    Value::Number(x.to_bits())
}

fn ok(src: &str, expected: Value) {
    let result = run(src);
    match result {
        Ok(value) => assert_eq!(value, expected),
        _ => panic!("Failed - result: {:?}", result),
    }
}

fn err(src: &str, vexpected: Vec<Error>) {
    let result = run(src);
    match result {
        Err(ve) => assert_eq!(ve, vexpected),
        _ => panic!("Failed - result: {:?}", result),
    };
}

fn err1(src: &str, line: usize, location: &str, msg: &str) {
    err(src, vec![Error::new(line, location, msg)])
}

fn prints(src: &str, expected: &[&str]) {
    let (result, printed) = run_with_output(src, 1_000_000);
    assert!(result.is_ok(), "Failed - result: {:?}", result);
    assert_eq!(printed, expected);
}

#[test]
fn mul_12_3() {
    ok("12*3;", number(36.0))
}

#[test]
fn mul_2_3_4() {
    ok("2*3*4;", number(24.0))
}

#[test]
fn mul_unary_minus() {
    ok("12*-3;", number(-36.0))
}

#[test]
fn div_12_3() {
    ok("12/3;", number(4.0))
}

#[test]
fn div_12_3_4() {
    ok("12/3/4;", number(1.0))
}

#[test]
fn mul_no_semicolon() {
    err1("12*34", 1, "end", "Semicolon expected.");
}

#[test]
fn mul_no_semicolon_after_3() {
    err1("12*34*56", 1, "end", "Semicolon expected.");
}

#[test]
fn mul_missing_right() {
    err1("12*;", 1, ";", "Expression expected, found `;`");
}

#[test]
fn type_mismatch() {
    err1("1 / false;", 1, "/", "Operands must be two numbers.");
    err1("true / 1;", 1, "/", "Operands must be two numbers.");
}

#[test]
fn grouping_number() {
    ok("(12);", number(12.0))
}

#[test]
fn grouping_only() {
    ok("(12+3);", number(15.0))
}

#[test]
fn add_mul() {
    ok("(12+3)*4;", number(60.0))
}

#[test]
fn add_mul_2() {
    ok("(12*3)+4;", number(40.0))
}

#[test]
fn mul_add() {
    ok("12*(3+4);", number(84.0))
}

#[test]
fn grouping_unary_minus() {
    ok("-(12 + 34);", number(-46.0))
}

#[test]
fn binary_minus() {
    ok("123-(45+67);", number(11.0))
}

#[test]
fn nested() {
    ok("123-(45-(67-8));", number(137.0))
}

#[test]
fn grouping_no_semicolon() {
    err1("(12+34)", 1, "end", "Semicolon expected.");
}

#[test]
fn missing_right_paren() {
    err("(12+3;", vec![Error::new(1, ";", "Right paren expected")]);
}

#[test]
fn missing_left_paren() {
    err("12+3);", vec![Error::new(1, ")", "Semicolon expected.")]);
}

#[test]
fn number_simple_number() {
    ok("123;", number(123.0))
}

#[test]
fn number_number_no_semicolon() {
    err1("123", 1, "end", "Semicolon expected.");
}

#[test]
fn scanner_unexpected_character() {
    err1("@", 1, "@", "Unexpected character.");
}

#[test]
fn scanner_unexpected_character_at_line_2() {
    err1("\n@", 2, "@", "Unexpected character.");
}

#[test]
fn comment() {
    ok("12 + 34; // comment", number(46.0));
    ok("12 + // comment\n 34; ", number(46.0));
    err1("12 + // comment\n 34", 2, "end", "Semicolon expected.");
}

#[test]
fn term_add_12_34() {
    ok("12+34;", number(46.0))
}

#[test]
fn term_add_12_34_56() {
    ok("12+34+56;", number(102.0))
}

#[test]
fn term_add_unary_minus() {
    ok("34+-12;", number(22.0))
}

#[test]
fn add_factors() {
    ok("1*-2*3+4*5/2;", number(4.0))
}

#[test]
fn term_sub_34_12() {
    ok("34-12;", number(22.0))
}

#[test]
fn term_sub_56_34_12() {
    ok("56-34-12;", number(10.0))
}

#[test]
fn term_addition_no_semicolon() {
    err1("12+34", 1, "end", "Semicolon expected.");
}

#[test]
fn term_addition_no_semicolon_after_3() {
    err1("12+34+56", 1, "end", "Semicolon expected.");
}

#[test]
fn test_unexpected_character() {
    err1("@", 1, "@", "Unexpected character.");
}

#[test]
fn test_unexpected_character_at_line_2() {
    err1("\n@", 2, "@", "Unexpected character.");
}

#[test]
fn test_simple_number() {
    ok("123;", number(123.0))
}

#[test]
fn test_number_no_semicolon() {
    err1("123", 1, "end", "Semicolon expected.");
}

#[test]
fn test_unary_minus() {
    ok("-12;", number(-12.0))
}

#[test]
fn test_add_unary_minus() {
    ok("34+-12;", number(22.0))
}

#[test]
fn test_add_12_34() {
    ok("12+34;", number(46.0))
}

#[test]
fn test_add_12_34_56() {
    ok("12+34+56;", number(102.0))
}

#[test]
fn test_sub_34_12() {
    ok("34-12;", number(22.0))
}

#[test]
fn test_sub_56_34_12() {
    ok("56-34-12;", number(10.0))
}

#[test]
fn test_addition_no_semicolon() {
    err1("12+34", 1, "end", "Semicolon expected.");
}

#[test]
fn test_addition_no_semicolon_after_3() {
    err1("12+34+56", 1, "end", "Semicolon expected.");
}

#[test]
fn unary_unary_minus() {
    ok("-12;", number(-12.0))
}

#[test]
fn unary_unary_minus_missing_right() {
    err1("-;", 1, ";", "Expression expected, found `;`");
}

#[test]
fn arithmetic_follows_precedence() {
    ok("12+-34*56-78/90;", number((12.0 + (-34.0 * 56.0)) - (78.0 / 90.0)));
    ok("1/3;", number(1.0 / 3.0));
    ok("1/0;", number(f64::INFINITY));
}

#[test]
fn program_value_is_that_of_the_last_statement() {
    ok("", Value::Null);
    ok("1; 2;", number(2.0));
    ok("1; print 2;", Value::Null);
    ok("let a = 1;", Value::Null);
    ok("true;", Value::Bool(true));
    ok("{ 1; 2; }", number(2.0));
    ok("{}", Value::Null);
}

#[test]
fn print_writes_each_kind_of_value() {
    prints(
        "print 12; print 1/4; print true; print false; print function(a, b){}; print function(){};",
        &["12", "0.25", "true", "false", "(function (a b))", "(function ())"],
    );
    prints("let f = function(){}; print f(); let a; print a = f();", &["null", "null"]);
}

#[test]
fn let_inside_a_block_is_invisible_after_it() {
    err1("{ let a = 1; } a;", 1, "a", "Variable not defined.");
    err1("if (true) { let a = 1; } a;", 1, "a", "Variable not defined.");
}

#[test]
fn shadowing_leaves_the_outer_binding() {
    ok("let a = 1; { let a = 2; a = 3; } a;", number(1.0));
    prints("let a = 1; { let a = 2; print a; } print a;", &["2", "1"]);
}

#[test]
fn assignment_reaches_the_enclosing_scope() {
    ok("let a = 1; { a = 2; } a;", number(2.0));
    ok("let a = 1; a = a + 1;", number(2.0));
    ok("let a; let b; a = b = 3; a + b;", number(6.0));
}

#[test]
fn variable_errors() {
    err1("a;", 1, "a", "Variable not defined.");
    err1("a = 1;", 1, "a", "Variable not defined.");
    err1("let a; a;", 1, "a", "Variable not initialized.");
    err1("let a = 1;\nlet a = 2;", 2, "a", "Variable already defined.");
    ok("let a; a = 1; a;", number(1.0));
}

#[test]
fn closure_keeps_its_defining_scope() {
    ok(
        "let make = function() { let n = 10; return function() { n = n + 1; return n; }; };
         let next = make();
         next(); next();",
        number(12.0),
    );
    ok(
        "let a = 1;
         let f = function() { return a; };
         let g = function() { let a = 2; return f(); };
         g();",
        number(1.0),
    );
}

#[test]
fn closures_from_one_call_share_their_scope() {
    ok(
        "let get; let set;
         let make = function() { let n = 1; get = function() { return n; }; set = function(v) { n = v; }; };
         make(); set(5); get();",
        number(5.0),
    );
}

#[test]
fn function_call_binds_arguments_and_returns() {
    ok("let add = function(a, b) { return a + b; }; add(1, 2);", number(3.0));
    ok("let f = function() { 1; }; f();", Value::Null);
    ok("let f = function() { return; 1; }; f();", Value::Null);
    ok("function(a) { return a; }(7);", number(7.0));
    ok("let f = function(n) { if (n) return n + f(n - 1); else return 0; }; f(4);", number(10.0));
    ok("let twice = function(f) { return function(x) { return f(f(x)); }; }; twice(function(x) { return x * 3; })(2);", number(18.0));
}

#[test]
fn return_unwinds_loops_and_blocks_of_the_call() {
    ok("let f = function() { while (true) { { return 5; } } }; f();", number(5.0));
    prints(
        "let a = 1; let f = function() { let a = 2; { let a = 3; return a; } }; print f(); print a;",
        &["3", "1"],
    );
}

#[test]
fn call_errors() {
    err1("1(2);", 1, "(", "Callee is not a function.");
    err1("let f = function(a) {};\nf();", 2, "(", "Number of the arguments does not match.");
    err1("let f = function() {}; f(1);", 1, "(", "Number of the arguments does not match.");
    err1("function(a, a) {}(1, 2);", 1, "a", "Variable already defined.");
    err1("let f = function() { return b; }; f();", 1, "b", "Variable not defined.");
}

#[test]
fn arguments_are_evaluated_in_the_scope_of_the_caller() {
    ok("let x = 1; let f = function(x) { return x; }; { let x = 2; f(x + 1); }", number(3.0));
}

#[test]
fn break_leaves_one_loop_with_its_value() {
    ok("while (true) break;", Value::Null);
    ok("while (true) break 7;", number(7.0));
    ok("while (true) { { break 7; } }", number(7.0));
    prints(
        "let i = 0;
         while (i - 2) { i = i + 1; let j = 0; while (true) { j = j + 1; if (j - 2) {} else break; } print j; }
         print i;",
        &["2", "2", "2"],
    );
}

#[test]
fn break_passes_through_a_call() {
    ok("let f = function() { break 3; }; while (true) f();", number(3.0));
}

#[test]
fn while_yields_the_value_of_its_last_round() {
    ok("while (false) 1;", Value::Null);
    ok("let i = 3; while (i) i = i - 1;", number(0.0));
    ok("let i = 0; while (i - 3) { i = i + 1; i * 10; }", number(30.0));
    err1("while (a) 1;", 1, "a", "Variable not defined.");
    err1("while (true) a;", 1, "a", "Variable not defined.");
}

#[test]
fn break_or_return_outside_ends_the_program_with_its_value() {
    ok("1; break 2; 3;", number(2.0));
    ok("1; return 2; 3;", number(2.0));
    ok("return;", Value::Null);
    ok("{ let a = 4; return a; }", number(4.0));
}

#[test]
fn if_chooses_by_truthiness() {
    ok("if (1) 2; else 3;", number(2.0));
    ok("if (0) 2; else 3;", number(3.0));
    ok("if (0 - 0) 2; else 3;", number(3.0));
    ok("if (-0) 2; else 3;", number(3.0));
    ok("if (false) 2;", Value::Null);
    ok("if (function(){}) 2; else 3;", number(2.0));
    ok("if (function(){}()) 2; else 3;", number(3.0));
    ok("if (0/0) 2; else 3;", number(2.0));
}

#[test]
fn ternary_evaluates_one_branch() {
    ok("true ? 1 : 2;", number(1.0));
    ok("false ? 1 : 2;", number(2.0));
    prints("let a = 0; true ? (a = 1) : (a = 2); print a;", &["1"]);
    prints("let a = 0; false ? (a = 1) : (a = 2); print a;", &["2"]);
    prints("let f = function(x) { print x; return x; }; f(0) ? f(1) : f(2);", &["0", "2"]);
    ok("true ? 1 : b;", number(1.0));
}

#[test]
fn logical_operators_short_circuit() {
    ok("true || a;", Value::Bool(true));
    ok("false && a;", Value::Bool(false));
    ok("false || 3;", number(3.0));
    ok("true && 3;", number(3.0));
    ok("0 || false;", Value::Bool(false));
    ok("2 && 0;", number(0.0));
    err1("false || a;", 1, "a", "Variable not defined.");
    err1("true && a;", 1, "a", "Variable not defined.");
    prints(
        "let f = function(x) { print x; return x; }; f(1) || f(2); f(0) && f(3); f(0) || f(4); f(5) && f(6);",
        &["1", "0", "0", "4", "5", "6"],
    );
}

#[test]
fn unary_minus_needs_a_number() {
    err1("-true;", 1, "-", "Operand must be a number.");
    err1("let f = function(){}; 1 + -f;", 1, "-", "Operand must be a number.");
    ok("-0;", number(-0.0));
    ok("let f = function(x) { return x * 2; }; 1 - -f(3);", number(7.0));
    let nan = match run("0/0;") {
        Ok(Value::Number(bits)) => bits,
        other => panic!("Failed - result: {:?}", other),
    };
    ok("-(0/0);", Value::Number(nan ^ 0x8000_0000_0000_0000));
}

#[test]
fn operands_are_both_evaluated_before_the_check() {
    prints("let f = function(x) { print x; return x; }; f(1) + f(2) * f(3);", &["1", "2", "3"]);
    err1("true + a;", 1, "a", "Variable not defined.");
    err1("let f = function(){}; f + 1;", 1, "+", "Operands must be two numbers.");
    err1("1 +\n true;", 1, "+", "Operands must be two numbers.");
}

#[test]
fn runtime_error_stops_the_program() {
    let (result, printed) = run_with_output("print 1; print a; print 2;", 1000);
    assert_eq!(result, Err(vec![Error::new(1, "a", "Variable not defined.")]));
    assert_eq!(printed, ["1"]);
}

#[test]
fn scope_is_restored_after_an_error_in_a_block() {
    let statements = jasc::parse("let a = 1; { let a = 2; b; }").unwrap();
    let mut machine = Interpreter::new();
    machine.interpret(statements);
    let mut ended = None;
    for _ in 0..1000 {
        match machine.step() {
            Action::Convert(digits) => machine.supply(digits.parse::<f64>().unwrap().to_bits()),
            Action::Done(result) => {
                ended = Some(result);
                break;
            }
            _ => {}
        }
    }
    assert_eq!(ended, Some(Err(vec![Error::new(1, "b", "Variable not defined.")])));
    machine.interpret(jasc::parse("a;").unwrap());
    let mut ended = None;
    for _ in 0..1000 {
        match machine.step() {
            Action::Done(result) => {
                ended = Some(result);
                break;
            }
            _ => {}
        }
    }
    assert_eq!(ended, Some(Ok(number(1.0))));
}

#[test]
fn machine_without_a_program_is_done() {
    let mut machine = Interpreter::new();
    assert_eq!(machine.step(), Action::Done(Ok(Value::Null)));
    machine.supply(7);
    assert_eq!(machine.step(), Action::Done(Ok(Value::Null)));
}

#[test]
fn machine_waits_for_the_number_it_asked_for() {
    let mut machine = Interpreter::new();
    machine.interpret(jasc::parse("0012 + 3;").unwrap());
    let mut asked = vec![];
    loop {
        match machine.step() {
            Action::Convert(digits) => {
                assert_eq!(machine.step(), Action::Convert(digits.clone()));
                asked.push(digits.clone());
                machine.supply(digits.parse::<f64>().unwrap().to_bits());
            }
            Action::Compute(op, left, right) => {
                assert_eq!(op, TokenValue::Plus);
                assert_eq!(machine.step(), Action::Compute(op, left, right));
                machine.supply((f64::from_bits(left) + f64::from_bits(right)).to_bits());
            }
            Action::Done(result) => {
                assert_eq!(result, Ok(number(15.0)));
                break;
            }
            _ => {}
        }
    }
    assert_eq!(asked, ["12", "3"]);
}

#[test]
fn unending_loop_keeps_stepping() {
    let statements = jasc::parse("while (true) {}").unwrap();
    let mut machine = Interpreter::new();
    machine.interpret(statements);
    for _ in 0..10_000 {
        assert_eq!(machine.step(), Action::Continue);
    }
}

#[test]
fn advance_stops_at_what_is_asked() {
    let mut machine = Interpreter::new();
    machine.interpret(jasc::parse("{ { 1; } } print 2 + 3;").unwrap());
    assert_eq!(machine.advance(0), Action::Continue);
    assert_eq!(machine.advance(1), Action::Continue);
    assert_eq!(machine.advance(1000), Action::Convert("1".to_string()));
    assert_eq!(machine.advance(1000), Action::Convert("1".to_string()));
    machine.supply(1.0f64.to_bits());
    assert_eq!(machine.advance(1000), Action::Convert("2".to_string()));
    machine.supply(2.0f64.to_bits());
    assert_eq!(machine.advance(1000), Action::Convert("3".to_string()));
    machine.supply(3.0f64.to_bits());
    assert_eq!(
        machine.advance(1000),
        Action::Compute(TokenValue::Plus, 2.0f64.to_bits(), 3.0f64.to_bits())
    );
    machine.supply(5.0f64.to_bits());
    assert_eq!(machine.advance(1000), Action::Print(number(5.0)));
    assert_eq!(machine.advance(1000), Action::Done(Ok(Value::Null)));
    assert_eq!(machine.advance(1000), Action::Done(Ok(Value::Null)));
}

#[test]
fn advance_and_step_agree() {
    let src = "let i = 0; while (i - 3) { i = i + 1; } i;";
    let mut stepped = Interpreter::new();
    stepped.interpret(jasc::parse(src).unwrap());
    let mut advanced = Interpreter::new();
    advanced.interpret(jasc::parse(src).unwrap());
    loop {
        let expected = loop {
            match stepped.step() {
                Action::Continue => {}
                other => break other,
            }
        };
        let action = advanced.advance(usize::MAX);
        assert_eq!(action, expected);
        match action {
            Action::Convert(digits) => {
                let bits = digits.parse::<f64>().unwrap().to_bits();
                stepped.supply(bits);
                advanced.supply(bits);
            }
            Action::Compute(op, l, r) => {
                let (l, r) = (f64::from_bits(l), f64::from_bits(r));
                let bits = match op {
                    TokenValue::Plus => l + r,
                    _ => l - r,
                }
                .to_bits();
                stepped.supply(bits);
                advanced.supply(bits);
            }
            Action::Done(result) => {
                assert_eq!(result, Ok(number(3.0)));
                break;
            }
            _ => {}
        }
    }
}

#[test]
fn loading_a_program_goes_back_to_the_global_scope() {
    let mut machine = Interpreter::new();
    machine.interpret(jasc::parse("let a = true; { let a = false; while (true) {} }").unwrap());
    assert_eq!(machine.advance(100), Action::Continue);
    machine.interpret(jasc::parse("a;").unwrap());
    assert_eq!(machine.advance(100), Action::Done(Ok(Value::Bool(true))));
}

#[test]
fn closure_outlives_many_blocks_and_calls() {
    ok(
        "let counter = function() { let n = 0; return function() { n = n + 1; return n; }; };
         let a = counter();
         let b = counter();
         let i = 0;
         while (i - 50) { { let t = a(); { let u = b(); } } i = i + 1; }
         a() * 100 + b();",
        number(5151.0),
    );
}

#[test]
fn scopes_of_ended_blocks_and_calls_do_not_pile_up() {
    let src = "let f = function(x) { { let y = x; } return x; };
               let i = 0;
               while (i - 200) { { let a = f(i); { let b = a; } } i = i + 1; }
               let g = function() { return function() {}; };
               let j = 0;
               while (j - 3) { g(); j = j + 1; }";
    let mut machine = Interpreter::new();
    machine.interpret(jasc::parse(src).unwrap());
    let mut closures = 0;
    loop {
        match machine.advance(usize::MAX) {
            Action::Convert(digits) => machine.supply(digits.parse::<f64>().unwrap().to_bits()),
            Action::Compute(op, l, r) => {
                let (l, r) = (f64::from_bits(l), f64::from_bits(r));
                machine.supply(
                    match op {
                        TokenValue::Plus => l + r,
                        _ => l - r,
                    }
                    .to_bits(),
                );
            }
            Action::Done(result) => {
                assert_eq!(result, Ok(number(3.0)));
                break;
            }
            _ => {}
        }
    }
    machine.interpret(jasc::parse("function() {};").unwrap());
    loop {
        match machine.advance(usize::MAX) {
            Action::Done(Ok(Value::Function(_, _, scope))) => {
                assert_eq!(scope, 0);
                closures += 1;
                break;
            }
            Action::Done(other) => panic!("Failed - result: {:?}", other),
            _ => {}
        }
    }
    assert_eq!(closures, 1);
    machine.interpret(jasc::parse("{ function() {}; }").unwrap());
    loop {
        match machine.advance(usize::MAX) {
            Action::Done(Ok(Value::Function(_, _, scope))) => {
                // each of the three closures made by `g` keeps the two
                // scopes of its call and the block around the call; every
                // other scope was released
                assert_eq!(scope, 10);
                break;
            }
            Action::Done(other) => panic!("Failed - result: {:?}", other),
            _ => {}
        }
    }
}

/// An expression of arithmetic, for the comparison below.
enum Sum {
    Number(u32),
    Group(Box<Sum>),
    Negated(Box<Sum>),
    Binary(char, Box<Sum>, Box<Sum>),
}

/// Pseudo-random numbers, the same on every run.
fn next(seed: &mut u64) -> u64 {
    *seed = seed.wrapping_mul(6364136223846793005).wrapping_add(1442695040888963407);
    *seed >> 33
}

/// A number, a group, or either with a minus before it.
fn factor(seed: &mut u64, depth: u32) -> Sum {
    let atom = if depth > 0 && next(seed) % 4 == 0 {
        Sum::Group(Box::new(sum(seed, depth - 1)))
    } else {
        Sum::Number((next(seed) % 1000) as u32)
    };
    if next(seed) % 5 == 0 {
        Sum::Negated(Box::new(atom))
    } else {
        atom
    }
}

/// Factors joined by `*` and `/`, grouped from the left.
fn product(seed: &mut u64, depth: u32) -> Sum {
    let mut left = factor(seed, depth);
    for _ in 0..next(seed) % 3 {
        let op = if next(seed) % 2 == 0 { '*' } else { '/' };
        left = Sum::Binary(op, Box::new(left), Box::new(factor(seed, depth)));
    }
    left
}

/// Products joined by `+` and `-`, grouped from the left.
fn sum(seed: &mut u64, depth: u32) -> Sum {
    let mut left = product(seed, depth);
    for _ in 0..next(seed) % 4 {
        let op = if next(seed) % 2 == 0 { '+' } else { '-' };
        left = Sum::Binary(op, Box::new(left), Box::new(product(seed, depth)));
    }
    left
}

fn spell(e: &Sum) -> String {
    match e {
        Sum::Number(n) => format!("{}", n),
        Sum::Group(inner) => format!("({})", spell(inner)),
        Sum::Negated(inner) => format!("-{}", spell(inner)),
        Sum::Binary(op, left, right) => format!("{} {} {}", spell(left), op, spell(right)),
    }
}

fn value(e: &Sum) -> f64 {
    match e {
        Sum::Number(n) => *n as f64,
        Sum::Group(inner) => value(inner),
        Sum::Negated(inner) => -value(inner),
        Sum::Binary('+', left, right) => value(left) + value(right),
        Sum::Binary('-', left, right) => value(left) - value(right),
        Sum::Binary('*', left, right) => value(left) * value(right),
        Sum::Binary(_, left, right) => value(left) / value(right),
    }
}

#[test]
fn arithmetic_is_that_of_the_spelled_sum() {
    let mut seed = 2026;
    for _ in 0..500 {
        let e = sum(&mut seed, 3);
        let src = format!("{};", spell(&e));
        let expected = value(&e);
        match run(&src) {
            Ok(Value::Number(bits)) => {
                let got = f64::from_bits(bits);
                assert!(
                    got.to_bits() == expected.to_bits() || (got.is_nan() && expected.is_nan()),
                    "{} gave {} and not {}",
                    src,
                    got,
                    expected
                );
            }
            other => panic!("{} gave {:?}", src, other),
        }
    }
}
