use zawa::expr::{Expr, LiteralValue};
use zawa::interpreter::{Action, Event, Interpreter, Request};
use zawa::number::Number;
use zawa::parser::Parser;
use zawa::stmt::Stmt;
use zawa::tokenizer::{Token, TokenType, Tokenizer};

fn number(x: f64) -> Number {
    Number::new(x.to_bits(), x.to_string())
}

fn parse(source: &str) -> Vec<Stmt> {
    let mut tokenizer = Tokenizer::new(source);
    let mut tokens = tokenizer.tokenize().unwrap();
    for token in tokens.iter_mut() {
        if token.wants_number() {
            let value: f64 = token.lexeme.parse().unwrap();
            token.attach(number(value));
        }
    }
    let mut parser = Parser::new(tokens);
    parser.parse().unwrap()
}

/// What a run left behind: what was written, and how it ended.
struct Run {
    output: String,
    failure: Option<String>,
    exit: Option<LiteralValue>,
}

fn answer(request: Request) -> Event {
    match request {
        Request::Arith { operator, left, right } => {
            let a = f64::from_bits(left.bits);
            let b = f64::from_bits(right.bits);
            let r = match operator {
                TokenType::Plus => a + b,
                TokenType::Minus => a - b,
                TokenType::Star => a * b,
                TokenType::Slash => a / b,
                _ => panic!("not an arithmetic operator"),
            };
            Event::Number(number(r))
        }
        Request::Negate { operand } => Event::Number(number(-f64::from_bits(operand.bits))),
        Request::Time => Event::Number(number(1700000000.125)),
    }
}

fn drive<'a>(interpreter: &mut Interpreter<'a>, program: &'a Vec<Stmt>) -> Run {
    interpreter.interpret(program.iter().collect());
    let mut run = Run { output: String::new(), failure: None, exit: None };
    let mut event = Event::Resume;
    loop {
        match interpreter.step(event) {
            Action::Continue => event = Event::Resume,
            Action::Done => return run,
            Action::Failed(message) => {
                run.failure = Some(message);
                return run;
            }
            Action::Write { text, newline } => {
                run.output.push_str(&text);
                if newline {
                    run.output.push('\n');
                }
                event = Event::Resume;
            }
            Action::Ask(request) => event = answer(request),
            Action::Exit(code) => {
                run.exit = Some(code);
                return run;
            }
        }
    }
}

fn execute(source: &str) -> Run {
    let program = parse(source);
    let mut interpreter = Interpreter::new();
    drive(&mut interpreter, &program)
}

fn output(source: &str) -> String {
    let run = execute(source);
    assert_eq!(run.failure, None);
    assert!(run.exit.is_none());
    run.output
}

fn failure(source: &str) -> String {
    execute(source).failure.unwrap()
}

fn name(text: &str) -> String {
    String::from(text)
}

#[test]
fn prints_hello_world() {
    assert_eq!(output("println(\"Hello, world!\");"), "Hello, world!\n");
    assert_eq!(output("print \"Hello, world!\";"), "Hello, world!\n");
}

#[test]
fn arithmetic_is_that_of_doubles() {
    assert_eq!(output("println(1 + 2);"), "3\n");
    assert_eq!(output("println(0.1 + 0.2);"), "0.30000000000000004\n");
    assert_eq!(output("println(7 - 10);"), "-3\n");
    assert_eq!(output("println(6 * 7);"), "42\n");
    assert_eq!(output("println(1 / 4);"), "0.25\n");
    assert_eq!(output("println(1 / 0);"), "inf\n");
    assert_eq!(output("println(-(2 + 3));"), "-5\n");
    assert_eq!(output("println(2 + 3 * 4 - 6 / 2);"), "11\n");
}

#[test]
fn comparisons_of_numbers_and_strings() {
    assert_eq!(output("println(1 < 2); println(2 < 1); println(1 < 1);"), "true\nfalse\nfalse\n");
    assert_eq!(output("println(1 <= 1); println(2 <= 1);"), "true\nfalse\n");
    assert_eq!(output("println(2 > 1); println(1 > 1);"), "true\nfalse\n");
    assert_eq!(output("println(1 >= 1); println(1 >= 2);"), "true\nfalse\n");
    assert_eq!(output("println(-1 < 0); println(0 < -1); println(-2 < -1);"), "true\nfalse\ntrue\n");
    assert_eq!(output("println(\"a\" < \"b\"); println(\"b\" < \"a\");"), "true\nfalse\n");
    assert_eq!(output("println(\"a\" <= \"a\"); println(\"ab\" <= \"a\");"), "true\nfalse\n");
    assert_eq!(output("println(\"b\" > \"a\"); println(\"a\" > \"a\");"), "true\nfalse\n");
    assert_eq!(output("println(\"a\" >= \"a\"); println(\"a\" >= \"ab\");"), "true\nfalse\n");
}

#[test]
fn strings_concatenate() {
    assert_eq!(output("println(\"ab\" + \"cd\");"), "abcd\n");
    assert_eq!(output("println(\"\" + \"\" == \"\");"), "true\n");
}

#[test]
fn equality_is_never_a_type_error() {
    assert_eq!(output("println(1 == 1); println(1 != 1);"), "true\nfalse\n");
    assert_eq!(output("println(1 == \"1\"); println(\"1\" != 1);"), "false\ntrue\n");
    assert_eq!(output("println(null == null); println(null == false);"), "true\nfalse\n");
    assert_eq!(output("println(true == true); println(true != false);"), "true\ntrue\n");
    assert_eq!(output("println(0 == -0);"), "true\n");
    assert_eq!(output("println(0 / 0 == 0 / 0); println(0 / 0 != 0 / 0);"), "false\ntrue\n");
    assert_eq!(output("println(println == println); println(println == time);"), "true\nfalse\n");
    assert_eq!(
        output("fn f(a) {} fn g(a) {} let h = f; println(f == h); println(f == g);"),
        "true\nfalse\n"
    );
}

#[test]
fn an_operator_on_the_wrong_types_is_an_error() {
    assert_eq!(
        failure("true * \"a\";"),
        "Binary operator Star cannot be applied for operands Boolean, String"
    );
    assert_eq!(
        failure("1 + \"a\";"),
        "Binary operator Plus cannot be applied for operands Number, String"
    );
    assert_eq!(
        failure("\"a\" - \"b\";"),
        "Binary operator Minus cannot be applied for operands String, String"
    );
    assert_eq!(
        failure("\"a\" < 1;"),
        "Binary operator Less cannot be applied for operands String, Number"
    );
    assert_eq!(
        failure("null / 2;"),
        "Binary operator Slash cannot be applied for operands Null, Number"
    );
    assert_eq!(
        failure("println >= 2;"),
        "Binary operator GreaterEqual cannot be applied for operands Callable, Number"
    );
    assert_eq!(
        failure("true > false;"),
        "Binary operator Greater cannot be applied for operands Boolean, Boolean"
    );
    assert_eq!(
        failure("null <= null;"),
        "Binary operator LessEqual cannot be applied for operands Null, Null"
    );
}

#[test]
fn unary_operators() {
    assert_eq!(output("println(-3); println(--3);"), "-3\n3\n");
    assert_eq!(output("println(!true); println(!false); println(!null);"), "false\ntrue\ntrue\n");
    assert_eq!(output("println(!0); println(!1); println(!\"\"); println(!\"a\");"), "true\nfalse\ntrue\nfalse\n");
    assert_eq!(output("println(!println);"), "false\n");
    assert_eq!(failure("-\"a\";"), "Minus not implemented for String");
    assert_eq!(failure("-true;"), "Minus not implemented for Boolean");
    assert_eq!(failure("-null;"), "Minus not implemented for Null");
}

#[test]
fn logical_operators_return_an_operand() {
    assert_eq!(output("println(1 or 2); println(0 or 2); println(0 or \"\");"), "1\n2\n\n");
    assert_eq!(output("println(1 and 2); println(0 and 2); println(null and 2);"), "2\n0\nnull\n");
    assert_eq!(output("println(false or null or 3);"), "3\n");
}

#[test]
fn logical_operators_skip_the_right_operand() {
    assert_eq!(
        output("fn loud() { println(\"called\"); return true; } println(true or loud());"),
        "true\n"
    );
    assert_eq!(
        output("fn loud() { println(\"called\"); return true; } println(false and loud());"),
        "false\n"
    );
    assert_eq!(
        output("fn loud() { println(\"called\"); return 7; } println(false or loud());"),
        "called\n7\n"
    );
    assert_eq!(
        output("fn loud() { println(\"called\"); return 7; } println(true and loud());"),
        "called\n7\n"
    );
    assert_eq!(output("println(true or missing);"), "true\n");
}

#[test]
fn variables_are_read_and_assigned() {
    assert_eq!(output("let a = 1; println(a); a = a + 1; println(a);"), "1\n2\n");
    assert_eq!(output("let a; println(a);"), "null\n");
    assert_eq!(output("let a = 1; println(a = 5); println(a);"), "5\n5\n");
    assert_eq!(output("let a = 1; let a = \"again\"; println(a);"), "again\n");
    assert_eq!(failure("println(a);"), "a was not declared in this scope");
    assert_eq!(failure("a = 1;"), "a was not declared in this scope");
    assert_eq!(failure("{ let a = 1; } a = 2;"), "a was not declared in this scope");
}

#[test]
fn shadowing_ends_with_the_block() {
    let program = parse("let x = 1; { let x = 2; println(x); } println(x);");
    let mut interpreter = Interpreter::new();
    let run = drive(&mut interpreter, &program);
    assert_eq!(run.failure, None);
    assert_eq!(run.output, "2\n1\n");
    assert_eq!(interpreter.get(&name("x")), Some(LiteralValue::Number(number(1.0))));
    assert_eq!(interpreter.environment(), 0);
}

#[test]
fn assignment_reaches_the_enclosing_scope() {
    assert_eq!(output("let x = 1; { x = 2; { x = x + 1; } } println(x);"), "3\n");
    assert_eq!(output("let x = 1; { let x = 5; x = 6; println(x); } println(x);"), "6\n1\n");
}

#[test]
fn branches() {
    assert_eq!(output("if (1 < 2) println(\"a\"); else println(\"b\");"), "a\n");
    assert_eq!(output("if (1 > 2) println(\"a\"); else println(\"b\");"), "b\n");
    assert_eq!(output("if (false) println(\"a\"); println(\"c\");"), "c\n");
    assert_eq!(output("if (\"\") println(\"a\"); else if (0) println(\"b\"); else println(\"c\");"), "c\n");
}

#[test]
fn while_counts_down() {
    assert_eq!(
        output("let i = 4; while (i >= 0) { println(i); i = i - 1; }"),
        "4\n3\n2\n1\n0\n"
    );
    assert_eq!(output("while (false) println(1); println(2);"), "2\n");
}

#[test]
fn for_counts_up_and_hides_its_variable() {
    assert_eq!(
        output("for (let i = 0; i < 5; i = i + 1) println(i);"),
        "0\n1\n2\n3\n4\n"
    );
    let run = execute("for (let i = 0; i < 5; i = i + 1) println(i); println(i);");
    assert_eq!(run.output, "0\n1\n2\n3\n4\n");
    assert_eq!(run.failure, Some(name("i was not declared in this scope")));
}

#[test]
fn for_without_clauses() {
    assert_eq!(
        output("let i = 0; for (;;) { if (i == 3) break; println(i); i = i + 1; }"),
        "0\n1\n2\n"
    );
    assert_eq!(
        output("let i = 0; for (; i < 2;) { println(i); i = i + 1; }"),
        "0\n1\n"
    );
    assert_eq!(output("let i; for (i = 5; i < 7; i = i + 1) println(i); println(i);"), "5\n6\n7\n");
}

#[test]
fn fibonacci_by_a_loop() {
    assert_eq!(
        output(
            "let a = 0; let b = 1; for (let i = 0; i < 12; i = i + 1) { println(a); let c = a + b; a = b; b = c; }"
        ),
        "0\n1\n1\n2\n3\n5\n8\n13\n21\n34\n55\n89\n"
    );
}

#[test]
fn break_ends_the_innermost_loop_only() {
    assert_eq!(
        output(
            "for (let i = 0; i < 3; i = i + 1) { for (let j = 0; j < 10; j = j + 1) { if (j == 2) break; println(i * 10 + j); } }"
        ),
        "0\n1\n10\n11\n20\n21\n"
    );
    assert_eq!(
        output(
            "let i = 0; while (i < 2) { let j = 0; while (true) { j = j + 1; if (j > 2) { { break; } } } i = i + 1; println(j); } println(\"end\");"
        ),
        "3\n3\nend\n"
    );
}

#[test]
fn break_skips_the_rest_of_the_body() {
    assert_eq!(
        output("while (true) { println(1); break; println(2); } println(3);"),
        "1\n3\n"
    );
    assert_eq!(
        output("while (true) { if (true) { println(1); break; println(2); } println(4); } println(3);"),
        "1\n3\n"
    );
}

#[test]
fn break_is_also_a_name() {
    assert_eq!(
        output("let break = 3; let i = 0; while (true) { i = i + 1; if (i == break) break; } println(i);"),
        "3\n"
    );
}

#[test]
fn break_outside_a_loop_ends_the_program() {
    assert_eq!(output("println(1); break; println(2);"), "1\n");
    assert_eq!(output("println(1); { break; } println(2);"), "1\n");
}

#[test]
fn break_in_a_function_does_not_reach_the_callers_loop() {
    assert_eq!(
        output(
            "fn f() { println(\"in\"); break; println(\"not\"); } let i = 0; while (i < 2) { println(f()); i = i + 1; } println(\"end\");"
        ),
        "in\nnull\nin\nnull\nend\n"
    );
}

#[test]
fn functions_return_values() {
    assert_eq!(output("fn add(a, b) { return a + b; } println(add(5, 7));"), "12\n");
    assert_eq!(output("fn f() { return; } println(f());"), "null\n");
    assert_eq!(output("fn f() { 1 + 1; } println(f());"), "null\n");
    assert_eq!(output("fn f() {} println(f());"), "null\n");
    assert_eq!(output("fn f() {} println(f);"), "f/0\n");
    assert_eq!(output("fn f(a, b, c) {} println(f);"), "f/3\n");
}

#[test]
fn return_ends_the_call_from_any_depth() {
    assert_eq!(
        output(
            "fn f(a) { { if (a > 2) { return 7; } println(\"after if\"); } println(\"after block\"); return 3; } println(f(3)); println(f(1));"
        ),
        "7\nafter if\nafter block\n3\n"
    );
    assert_eq!(
        output(
            "fn f() { let i = 0; while (true) { while (true) { i = i + 1; if (i == 4) return i; } println(\"not\"); } println(\"not\"); } println(f());"
        ),
        "4\n"
    );
    assert_eq!(
        output(
            "fn sign(a) { if (a < 0) return 0 - 1; if (a == 0) return 0; return 1; } println(sign(0 - 5)); println(sign(0)); println(sign(9));"
        ),
        "-1\n0\n1\n"
    );
}

#[test]
fn return_in_a_called_function_leaves_the_callers_loop_running() {
    assert_eq!(
        output(
            "fn f(a) { while (true) { return a * 2; } } for (let i = 0; i < 3; i = i + 1) println(f(i));"
        ),
        "0\n2\n4\n"
    );
}

#[test]
fn return_outside_a_function_ends_the_program() {
    assert_eq!(output("println(1); return 5; println(2);"), "1\n");
    assert_eq!(output("println(1); while (true) { { return; } } println(2);"), "1\n");
}

#[test]
fn functions_recurse() {
    assert_eq!(
        output(
            "fn fib(n) { if (n < 2) return n; return fib(n - 1) + fib(n - 2); } for (let i = 0; i < 20; i = i + 1) println(fib(i));"
        ),
        "0\n1\n1\n2\n3\n5\n8\n13\n21\n34\n55\n89\n144\n233\n377\n610\n987\n1597\n2584\n4181\n"
    );
    assert_eq!(
        output("fn count(n) { if (n > 1) count(n - 1); println(n); } count(3);"),
        "1\n2\n3\n"
    );
}

#[test]
fn arguments_are_evaluated_from_left_to_right() {
    assert_eq!(
        output(
            "fn say(a) { println(a); return a; } fn three(a, b, c) { return a + b + c; } println(three(say(1), say(2), say(3)));"
        ),
        "1\n2\n3\n6\n"
    );
}

#[test]
fn parameters_shadow_and_stay_local() {
    assert_eq!(
        output("let a = 1; fn f(a) { a = a + 10; return a; } println(f(5)); println(a);"),
        "15\n1\n"
    );
    assert_eq!(
        output("let a = 1; fn f() { a = a + 10; } f(); f(); println(a);"),
        "21\n"
    );
    assert_eq!(
        failure("fn f() { let inside = 1; } f(); println(inside);"),
        "inside was not declared in this scope"
    );
}

#[test]
fn closures_keep_their_own_counters() {
    assert_eq!(
        output(
            "fn make() { let count = 0; fn increment() { count = count + 1; return count; } return increment; } let a = make(); let b = make(); println(a()); println(a()); println(b());"
        ),
        "1\n2\n1\n"
    );
}

#[test]
fn a_closure_resolves_names_where_it_was_declared() {
    assert_eq!(
        output(
            "let x = \"global\"; fn show() { println(x); } fn other() { let x = \"local\"; show(); } other();"
        ),
        "global\n"
    );
    assert_eq!(
        output(
            "let x = 1; fn show() { println(x); } show(); x = 2; show();"
        ),
        "1\n2\n"
    );
    assert_eq!(
        output(
            "fn outer() { let v = \"first\"; fn inner() { return v; } v = \"second\"; return inner; } println(outer()());"
        ),
        "second\n"
    );
}

#[test]
fn calls_check_callee_and_arity() {
    assert_eq!(failure("let a = 1; a();"), "Number is not callable");
    assert_eq!(failure("\"f\"(1);"), "String is not callable");
    assert_eq!(failure("null();"), "Null is not callable");
    assert_eq!(failure("true();"), "Boolean is not callable");
    assert_eq!(
        failure("fn f(a, b) {} f(1);"),
        "Callable f expected 2 arguments but 1 were given"
    );
    assert_eq!(
        failure("fn f() {} f(1, 2, 3);"),
        "Callable f expected 0 arguments but 3 were given"
    );
    assert_eq!(failure("println();"), "Callable println expected 1 arguments but 0 were given");
    assert_eq!(failure("time(1);"), "Callable time expected 0 arguments but 1 were given");
}

#[test]
fn arity_is_checked_before_the_arguments_run() {
    let run = execute("fn say(a) { println(a); return a; } fn f() {} f(say(1));");
    assert_eq!(run.output, "");
    assert_eq!(run.failure, Some(name("Callable f expected 0 arguments but 1 were given")));
}

#[test]
fn a_runtime_error_ends_the_program_at_once() {
    let run = execute("println(1); println(missing); println(2);");
    assert_eq!(run.output, "1\n");
    assert_eq!(run.failure, Some(name("missing was not declared in this scope")));
    let run = execute("fn f() { println(\"in\"); return 1 + null; } println(\"a\"); f(); println(\"b\");");
    assert_eq!(run.output, "a\nin\n");
    assert_eq!(
        run.failure,
        Some(name("Binary operator Plus cannot be applied for operands Number, Null"))
    );
}

#[test]
fn an_error_restores_the_root_scope() {
    let first = parse("let a = 1; { let b = 2; { b + missing; } }");
    let second = parse("println(a); let c = 3;");
    let mut interpreter = Interpreter::new();
    let run = drive(&mut interpreter, &first);
    assert_eq!(run.failure, Some(name("missing was not declared in this scope")));
    assert_eq!(interpreter.environment(), 0);
    assert!(interpreter.is_idle());
    let run = drive(&mut interpreter, &second);
    assert_eq!(run.failure, None);
    assert_eq!(run.output, "1\n");
    assert_eq!(interpreter.get(&name("c")), Some(LiteralValue::Number(number(3.0))));
    assert_eq!(interpreter.get(&name("b")), None);
}

#[test]
fn declarations_persist_from_program_to_program() {
    let first = parse("let total = 0; fn add(n) { total = total + n; return total; }");
    let second = parse("add(2); println(add(3));");
    let third = parse("println(total);");
    let mut interpreter = Interpreter::new();
    assert_eq!(drive(&mut interpreter, &first).output, "");
    assert_eq!(drive(&mut interpreter, &second).output, "5\n");
    assert_eq!(drive(&mut interpreter, &third).output, "5\n");
}

#[test]
fn the_root_scope_holds_the_native_functions() {
    assert_eq!(
        output("println(time); println(println); println(exit);"),
        "time/0\nprintln/1\nexit/1\n"
    );
    let interpreter = Interpreter::new();
    assert_eq!(interpreter.get(&name("print")).unwrap().to_string(), "print/1");
    assert_eq!(interpreter.get(&name("time")).unwrap().to_string(), "time/0");
    assert!(interpreter.is_idle());
    assert_eq!(interpreter.environment(), 0);
    assert_eq!(interpreter.get(&name("nothing")), None);
}

#[test]
fn time_is_asked_of_the_host() {
    assert_eq!(output("println(time());"), "1700000000.125\n");
    assert_eq!(output("let t = time(); println(time() - t);"), "0\n");
}

#[test]
fn print_writes_without_a_newline() {
    let program = parse("let p = println; p(1);");
    let mut interpreter = Interpreter::new();
    assert_eq!(drive(&mut interpreter, &program).output, "1\n");
    let callee = Expr::Variable {
        name: Token {
            token_type: TokenType::Identifier,
            lexeme: name("print"),
            literal: None,
            line_number: 0,
        },
    };
    let call = |text: &str| Stmt::Expression {
        expression: Expr::Call {
            callee: Box::new(Expr::Variable {
                name: Token {
                    token_type: TokenType::Identifier,
                    lexeme: name("print"),
                    literal: None,
                    line_number: 0,
                },
            }),
            paren: Token {
                token_type: TokenType::RightParen,
                lexeme: name(")"),
                literal: None,
                line_number: 0,
            },
            arguments: vec![Expr::Literal { value: LiteralValue::StringValue(name(text)) }],
        },
    };
    assert_eq!(callee.to_string(), "var print");
    let program = vec![call("0 "), call("1 "), call("2 ")];
    let mut interpreter = Interpreter::new();
    let run = drive(&mut interpreter, &program);
    assert_eq!(run.failure, None);
    assert_eq!(run.output, "0 1 2 ");
}

#[test]
fn exit_hands_its_argument_to_the_host() {
    let run = execute("println(1); exit(3); println(2);");
    assert_eq!(run.output, "1\n");
    assert_eq!(run.failure, None);
    assert_eq!(run.exit, Some(LiteralValue::Number(number(3.0))));
    let run = execute("fn f() { while (true) { exit(\"now\"); } } f();");
    assert_eq!(run.exit, Some(LiteralValue::StringValue(name("now"))));
}

#[test]
fn a_request_stands_until_it_is_answered() {
    let program = parse("println(2 * 3);");
    let mut interpreter = Interpreter::new();
    interpreter.interpret(program.iter().collect());
    let mut action = interpreter.step(Event::Resume);
    let mut steps = 0;
    while matches!(action, Action::Continue) {
        action = interpreter.step(Event::Resume);
        steps += 1;
        assert!(steps < 100);
    }
    for _ in 0..3 {
        match &action {
            Action::Ask(Request::Arith { operator, left, right }) => {
                assert_eq!(*operator, TokenType::Star);
                assert_eq!(f64::from_bits(left.bits), 2.0);
                assert_eq!(f64::from_bits(right.bits), 3.0);
            }
            _ => panic!("no request"),
        }
        action = interpreter.step(Event::Resume);
    }
    action = interpreter.step(Event::Number(number(6.0)));
    assert!(matches!(action, Action::Continue));
    let mut written = String::new();
    loop {
        match interpreter.step(Event::Resume) {
            Action::Continue => {}
            Action::Write { text, newline } => {
                assert!(newline);
                written.push_str(&text);
            }
            Action::Done => break,
            _ => panic!("unexpected action"),
        }
    }
    assert_eq!(written, "6");
}

#[test]
fn run_stops_when_the_budget_is_spent() {
    let program = parse("while (true) {}");
    let mut interpreter = Interpreter::new();
    interpreter.interpret(program.iter().collect());
    for _ in 0..10 {
        assert!(matches!(interpreter.run(Event::Resume, 1000), Action::Continue));
        assert!(!interpreter.is_idle());
    }
    assert!(matches!(interpreter.run(Event::Resume, 0), Action::Continue));
    let program = parse("println(\"a\");");
    let mut interpreter = Interpreter::new();
    interpreter.interpret(program.iter().collect());
    match interpreter.run(Event::Resume, 1000) {
        Action::Write { text, newline } => {
            assert_eq!(text, "a");
            assert!(newline);
        }
        _ => panic!("nothing written"),
    }
    assert!(matches!(interpreter.run(Event::Resume, 1000), Action::Done));
    assert!(matches!(interpreter.run(Event::Resume, 1000), Action::Done));
    assert!(interpreter.is_idle());
}

#[test]
fn operators_that_the_parser_never_makes_are_errors() {
    let token = |token_type: TokenType, lexeme: &str| Token {
        token_type,
        lexeme: name(lexeme),
        literal: None,
        line_number: 0,
    };
    let one = || Expr::Literal { value: LiteralValue::Number(number(1.0)) };
    let program = vec![Stmt::Expression {
        expression: Expr::Unary { operator: token(TokenType::Plus, "+"), right: Box::new(one()) },
    }];
    let mut interpreter = Interpreter::new();
    assert_eq!(
        drive(&mut interpreter, &program).failure,
        Some(name("Plus is not a valid unary operator"))
    );
    let program = vec![Stmt::Expression {
        expression: Expr::Logical {
            left: Box::new(one()),
            operator: token(TokenType::Star, "*"),
            right: Box::new(one()),
        },
    }];
    let mut interpreter = Interpreter::new();
    assert_eq!(
        drive(&mut interpreter, &program).failure,
        Some(name("Invalid token in logical expression: Star"))
    );
    let program = vec![Stmt::Expression {
        expression: Expr::Binary {
            left: Box::new(one()),
            operator: token(TokenType::And, "and"),
            right: Box::new(one()),
        },
    }];
    let mut interpreter = Interpreter::new();
    assert_eq!(
        drive(&mut interpreter, &program).failure,
        Some(name("Binary operator And cannot be applied for operands Number, Number"))
    );
}

#[test]
fn scopes_are_released_when_they_are_left() {
    let program = parse(
        "let n = 0; for (let i = 0; i < 200; i = i + 1) { let a = i; { let b = a; n = n + b; } } println(n);",
    );
    let mut interpreter = Interpreter::new();
    assert_eq!(interpreter.scopes(), 1);
    let run = drive(&mut interpreter, &program);
    assert_eq!(run.output, "19900\n");
    assert_eq!(interpreter.scopes(), 1);
    assert_eq!(interpreter.environment(), 0);
}

#[test]
fn the_scopes_of_calls_are_released() {
    let program = parse(
        "fn fib(n) { if (n < 2) { return n; } return fib(n - 1) + fib(n - 2); } println(fib(15));",
    );
    let mut interpreter = Interpreter::new();
    let run = drive(&mut interpreter, &program);
    assert_eq!(run.output, "610\n");
    assert_eq!(interpreter.scopes(), 1);
}

#[test]
fn a_captured_scope_stays() {
    let program = parse(
        "fn make() { let count = 0; fn increment() { count = count + 1; return count; } return increment; } let a = make(); let b = make(); println(a()); println(a()); println(b()); println(a());",
    );
    let mut interpreter = Interpreter::new();
    let run = drive(&mut interpreter, &program);
    assert_eq!(run.output, "1\n2\n1\n3\n");
    assert_eq!(interpreter.scopes(), 3);
}

#[test]
fn a_scope_under_a_captured_one_stays_with_it() {
    let program = parse(
        "let f; { let a = 1; { fn g() { return a; } f = g; } } { let b = 2; } println(f());",
    );
    let mut interpreter = Interpreter::new();
    let run = drive(&mut interpreter, &program);
    assert_eq!(run.failure, None);
    assert_eq!(run.output, "1\n");
    assert_eq!(interpreter.scopes(), 3);
}

#[test]
fn a_failure_leaves_every_scope() {
    let program = parse("{ let a = 1; { let b = 2; { missing; } } }");
    let mut interpreter = Interpreter::new();
    let run = drive(&mut interpreter, &program);
    assert_eq!(run.failure, Some(name("missing was not declared in this scope")));
    assert_eq!(interpreter.scopes(), 1);
    assert_eq!(interpreter.environment(), 0);
    let program = parse("fn f() { { exit(1); } } f();");
    let mut interpreter = Interpreter::new();
    let run = drive(&mut interpreter, &program);
    assert!(run.exit.is_some());
    assert_eq!(interpreter.scopes(), 1);
}

#[test]
fn break_and_return_leave_the_scopes_they_pass() {
    let program = parse(
        "fn f() { { { while (true) { { return 1; } } } } } println(f()); while (true) { { { break; } } } println(2);",
    );
    let mut interpreter = Interpreter::new();
    let run = drive(&mut interpreter, &program);
    assert_eq!(run.output, "1\n2\n");
    assert_eq!(interpreter.scopes(), 1);
    assert_eq!(interpreter.environment(), 0);
}

#[test]
fn an_expression_is_evaluated_to_its_value() {
    let program = parse("let a = 20; fn twice(n) { return n * 2; }");
    let expression = parse("twice(a) + 2;");
    let mut interpreter = Interpreter::new();
    drive(&mut interpreter, &program);
    assert_eq!(interpreter.value(), Some(LiteralValue::Null));
    match &expression[0] {
        Stmt::Expression { expression } => expression.evaluate(&mut interpreter),
        _ => panic!("not an expression"),
    }
    assert_eq!(interpreter.value(), None);
    let mut event = Event::Resume;
    loop {
        match interpreter.step(event) {
            Action::Continue => event = Event::Resume,
            Action::Ask(request) => event = answer(request),
            Action::Done => break,
            _ => panic!("unexpected action"),
        }
    }
    assert_eq!(interpreter.value(), Some(LiteralValue::Number(number(42.0))));
}

#[test]
fn each_run_of_a_loop_body_has_its_own_scope() {
    let token = |token_type: TokenType, lexeme: &str| Token {
        token_type,
        lexeme: name(lexeme),
        literal: None,
        line_number: 0,
    };
    let program = vec![
        Stmt::Let {
            name: token(TokenType::Identifier, "go"),
            initializer: Expr::Literal { value: LiteralValue::True },
        },
        Stmt::While {
            condition: Expr::Variable { name: token(TokenType::Identifier, "go") },
            body: Box::new(Stmt::Let {
                name: token(TokenType::Identifier, "go"),
                initializer: Expr::Literal { value: LiteralValue::False },
            }),
        },
    ];
    let mut interpreter = Interpreter::new();
    interpreter.interpret(program.iter().collect());
    for _ in 0..50 {
        assert!(matches!(interpreter.run(Event::Resume, 100), Action::Continue));
        assert!(interpreter.scopes() <= 2);
    }
    assert!(!interpreter.is_idle());
}

#[test]
fn a_call_context_can_be_entered_by_hand() {
    let program = parse("let a = 1;");
    let mut interpreter = Interpreter::new();
    drive(&mut interpreter, &program);
    interpreter.anon_function(0);
    assert_eq!(interpreter.environment(), 1);
    assert_eq!(interpreter.get(&name("a")), Some(LiteralValue::Number(number(1.0))));
    assert!(!interpreter.is_idle());
    assert!(matches!(interpreter.step(Event::Resume), Action::Continue));
    assert_eq!(interpreter.environment(), 0);
    assert!(interpreter.is_idle());
}
