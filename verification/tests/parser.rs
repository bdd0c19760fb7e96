use zawa::number::Number;
use zawa::parser::Parser;
use zawa::stmt::Stmt;
use zawa::tokenizer::{Token, TokenType, Tokenizer};

fn number(x: f64) -> Number {
    Number::new(x.to_bits(), x.to_string())
}

fn scan(source: &str) -> Result<Vec<Token>, String> {
    let mut tokenizer = Tokenizer::new(source);
    let mut tokens = tokenizer.tokenize()?;
    for token in tokens.iter_mut() {
        if token.wants_number() {
            let value: f64 = token.lexeme.parse().unwrap();
            token.attach(number(value));
        }
    }
    Ok(tokens)
}

fn parse(source: &str) -> Result<Vec<Stmt>, String> {
    let tokens = scan(source)?;
    let mut parser = Parser::new(tokens);
    parser.parse()
}

fn printed(source: &str) -> Vec<String> {
    parse(source).unwrap().iter().map(|s| s.to_string()).collect()
}

#[test]
fn test_equality_with_paren() {
    let src = "1 == (2 + 3);";

    let mut tokenizer = Tokenizer::new(src);

    let mut tokens = tokenizer.tokenize().unwrap();
    for token in tokens.iter_mut() {
        if token.wants_number() {
            let value: f64 = token.lexeme.parse().unwrap();
            token.attach(number(value));
        }
    }

    let mut parser = Parser::new(tokens);

    let parsed_expr = parser.parse().unwrap();
    let string_expr = parsed_expr[0].to_string();

    assert_eq!(string_expr, "(== 1 (group (+ 2 3)))")
}

#[test]
fn binary_tiers_bind_as_the_cascade_says() {
    assert_eq!(printed("1 + 2 * 3;"), vec!["(+ 1 (* 2 3))"]);
    assert_eq!(printed("1 * 2 + 3;"), vec!["(+ (* 1 2) 3)"]);
    assert_eq!(printed("1 < 2 == 3 > 4;"), vec!["(== (< 1 2) (> 3 4))"]);
    assert_eq!(printed("1 + 2 < 3 - 4;"), vec!["(< (+ 1 2) (- 3 4))"]);
    assert_eq!(printed("a or b and c;"), vec!["(or var a (and var b var c))"]);
    assert_eq!(printed("a and b or c;"), vec!["(or (and var a var b) var c)"]);
    assert_eq!(printed("a == b and c != d;"), vec!["(and (== var a var b) (!= var c var d))"]);
    assert_eq!(printed("1 <= 2; 1 >= 2;"), vec!["(<= 1 2)", "(>= 1 2)"]);
    assert_eq!(printed("8 / 4 / 2;"), vec!["(/ (/ 8 4) 2)"]);
}

#[test]
fn binary_tiers_fold_to_the_left() {
    assert_eq!(printed("1 - 2 - 3;"), vec!["(- (- 1 2) 3)"]);
    assert_eq!(printed("a or b or c;"), vec!["(or (or var a var b) var c)"]);
    assert_eq!(printed("1 == 2 == 3;"), vec!["(== (== 1 2) 3)"]);
}

#[test]
fn unary_operators_nest_to_the_right() {
    assert_eq!(printed("!!a;"), vec!["(! (! var a))"]);
    assert_eq!(printed("-!-1;"), vec!["(- (! (- 1)))"]);
    assert_eq!(printed("-a * -b;"), vec!["(* (- var a) (- var b))"]);
    assert_eq!(printed("-f(1);"), vec!["(- (var f [1]))"]);
}

#[test]
fn calls_chain() {
    assert_eq!(printed("f();"), vec!["(var f [])"]);
    assert_eq!(printed("f(1, a, \"s\");"), vec!["(var f [1, var a, s])"]);
    assert_eq!(printed("f()();"), vec!["((var f []) [])"]);
    assert_eq!(printed("f(1)(2)(3);"), vec!["(((var f [1]) [2]) [3])"]);
    assert_eq!(printed("f(g(1), 2 + 3);"), vec!["(var f [(var g [1]), (+ 2 3)])"]);
}

#[test]
fn primaries() {
    assert_eq!(
        printed("true; false; null; 1.5; \"a b\"; x; (x);"),
        vec!["true", "false", "null", "1.5", "a b", "var x", "(group var x)"]
    );
}

#[test]
fn assignment_nests_to_the_right() {
    assert_eq!(printed("a = 1;"), vec!["a = 1"]);
    assert_eq!(printed("a = b = 2;"), vec!["a = b = 2"]);
    assert_eq!(printed("a = 1 or 2;"), vec!["a = (or 1 2)"]);
}

#[test]
fn assignment_needs_a_variable_on_the_left() {
    assert_eq!(parse("1 = 2;").unwrap_err(), "line: 0, Invalid assignment target");
    assert_eq!(parse("(a) = 2;").unwrap_err(), "line: 0, Invalid assignment target");
    assert_eq!(parse("\n\na + b = 2;").unwrap_err(), "line: 2, Invalid assignment target");
    assert_eq!(parse("f() = 2;").unwrap_err(), "line: 0, Invalid assignment target");
}

#[test]
fn statements_of_every_kind() {
    assert_eq!(printed("print 1;"), vec!["(print 1)"]);
    assert_eq!(printed("print(1);"), vec!["(print (group 1))"]);
    assert_eq!(printed("let a = 1; let b;"), vec!["(let a)", "(let b)"]);
    assert_eq!(printed("{ 1; { 2; } }"), vec!["(block 1(block 2))"]);
    assert_eq!(printed("{}"), vec!["(block )"]);
    assert_eq!(printed("if (a) 1; else 2;"), vec!["(if var a 1 2)"]);
    assert_eq!(printed("if (a) 1;"), vec!["(if var a 1)"]);
    assert_eq!(printed("if (a) if (b) 1; else 2;"), vec!["(if var a (if var b 1 2))"]);
    assert_eq!(printed("while (a < 3) a = a + 1;"), vec!["(while (< var a 3) a = (+ var a 1))"]);
    assert_eq!(printed("while (true) break;"), vec!["(while true (break))"]);
    assert_eq!(printed("return; return 1 + 2;"), vec!["(return)", "(return (+ 1 2))"]);
    assert_eq!(printed("fn f(a, b) { return a; }"), vec!["(fn f)"]);
    assert_eq!(printed(""), Vec::<String>::new());
}

#[test]
fn break_is_a_statement_and_a_name() {
    assert_eq!(printed("break;"), vec!["(break)"]);
    assert_eq!(printed("while (a) { break; }"), vec!["(while var a (block (break)))"]);
    assert_eq!(printed("let break = 1;"), vec!["(let break)"]);
    assert_eq!(printed("println(break);"), vec!["(var println [var break])"]);
    assert_eq!(printed("a = break + 1;"), vec!["a = (+ var break 1)"]);
    assert_eq!(printed("fn break(break) {}"), vec!["(fn break)"]);
    assert_eq!(parse("break = 1;").unwrap_err(), "line: 0, Expected ';' after break statement");
    assert_eq!(printed("breaks; Break;"), vec!["var breaks", "var Break"]);
}

#[test]
fn let_without_initializer_binds_null() {
    let stmts = parse("let a;").unwrap();
    match &stmts[0] {
        Stmt::Let { name, initializer } => {
            assert_eq!(name.lexeme, "a");
            assert_eq!(initializer.to_string(), "null");
        }
        _ => panic!("not a let declaration"),
    }
}

#[test]
fn function_declarations_hold_parameters_and_body() {
    let stmts = parse("fn add(a, b) { let c = a + b; return c; }").unwrap();
    match &stmts[0] {
        Stmt::Function { name, params, body } => {
            assert_eq!(name.lexeme, "add");
            assert_eq!(params.len(), 2);
            assert_eq!(params[0].lexeme, "a");
            assert_eq!(params[1].lexeme, "b");
            assert_eq!(body.len(), 2);
            assert_eq!(body[0].to_string(), "(let c)");
            assert_eq!(body[1].to_string(), "(return var c)");
        }
        _ => panic!("not a function declaration"),
    }
    let stmts = parse("fn nothing() {}").unwrap();
    match &stmts[0] {
        Stmt::Function { name: _, params, body } => {
            assert_eq!(params.len(), 0);
            assert_eq!(body.len(), 0);
        }
        _ => panic!("not a function declaration"),
    }
}

#[test]
fn return_keeps_its_keyword() {
    let stmts = parse("\nreturn 1;").unwrap();
    match &stmts[0] {
        Stmt::Return { keyword, value } => {
            assert_eq!(keyword.token_type, TokenType::Return);
            assert_eq!(keyword.line_number, 1);
            assert!(value.is_some());
        }
        _ => panic!("not a return statement"),
    }
}

#[test]
fn for_is_a_block_with_a_loop() {
    assert_eq!(
        printed("for (let i = 0; i < 5; i = i + 1) println(i);"),
        vec!["(block (let i)(while (< var i 5) (block (var println [var i])i = (+ var i 1))))"]
    );
    assert_eq!(printed("for (;;) break;"), vec!["(block (while true (block (break))))"]);
    assert_eq!(
        printed("for (i = 0;;) 1;"),
        vec!["(block i = 0(while true (block 1)))"]
    );
    assert_eq!(
        printed("for (; a; b) { c; }"),
        vec!["(block (while var a (block (block var c)var b)))"]
    );
}

#[test]
fn errors_name_what_was_expected() {
    assert_eq!(parse("1").unwrap_err(), "line: 0, Expected ';' after expression");
    assert_eq!(parse("print 1").unwrap_err(), "line: 0, Expected ';' after value");
    assert_eq!(parse("let;").unwrap_err(), "line: 0, Expected variable name");
    assert_eq!(parse("let a = 1").unwrap_err(), "line: 0, Expected ';' after variable declaration");
    assert_eq!(parse("(1;").unwrap_err(), "line: 0, Expected ')'");
    assert_eq!(parse("f(1;").unwrap_err(), "line: 0, Expected ')' after arguments");
    assert_eq!(parse("+;").unwrap_err(), "line: 0, Expected expression");
    assert_eq!(parse("{ 1;").unwrap_err(), "line: 0, Expected '}' after block");
    assert_eq!(parse("if a) 1;").unwrap_err(), "line: 0, Expected '(' after 'if'");
    assert_eq!(parse("if (a 1;").unwrap_err(), "line: 0, Expected ')' after if predicate");
    assert_eq!(parse("while a) 1;").unwrap_err(), "line: 0, Expected '(' after while");
    assert_eq!(
        parse("while (a 1;").unwrap_err(),
        "line: 0, Expected ')' after while loop condition"
    );
    assert_eq!(parse("for a").unwrap_err(), "line: 0, Expected '(' after for");
    assert_eq!(
        parse("for (;a b) 1;").unwrap_err(),
        "line: 0, Expected ';' after for loop condition"
    );
    assert_eq!(
        parse("for (;;a b 1;").unwrap_err(),
        "line: 0, Expected ')' after for loop clauses"
    );
    assert_eq!(parse("break").unwrap_err(), "line: 0, Expected ';' after break statement");
    assert_eq!(parse("return 1").unwrap_err(), "line: 0, Expected ';' after return value");
    assert_eq!(parse("fn (a) {}").unwrap_err(), "line: 0, Expected Function after name");
    assert_eq!(parse("fn f a) {}").unwrap_err(), "line: 0, Expected '(' after Function name");
    assert_eq!(parse("fn f(1) {}").unwrap_err(), "line: 0, Expected parameter after name");
    assert_eq!(parse("fn f(a {}").unwrap_err(), "line: 0, Expected ')' after parameters");
    assert_eq!(parse("fn f(a) 1;").unwrap_err(), "line: 0, Expected '{' before Function body");
    assert_eq!(parse("let f = fn (a) {};").unwrap_err(), "line: 0, Expected expression");
}

#[test]
fn errors_carry_the_line_of_the_token() {
    assert_eq!(parse("1;\n2;\n3 +;").unwrap_err(), "line: 2, Expected expression");
    assert_eq!(parse("1;\n2\n").unwrap_err(), "line: 2, Expected ';' after expression");
}

#[test]
fn every_error_of_a_program_is_reported() {
    assert_eq!(
        parse("let = 1;\nprint 2;\n3 +;\nprint 4\n").unwrap_err(),
        "line: 0, Expected variable name\nline: 2, Expected expression\nline: 4, Expected ';' after value"
    );
}

#[test]
fn parsing_resumes_at_the_next_statement() {
    assert_eq!(
        parse("1 + ; 2 3; print 4;").unwrap_err(),
        "line: 0, Expected expression\nline: 0, Expected ';' after expression"
    );
    assert_eq!(
        parse("(1 2 3 4 let a = ;").unwrap_err(),
        "line: 0, Expected ')'\nline: 0, Expected expression"
    );
    assert_eq!(
        parse("1 1 print 2; 3 3").unwrap_err(),
        "line: 0, Expected ';' after expression\nline: 0, Expected ';' after expression"
    );
}

#[test]
fn a_number_without_a_value_is_an_error() {
    let mut tokenizer = Tokenizer::new("1;");
    let tokens = tokenizer.tokenize().unwrap();
    let mut parser = Parser::new(tokens);
    assert_eq!(parser.parse().unwrap_err(), "line: 0, Expected a value for the literal");
}

fn call_with(arguments: usize) -> String {
    let mut source = String::from("f(");
    for i in 0..arguments {
        if i > 0 {
            source.push_str(", ");
        }
        source.push_str("1");
    }
    source.push_str(");");
    source
}

#[test]
fn a_call_takes_255_arguments_and_no_more() {
    let stmts = parse(&call_with(255)).unwrap();
    match &stmts[0] {
        Stmt::Expression { expression: zawa::expr::Expr::Call { arguments, .. } } => {
            assert_eq!(arguments.len(), 255)
        }
        _ => panic!("not a call"),
    }
    assert_eq!(
        parse(&call_with(256)).unwrap_err(),
        "line: 0, Can not have more than 255 function arguments"
    );
    assert_eq!(
        parse(&call_with(300)).unwrap_err(),
        "line: 0, Can not have more than 255 function arguments"
    );
}

#[test]
fn tokens_without_an_end_token_are_parsed_to_their_end() {
    let mut tokens = scan("1 + 2;").unwrap();
    tokens.pop();
    let mut parser = Parser::new(tokens);
    let stmts = parser.parse().unwrap();
    assert_eq!(stmts.len(), 1);
    assert_eq!(stmts[0].to_string(), "(+ 1 2)");
    let mut parser = Parser::new(Vec::new());
    assert_eq!(parser.parse().unwrap().len(), 0);
}

fn function_with(parameters: usize) -> String {
    let mut source = String::from("fn f(");
    for i in 0..parameters {
        if i > 0 {
            source.push_str(", ");
        }
        source.push_str(&format!("p{}", i));
    }
    source.push_str(") {}");
    source
}

#[test]
fn a_function_takes_255_parameters_and_no_more() {
    let stmts = parse(&function_with(255)).unwrap();
    match &stmts[0] {
        Stmt::Function { params, .. } => {
            assert_eq!(params.len(), 255);
            assert_eq!(params[254].lexeme, "p254");
        }
        _ => panic!("not a function declaration"),
    }
    assert_eq!(
        parse(&function_with(256)).unwrap_err(),
        "line: 0, Can not have more than 255 function arguments"
    );
    assert_eq!(
        parse(&function_with(257)).unwrap_err(),
        "line: 0, Can not have more than 255 function arguments"
    );
}
