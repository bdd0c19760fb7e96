use zawa::expr::{Callee, Expr, LiteralValue, Native};
use zawa::number::Number;
use zawa::stmt::Stmt;
use zawa::tokenizer;
use zawa::tokenizer::{Token, TokenType};

fn number(x: f64) -> Number {
    Number::new(x.to_bits(), x.to_string())
}

fn token(token_type: TokenType, lexeme: &str) -> Token {
    Token { token_type, lexeme: String::from(lexeme), literal: None, line_number: 0 }
}

#[test]
fn pretty_print_ast() {
    let minus_token = Token {
        token_type: TokenType::Minus,
        lexeme: String::from("-"),
        literal: None,
        line_number: 0,
    };

    let ott = Expr::Literal { value: LiteralValue::Number(number(123.0)) };

    let group = Expr::Grouping {
        expression: Box::from(Expr::Literal { value: LiteralValue::Number(number(45.67)) }),
    };

    let mul = Token {
        token_type: TokenType::Star,
        lexeme: String::from("*"),
        literal: None,
        line_number: 0,
    };

    let ast = Expr::Binary {
        left: Box::from(Expr::Unary { operator: minus_token, right: Box::from(ott) }),
        operator: mul,
        right: Box::from(group),
    };

    let result = ast.to_string();
    assert_eq!(result, "(* (- 123) (group 45.67))");
}

#[test]
fn prints_every_kind_of_expression() {
    let x = Expr::Variable { name: token(TokenType::Identifier, "x") };
    assert_eq!(x.to_string(), "var x");
    let assign = Expr::Assign {
        name: token(TokenType::Identifier, "x"),
        value: Box::new(Expr::Literal { value: LiteralValue::StringValue(String::from("s")) }),
    };
    assert_eq!(assign.to_string(), "x = s");
    let logical = Expr::Logical {
        left: Box::new(Expr::Literal { value: LiteralValue::True }),
        operator: token(TokenType::Or, "or"),
        right: Box::new(Expr::Literal { value: LiteralValue::Null }),
    };
    assert_eq!(logical.to_string(), "(or true null)");
    let call = |arguments: Vec<Expr>| Expr::Call {
        callee: Box::new(Expr::Variable { name: token(TokenType::Identifier, "f") }),
        paren: token(TokenType::RightParen, ")"),
        arguments,
    };
    assert_eq!(call(vec![]).to_string(), "(var f [])");
    assert_eq!(
        call(vec![Expr::Literal { value: LiteralValue::False }]).to_string(),
        "(var f [false])"
    );
    assert_eq!(
        call(vec![
            Expr::Literal { value: LiteralValue::Number(number(1.0)) },
            Expr::Literal { value: LiteralValue::Number(number(2.5)) },
            Expr::Variable { name: token(TokenType::Identifier, "y") }
        ])
        .to_string(),
        "(var f [1, 2.5, var y])"
    );
}

#[test]
fn prints_every_kind_of_statement() {
    let one = || Expr::Literal { value: LiteralValue::Number(number(1.0)) };
    assert_eq!(Stmt::Expression { expression: one() }.to_string(), "1");
    assert_eq!(Stmt::Echo { expression: one() }.to_string(), "(print 1)");
    assert_eq!(
        Stmt::Let { name: token(TokenType::Identifier, "a"), initializer: one() }.to_string(),
        "(let a)"
    );
    assert_eq!(Stmt::Break.to_string(), "(break)");
    assert_eq!(
        Stmt::Block {
            statements: vec![
                Box::new(Stmt::Break),
                Box::new(Stmt::Echo { expression: one() })
            ]
        }
        .to_string(),
        "(block (break)(print 1))"
    );
    assert_eq!(Stmt::Block { statements: vec![] }.to_string(), "(block )");
    assert_eq!(
        Stmt::If { predicate: one(), then_branch: Box::new(Stmt::Break), otherwise: None }
            .to_string(),
        "(if 1 (break))"
    );
    assert_eq!(
        Stmt::If {
            predicate: one(),
            then_branch: Box::new(Stmt::Break),
            otherwise: Some(Box::new(Stmt::Echo { expression: one() }))
        }
        .to_string(),
        "(if 1 (break) (print 1))"
    );
    assert_eq!(
        Stmt::While { condition: one(), body: Box::new(Stmt::Break) }.to_string(),
        "(while 1 (break))"
    );
    assert_eq!(
        Stmt::Function {
            name: token(TokenType::Identifier, "f"),
            params: vec![token(TokenType::Identifier, "a")],
            body: vec![]
        }
        .to_string(),
        "(fn f)"
    );
    assert_eq!(
        Stmt::Return { keyword: token(TokenType::Return, "return"), value: None }.to_string(),
        "(return)"
    );
    assert_eq!(
        Stmt::Return { keyword: token(TokenType::Return, "return"), value: Some(one()) }
            .to_string(),
        "(return 1)"
    );
}

#[test]
fn values_render_as_text() {
    assert_eq!(LiteralValue::Number(number(3.0)).to_string(), "3");
    assert_eq!(LiteralValue::Number(number(0.1 + 0.2)).to_string(), "0.30000000000000004");
    assert_eq!(LiteralValue::StringValue(String::from("hi")).to_string(), "hi");
    assert_eq!(LiteralValue::True.to_string(), "true");
    assert_eq!(LiteralValue::False.to_string(), "false");
    assert_eq!(LiteralValue::Null.to_string(), "null");
    let callable = LiteralValue::Callable {
        name: String::from("println"),
        arity: 1,
        fn_: Callee::Native(Native::Println),
    };
    assert_eq!(callable.to_string(), "println/1");
    let wide = LiteralValue::Callable {
        name: String::from("f"),
        arity: 12,
        fn_: Callee::Closure(0),
    };
    assert_eq!(wide.to_string(), "f/12");
}

#[test]
fn values_name_their_types() {
    assert_eq!(LiteralValue::Number(number(3.0)).to_type(), "Number");
    assert_eq!(LiteralValue::StringValue(String::new()).to_type(), "String");
    assert_eq!(LiteralValue::True.to_type(), "Boolean");
    assert_eq!(LiteralValue::False.to_type(), "Boolean");
    assert_eq!(LiteralValue::Null.to_type(), "Null");
    let callable =
        LiteralValue::Callable { name: String::from("f"), arity: 0, fn_: Callee::Closure(3) };
    assert_eq!(callable.to_type(), "Callable");
}

#[test]
fn truthiness() {
    let truthy = vec![
        LiteralValue::Number(number(1.0)),
        LiteralValue::Number(number(-2.5)),
        LiteralValue::Number(number(f64::NAN)),
        LiteralValue::StringValue(String::from("0")),
        LiteralValue::True,
        LiteralValue::Callable { name: String::new(), arity: 0, fn_: Callee::Native(Native::Time) },
    ];
    let falsy = vec![
        LiteralValue::Number(number(0.0)),
        LiteralValue::Number(number(-0.0)),
        LiteralValue::StringValue(String::new()),
        LiteralValue::False,
        LiteralValue::Null,
    ];
    for v in truthy.iter() {
        assert!(v.truthy());
        assert_eq!(v.is_truthy(), LiteralValue::True);
        assert_eq!(v.is_falsy(), LiteralValue::False);
    }
    for v in falsy.iter() {
        assert!(!v.truthy());
        assert_eq!(v.is_truthy(), LiteralValue::False);
        assert_eq!(v.is_falsy(), LiteralValue::True);
    }
    assert_eq!(LiteralValue::from_bool(true), LiteralValue::True);
    assert_eq!(LiteralValue::from_bool(false), LiteralValue::False);
}

#[test]
fn equality_of_values() {
    let f = |name: &str, arity: usize, fn_: Callee| LiteralValue::Callable {
        name: String::from(name),
        arity,
        fn_,
    };
    assert_eq!(LiteralValue::Number(number(1.0)), LiteralValue::Number(number(1.0)));
    assert_eq!(LiteralValue::Number(number(0.0)), LiteralValue::Number(number(-0.0)));
    assert_ne!(LiteralValue::Number(number(f64::NAN)), LiteralValue::Number(number(f64::NAN)));
    assert_ne!(LiteralValue::Number(number(1.0)), LiteralValue::Number(number(2.0)));
    assert_eq!(
        LiteralValue::StringValue(String::from("a")),
        LiteralValue::StringValue(String::from("a"))
    );
    assert_ne!(
        LiteralValue::StringValue(String::from("a")),
        LiteralValue::StringValue(String::from("b"))
    );
    assert_ne!(LiteralValue::StringValue(String::from("1")), LiteralValue::Number(number(1.0)));
    assert_eq!(LiteralValue::True, LiteralValue::True);
    assert_eq!(LiteralValue::Null, LiteralValue::Null);
    assert_ne!(LiteralValue::True, LiteralValue::False);
    assert_ne!(LiteralValue::Null, LiteralValue::False);
    assert_eq!(f("g", 2, Callee::Closure(0)), f("g", 2, Callee::Native(Native::Print)));
    assert_ne!(f("g", 2, Callee::Closure(0)), f("g", 3, Callee::Closure(0)));
    assert_ne!(f("g", 2, Callee::Closure(0)), f("h", 2, Callee::Closure(0)));
}

#[test]
fn values_from_tokens() {
    let mut n = token(TokenType::Number, "2.50");
    n.literal = Some(tokenizer::LiteralValue::FValue(number(2.5)));
    assert_eq!(LiteralValue::from_token(n), LiteralValue::Number(number(2.5)));
    let mut s = token(TokenType::StringLit, "\"x\"");
    s.literal = Some(tokenizer::LiteralValue::StringValue(String::from("x")));
    assert_eq!(LiteralValue::from_token(s), LiteralValue::StringValue(String::from("x")));
    assert_eq!(LiteralValue::from_token(token(TokenType::True, "true")), LiteralValue::True);
    assert_eq!(LiteralValue::from_token(token(TokenType::False, "false")), LiteralValue::False);
    assert_eq!(LiteralValue::from_token(token(TokenType::Null, "null")), LiteralValue::Null);
}
