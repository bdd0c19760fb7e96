use zawa::number::Number;
use zawa::tokenizer::{get_keyword, is_alpha, is_alpha_numeric, is_digit, LiteralValue, Token, TokenType, Tokenizer};

fn number(x: f64) -> Number {
    Number::new(x.to_bits(), x.to_string())
}

fn scan(source: &str) -> Result<Vec<Token>, String> {
    let mut tokenizer = Tokenizer::new(source);
    let mut tokens = tokenizer.tokenize()?;
    for token in tokens.iter_mut() {
        if token.wants_number() {
            let value: f64 = token.lexeme.parse().unwrap();
            token.attach(number(value));
        }
    }
    Ok(tokens)
}

fn kinds(tokens: &Vec<Token>) -> Vec<TokenType> {
    tokens.iter().map(|t| t.token_type).collect()
}

fn lexemes(tokens: &Vec<Token>) -> Vec<String> {
    tokens.iter().map(|t| t.lexeme.clone()).collect()
}

#[test]
fn helloworld() {
    println!("Hello, world!");
}

#[test]
fn scans_one_plus_two() {
    let tokens = scan("1+2").unwrap();
    assert_eq!(
        kinds(&tokens),
        vec![TokenType::Number, TokenType::Plus, TokenType::Number, TokenType::Eof]
    );
    assert_eq!(lexemes(&tokens), vec!["1", "+", "2", ""]);
    match &tokens[0].literal {
        Some(LiteralValue::FValue(n)) => {
            assert_eq!(f64::from_bits(n.bits), 1.0);
            assert_eq!(n.text, "1");
        }
        _ => panic!("the first token carries no number"),
    }
    match &tokens[2].literal {
        Some(LiteralValue::FValue(n)) => assert_eq!(f64::from_bits(n.bits), 2.0),
        _ => panic!("the third token carries no number"),
    }
    assert!(tokens[1].literal.is_none());
    assert!(tokens[3].literal.is_none());
}

#[test]
fn number_tokens_come_without_a_value() {
    let mut tokenizer = Tokenizer::new("12.5");
    let tokens = tokenizer.tokenize().unwrap();
    assert_eq!(tokens.len(), 2);
    assert_eq!(tokens[0].token_type, TokenType::Number);
    assert_eq!(tokens[0].lexeme, "12.5");
    assert!(tokens[0].literal.is_none());
}

#[test]
fn scans_single_character_tokens() {
    let tokens = scan("(){},.-+;*/").unwrap();
    assert_eq!(
        kinds(&tokens),
        vec![
            TokenType::LeftParen,
            TokenType::RightParen,
            TokenType::LeftBrace,
            TokenType::RightBrace,
            TokenType::Comma,
            TokenType::Dot,
            TokenType::Minus,
            TokenType::Plus,
            TokenType::Semicolon,
            TokenType::Star,
            TokenType::Slash,
            TokenType::Eof
        ]
    );
}

#[test]
fn looks_one_character_ahead_for_equal() {
    let tokens = scan("! != = == < <= > >=").unwrap();
    assert_eq!(
        kinds(&tokens),
        vec![
            TokenType::Bang,
            TokenType::BangEqual,
            TokenType::Equal,
            TokenType::EqualEqual,
            TokenType::Less,
            TokenType::LessEqual,
            TokenType::Greater,
            TokenType::GreaterEqual,
            TokenType::Eof
        ]
    );
    assert_eq!(lexemes(&tokens), vec!["!", "!=", "=", "==", "<", "<=", ">", ">=", ""]);
}

#[test]
fn a_bang_at_the_end_stands_alone() {
    let tokens = scan("a!").unwrap();
    assert_eq!(kinds(&tokens), vec![TokenType::Identifier, TokenType::Bang, TokenType::Eof]);
}

#[test]
fn skips_comments_to_the_end_of_the_line() {
    let tokens = scan("1 // two three\n4 // five").unwrap();
    assert_eq!(kinds(&tokens), vec![TokenType::Number, TokenType::Number, TokenType::Eof]);
    assert_eq!(tokens[0].line_number, 0);
    assert_eq!(tokens[1].line_number, 1);
    assert_eq!(tokens[2].line_number, 1);
}

#[test]
fn skips_blanks_and_counts_lines() {
    let tokens = scan(" \t\r\n\n x").unwrap();
    assert_eq!(kinds(&tokens), vec![TokenType::Identifier, TokenType::Eof]);
    assert_eq!(tokens[0].line_number, 2);
}

#[test]
fn scans_strings_over_several_lines() {
    let tokens = scan("\"a\nb\" x").unwrap();
    assert_eq!(kinds(&tokens), vec![TokenType::StringLit, TokenType::Identifier, TokenType::Eof]);
    assert_eq!(tokens[0].lexeme, "\"a\nb\"");
    match &tokens[0].literal {
        Some(LiteralValue::StringValue(s)) => assert_eq!(s, "a\nb"),
        _ => panic!("the string carries no value"),
    }
    assert_eq!(tokens[0].line_number, 1);
    assert_eq!(tokens[1].line_number, 1);
}

#[test]
fn scans_the_empty_string() {
    let tokens = scan("\"\"").unwrap();
    match &tokens[0].literal {
        Some(LiteralValue::StringValue(s)) => assert_eq!(s, ""),
        _ => panic!("the string carries no value"),
    }
}

#[test]
fn reports_an_unterminated_string() {
    let error = scan("let a = \"abc").unwrap_err();
    assert_eq!(error, "Unterminated string at line 0\n");
    let error = scan("\n\n\"abc\ndef").unwrap_err();
    assert_eq!(error, "Unterminated string at line 2\n");
}

#[test]
fn reports_every_unrecognized_character() {
    let error = scan("1 @ 2\n# 3 $").unwrap_err();
    assert_eq!(
        error,
        "Unrecognized char at line 0: @\nUnrecognized char at line 1: #\nUnrecognized char at line 1: $\n"
    );
}

#[test]
fn reports_lines_with_several_digits() {
    let mut source = String::new();
    for _ in 0..120 {
        source.push('\n');
    }
    source.push('?');
    let error = scan(&source).unwrap_err();
    assert_eq!(error, "Unrecognized char at line 120: ?\n");
}

#[test]
fn scans_numbers_with_and_without_fraction() {
    let tokens = scan("12 3.25 4. .5 6.x").unwrap();
    assert_eq!(
        kinds(&tokens),
        vec![
            TokenType::Number,
            TokenType::Number,
            TokenType::Number,
            TokenType::Dot,
            TokenType::Dot,
            TokenType::Number,
            TokenType::Number,
            TokenType::Dot,
            TokenType::Identifier,
            TokenType::Eof
        ]
    );
    assert_eq!(lexemes(&tokens), vec!["12", "3.25", "4", ".", ".", "5", "6", ".", "x", ""]);
}

#[test]
fn scans_identifiers_and_keywords() {
    let tokens = scan("and or true false if else class self fn return for while null print super let").unwrap();
    assert_eq!(
        kinds(&tokens),
        vec![
            TokenType::And,
            TokenType::Or,
            TokenType::True,
            TokenType::False,
            TokenType::If,
            TokenType::Else,
            TokenType::Class,
            TokenType::Self_,
            TokenType::Fn,
            TokenType::Return,
            TokenType::For,
            TokenType::While,
            TokenType::Null,
            TokenType::Print,
            TokenType::Super,
            TokenType::Let,
            TokenType::Eof
        ]
    );
    let tokens = scan("_a1 lets printx If x_y9 break echo").unwrap();
    assert_eq!(
        kinds(&tokens),
        vec![
            TokenType::Identifier,
            TokenType::Identifier,
            TokenType::Identifier,
            TokenType::Identifier,
            TokenType::Identifier,
            TokenType::Identifier,
            TokenType::Identifier,
            TokenType::Eof
        ]
    );
    assert_eq!(
        lexemes(&tokens),
        vec!["_a1", "lets", "printx", "If", "x_y9", "break", "echo", ""]
    );
}

#[test]
fn the_empty_source_is_the_end_token() {
    let tokens = scan("").unwrap();
    assert_eq!(kinds(&tokens), vec![TokenType::Eof]);
    assert_eq!(tokens[0].lexeme, "");
    assert_eq!(tokens[0].line_number, 0);
}

#[test]
fn character_classes() {
    assert!(is_digit('0') && is_digit('9') && !is_digit('a') && !is_digit('/') && !is_digit(':'));
    assert!(is_alpha('a') && is_alpha('z') && is_alpha('A') && is_alpha('Z') && is_alpha('_'));
    assert!(!is_alpha('1') && !is_alpha('[') && !is_alpha('`') && !is_alpha('{') && !is_alpha('@'));
    assert!(is_alpha_numeric('q') && is_alpha_numeric('7') && !is_alpha_numeric('-'));
}

#[test]
fn keyword_table() {
    let table = vec![
        ("and", TokenType::And),
        ("or", TokenType::Or),
        ("true", TokenType::True),
        ("false", TokenType::False),
        ("if", TokenType::If),
        ("else", TokenType::Else),
        ("class", TokenType::Class),
        ("self", TokenType::Self_),
        ("fn", TokenType::Fn),
        ("return", TokenType::Return),
        ("for", TokenType::For),
        ("while", TokenType::While),
        ("null", TokenType::Null),
        ("print", TokenType::Print),
        ("super", TokenType::Super),
        ("let", TokenType::Let),
    ];
    assert_eq!(table.len(), 16);
    for (spelling, kind) in table.iter() {
        assert_eq!(get_keyword(spelling), Some(*kind));
        assert_eq!(get_keyword(&spelling.to_uppercase()), None);
    }
    assert_eq!(get_keyword("break"), None);
    assert_eq!(get_keyword("echo"), None);
    assert_eq!(get_keyword("whil"), None);
    assert_eq!(get_keyword("whiles"), None);
    assert_eq!(get_keyword(""), None);
}

#[test]
fn kind_names() {
    assert_eq!(TokenType::Star.name(), "Star");
    assert_eq!(TokenType::Self_.name(), "Self_");
    assert_eq!(TokenType::Eof.name(), "Eof");
}

#[test]
fn a_character_outside_ascii_is_one_character() {
    let error = scan("x é\n\"é\" ü").unwrap_err();
    assert_eq!(error, "Unrecognized char at line 0: é\nUnrecognized char at line 1: ü\n");
    let tokens = scan("\"żółw\" a").unwrap();
    assert_eq!(tokens[0].lexeme, "\"żółw\"");
    assert_eq!(tokens[1].lexeme, "a");
}

#[test]
fn tokens_are_made_and_shown() {
    let plus = Token::new(TokenType::Plus, String::from("+"), None, 3);
    assert_eq!(plus.token_type, TokenType::Plus);
    assert_eq!(plus.lexeme, "+");
    assert!(plus.literal.is_none());
    assert_eq!(plus.line_number, 3);
    assert_eq!(plus.to_string(), "Plus + None");
    let tokens = scan("1.50 \"a b\"").unwrap();
    assert_eq!(tokens[0].to_string(), "Number 1.50 Some(FValue(1.5))");
    assert_eq!(tokens[1].to_string(), "StringLit \"a b\" Some(StringValue(\"a b\"))");
    assert_eq!(tokens[2].to_string(), "Eof  None");
    let copy = tokens[1].clone();
    assert_eq!(copy.to_string(), tokens[1].to_string());
    assert_eq!(copy.line_number, tokens[1].line_number);
}

#[test]
fn only_number_tokens_take_a_value() {
    let mut tokenizer = Tokenizer::new("7 x");
    let mut tokens = tokenizer.tokenize().unwrap();
    assert!(tokens[0].wants_number());
    assert!(!tokens[1].wants_number());
    assert!(!tokens[2].wants_number());
    tokens[0].attach(number(7.0));
    tokens[1].attach(number(8.0));
    assert!(!tokens[0].wants_number());
    match &tokens[0].literal {
        Some(LiteralValue::FValue(n)) => assert_eq!(n.text, "7"),
        _ => panic!("the number carries no value"),
    }
    assert!(tokens[1].literal.is_none());
    assert_eq!(tokens[1].lexeme, "x");
}
