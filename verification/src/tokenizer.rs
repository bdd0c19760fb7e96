//! The tokenizer: source text to a flat sequence of tokens.
//!
//! A number token leaves the tokenizer with its text and without a value:
//! the value of a number is a double, which the embedding program attaches
//! to the token before the tokens are parsed.

use crate::number::{Number, NumberView};
use crate::text::{chars_of, decimal, decimal_text, same_text, text_of};
use vstd::prelude::*;

verus! {

/// The kinds of token.
#[derive(Debug, Clone, Copy, PartialEq, Eq, Structural)]
pub enum TokenType {
    LeftParen,
    RightParen,
    LeftBrace,
    RightBrace,
    Comma,
    Dot,
    Minus,
    Plus,
    Semicolon,
    Slash,
    Star,
    Bang,
    BangEqual,
    Equal,
    EqualEqual,
    Greater,
    GreaterEqual,
    Less,
    LessEqual,
    Identifier,
    StringLit,
    Number,
    And,
    Or,
    True,
    False,
    If,
    Else,
    Class,
    Self_,
    Fn,
    Return,
    For,
    While,
    Null,
    Print,
    Super,
    Let,
    Eof,
}

/// The value that a literal token carries.
#[derive(Debug)]
pub enum LiteralValue {
    FValue(Number),
    StringValue(String),
}

/// The mathematical model of a token's literal value.
pub enum LiteralView {
    FValue(NumberView),
    StringValue(Seq<char>),
}

impl View for LiteralValue {
    type V = LiteralView;

    open spec fn view(&self) -> LiteralView {
        match self {
            LiteralValue::FValue(n) => LiteralView::FValue(n@),
            LiteralValue::StringValue(s) => LiteralView::StringValue(s@),
        }
    }
}

impl LiteralValue {
    /// A copy of the value.
    pub fn copy(&self) -> (r: LiteralValue)
        ensures
            r == *self,
    {
        match self {
            LiteralValue::FValue(n) => LiteralValue::FValue(n.copy()),
            LiteralValue::StringValue(s) => LiteralValue::StringValue(s.clone()),
        }
    }
}

/// A token: its kind, the text it was read from, the value of a literal,
/// and the line it stands on (lines count from 0).
#[derive(Debug)]
pub struct Token {
    pub token_type: TokenType,
    pub lexeme: String,
    pub literal: Option<LiteralValue>,
    pub line_number: usize,
}

/// The mathematical model of a token.
pub struct TokenView {
    pub token_type: TokenType,
    pub lexeme: Seq<char>,
    pub literal: Option<LiteralView>,
    pub line_number: nat,
}

/// The model of a token's optional literal.
pub open spec fn literal_view(literal: Option<LiteralValue>) -> Option<LiteralView> {
    match literal {
        Some(l) => Some(l@),
        None => None,
    }
}

impl View for Token {
    type V = TokenView;

    open spec fn view(&self) -> TokenView {
        TokenView {
            token_type: self.token_type,
            lexeme: self.lexeme@,
            literal: literal_view(self.literal),
            line_number: self.line_number as nat,
        }
    }
}

/// The models of a sequence of tokens.
pub open spec fn token_views(tokens: Seq<Token>) -> Seq<TokenView> {
    Seq::new(tokens.len(), |i: int| tokens[i]@)
}

/// How a token's literal is shown.
pub open spec fn literal_text(literal: Option<LiteralView>) -> Seq<char> {
    match literal {
        None => "None"@,
        Some(LiteralView::FValue(n)) => "Some(FValue("@ + n.text + "))"@,
        Some(LiteralView::StringValue(s)) => "Some(StringValue(\""@ + s + "\"))"@,
    }
}

/// How a token is shown: its kind, its text and its literal.
pub open spec fn token_text(token: TokenView) -> Seq<char> {
    kind_name(token.token_type) + " "@ + token.lexeme + " "@ + literal_text(token.literal)
}

impl Token {
    /// The token with these parts.
    pub fn new(
        token_type: TokenType,
        lexeme: String,
        literal: Option<LiteralValue>,
        line_number: usize,
    ) -> (t: Token)
        ensures
            t.token_type == token_type,
            t.lexeme == lexeme,
            t.literal == literal,
            t.line_number == line_number,
    {
        Token { token_type, lexeme, literal, line_number }
    }

    /// Whether the token is a number that has no value yet.
    pub fn wants_number(&self) -> (r: bool)
        ensures
            r == (self.token_type == TokenType::Number && !(self.literal matches Some(
                LiteralValue::FValue(_),
            ))),
    {
        self.token_type == TokenType::Number && match &self.literal {
            Some(LiteralValue::FValue(_)) => false,
            _ => true,
        }
    }

    /// Gives a number token its value. A token of another kind stays as it
    /// is.
    pub fn attach(&mut self, number: Number)
        ensures
            old(self).token_type == TokenType::Number ==> *final(self) == (Token {
                literal: Some(LiteralValue::FValue(number)),
                ..*old(self)
            }),
            old(self).token_type != TokenType::Number ==> *final(self) == *old(self),
    {
        if self.token_type == TokenType::Number {
            self.literal = Some(LiteralValue::FValue(number));
        }
    }

    /// The token as text: its kind, its text and its literal.
    pub fn to_string(&self) -> (s: String)
        ensures
            s@ == token_text(self@),
    {
        let mut s = String::from_str(self.token_type.name());
        s.append(" ");
        s.append(self.lexeme.as_str());
        s.append(" ");
        match &self.literal {
            None => {
                s.append("None");
            },
            Some(LiteralValue::FValue(n)) => {
                let mut shown = String::from_str("Some(FValue(");
                shown.append(n.text.as_str());
                shown.append("))");
                s.append(shown.as_str());
            },
            Some(LiteralValue::StringValue(text)) => {
                let mut shown = String::from_str("Some(StringValue(\"");
                shown.append(text.as_str());
                shown.append("\"))");
                s.append(shown.as_str());
            },
        }
        s
    }
}

impl Clone for Token {
    fn clone(&self) -> (t: Token)
        ensures
            t == *self,
    {
        let literal = match &self.literal {
            Some(l) => Some(l.copy()),
            None => None,
        };
        Token {
            token_type: self.token_type,
            lexeme: self.lexeme.clone(),
            literal,
            line_number: self.line_number,
        }
    }
}

/// The name of a token kind, as messages show it.
pub open spec fn kind_name(t: TokenType) -> Seq<char> {
    match t {
        TokenType::LeftParen => "LeftParen"@,
        TokenType::RightParen => "RightParen"@,
        TokenType::LeftBrace => "LeftBrace"@,
        TokenType::RightBrace => "RightBrace"@,
        TokenType::Comma => "Comma"@,
        TokenType::Dot => "Dot"@,
        TokenType::Minus => "Minus"@,
        TokenType::Plus => "Plus"@,
        TokenType::Semicolon => "Semicolon"@,
        TokenType::Slash => "Slash"@,
        TokenType::Star => "Star"@,
        TokenType::Bang => "Bang"@,
        TokenType::BangEqual => "BangEqual"@,
        TokenType::Equal => "Equal"@,
        TokenType::EqualEqual => "EqualEqual"@,
        TokenType::Greater => "Greater"@,
        TokenType::GreaterEqual => "GreaterEqual"@,
        TokenType::Less => "Less"@,
        TokenType::LessEqual => "LessEqual"@,
        TokenType::Identifier => "Identifier"@,
        TokenType::StringLit => "StringLit"@,
        TokenType::Number => "Number"@,
        TokenType::And => "And"@,
        TokenType::Or => "Or"@,
        TokenType::True => "True"@,
        TokenType::False => "False"@,
        TokenType::If => "If"@,
        TokenType::Else => "Else"@,
        TokenType::Class => "Class"@,
        TokenType::Self_ => "Self_"@,
        TokenType::Fn => "Fn"@,
        TokenType::Return => "Return"@,
        TokenType::For => "For"@,
        TokenType::While => "While"@,
        TokenType::Null => "Null"@,
        TokenType::Print => "Print"@,
        TokenType::Super => "Super"@,
        TokenType::Let => "Let"@,
        TokenType::Eof => "Eof"@,
    }
}

impl TokenType {
    /// The name of the kind, as messages show it.
    pub fn name(&self) -> (s: &'static str)
        ensures
            s@ == kind_name(*self),
    {
        match self {
            TokenType::LeftParen => "LeftParen",
            TokenType::RightParen => "RightParen",
            TokenType::LeftBrace => "LeftBrace",
            TokenType::RightBrace => "RightBrace",
            TokenType::Comma => "Comma",
            TokenType::Dot => "Dot",
            TokenType::Minus => "Minus",
            TokenType::Plus => "Plus",
            TokenType::Semicolon => "Semicolon",
            TokenType::Slash => "Slash",
            TokenType::Star => "Star",
            TokenType::Bang => "Bang",
            TokenType::BangEqual => "BangEqual",
            TokenType::Equal => "Equal",
            TokenType::EqualEqual => "EqualEqual",
            TokenType::Greater => "Greater",
            TokenType::GreaterEqual => "GreaterEqual",
            TokenType::Less => "Less",
            TokenType::LessEqual => "LessEqual",
            TokenType::Identifier => "Identifier",
            TokenType::StringLit => "StringLit",
            TokenType::Number => "Number",
            TokenType::And => "And",
            TokenType::Or => "Or",
            TokenType::True => "True",
            TokenType::False => "False",
            TokenType::If => "If",
            TokenType::Else => "Else",
            TokenType::Class => "Class",
            TokenType::Self_ => "Self_",
            TokenType::Fn => "Fn",
            TokenType::Return => "Return",
            TokenType::For => "For",
            TokenType::While => "While",
            TokenType::Null => "Null",
            TokenType::Print => "Print",
            TokenType::Super => "Super",
            TokenType::Let => "Let",
            TokenType::Eof => "Eof",
        }
    }
}

/// Whether `c` is one of `0` to `9`.
pub open spec fn digit(c: char) -> bool {
    '0' <= c && c <= '9'
}

/// Whether `c` is a letter of `a` to `z` or `A` to `Z`, or an underscore.
pub open spec fn alpha(c: char) -> bool {
    ('a' <= c && c <= 'z') || ('A' <= c && c <= 'Z') || c == '_'
}

/// Whether `c` is a letter, an underscore or a digit.
pub open spec fn alpha_numeric(c: char) -> bool {
    alpha(c) || digit(c)
}

/// Whether `c` is one of `0` to `9`.
pub fn is_digit(c: char) -> (r: bool)
    ensures
        r == digit(c),
{
    '0' <= c && c <= '9'
}

/// Whether `c` is a letter of `a` to `z` or `A` to `Z`, or an underscore.
pub fn is_alpha(c: char) -> (r: bool)
    ensures
        r == alpha(c),
{
    ('a' <= c && c <= 'z') || ('A' <= c && c <= 'Z') || c == '_'
}

/// Whether `c` is a letter, an underscore or a digit.
pub fn is_alpha_numeric(c: char) -> (r: bool)
    ensures
        r == alpha_numeric(c),
{
    is_alpha(c) || is_digit(c)
}

/// The keyword table: the kind that a reserved spelling stands for. It holds
/// sixteen spellings; every other word is an identifier.
pub open spec fn keyword(text: Seq<char>) -> Option<TokenType> {
    if text == "and"@ {
        Some(TokenType::And)
    } else if text == "or"@ {
        Some(TokenType::Or)
    } else if text == "true"@ {
        Some(TokenType::True)
    } else if text == "false"@ {
        Some(TokenType::False)
    } else if text == "if"@ {
        Some(TokenType::If)
    } else if text == "else"@ {
        Some(TokenType::Else)
    } else if text == "class"@ {
        Some(TokenType::Class)
    } else if text == "self"@ {
        Some(TokenType::Self_)
    } else if text == "fn"@ {
        Some(TokenType::Fn)
    } else if text == "return"@ {
        Some(TokenType::Return)
    } else if text == "for"@ {
        Some(TokenType::For)
    } else if text == "while"@ {
        Some(TokenType::While)
    } else if text == "null"@ {
        Some(TokenType::Null)
    } else if text == "print"@ {
        Some(TokenType::Print)
    } else if text == "super"@ {
        Some(TokenType::Super)
    } else if text == "let"@ {
        Some(TokenType::Let)
    } else {
        None
    }
}

/// The keyword table holds the sixteen reserved spellings and nothing else:
/// each stands for its own kind, no two stand for the same kind, and no other
/// word, `break` among them, stands for any.
pub proof fn keyword_table_is_exact()
    ensures
        keyword("and"@) == Some(TokenType::And),
        keyword("or"@) == Some(TokenType::Or),
        keyword("true"@) == Some(TokenType::True),
        keyword("false"@) == Some(TokenType::False),
        keyword("if"@) == Some(TokenType::If),
        keyword("else"@) == Some(TokenType::Else),
        keyword("class"@) == Some(TokenType::Class),
        keyword("self"@) == Some(TokenType::Self_),
        keyword("fn"@) == Some(TokenType::Fn),
        keyword("return"@) == Some(TokenType::Return),
        keyword("for"@) == Some(TokenType::For),
        keyword("while"@) == Some(TokenType::While),
        keyword("null"@) == Some(TokenType::Null),
        keyword("print"@) == Some(TokenType::Print),
        keyword("super"@) == Some(TokenType::Super),
        keyword("let"@) == Some(TokenType::Let),
        forall|text: Seq<char>|
            (#[trigger] keyword(text)) is Some <==> reserved(text),
        forall|a: Seq<char>, b: Seq<char>|
            (#[trigger] keyword(a)) is Some && keyword(a) == #[trigger] keyword(b) ==> a == b,
        keyword("break"@) is None,
{
    reveal_strlit("and");
    reveal_strlit("or");
    reveal_strlit("true");
    reveal_strlit("false");
    reveal_strlit("if");
    reveal_strlit("else");
    reveal_strlit("class");
    reveal_strlit("self");
    reveal_strlit("fn");
    reveal_strlit("return");
    reveal_strlit("for");
    reveal_strlit("while");
    reveal_strlit("null");
    reveal_strlit("print");
    reveal_strlit("super");
    reveal_strlit("let");
    reveal_strlit("break");
    assert("and"@[0] == 'a' && "and"@[1] == 'n');
    assert("or"@[0] == 'o' && "or"@[1] == 'r');
    assert("true"@[0] == 't' && "true"@[1] == 'r');
    assert("false"@[0] == 'f' && "false"@[1] == 'a');
    assert("if"@[0] == 'i' && "if"@[1] == 'f');
    assert("else"@[0] == 'e' && "else"@[1] == 'l');
    assert("class"@[0] == 'c' && "class"@[1] == 'l');
    assert("self"@[0] == 's' && "self"@[1] == 'e');
    assert("fn"@[0] == 'f' && "fn"@[1] == 'n');
    assert("return"@[0] == 'r' && "return"@[1] == 'e');
    assert("for"@[0] == 'f' && "for"@[1] == 'o');
    assert("while"@[0] == 'w' && "while"@[1] == 'h');
    assert("null"@[0] == 'n' && "null"@[1] == 'u');
    assert("print"@[0] == 'p' && "print"@[1] == 'r');
    assert("super"@[0] == 's' && "super"@[1] == 'u');
    assert("let"@[0] == 'l' && "let"@[1] == 'e');
    assert("break"@[0] == 'b' && "break"@[1] == 'r');
}

/// Whether `text` is one of the sixteen reserved spellings.
pub open spec fn reserved(text: Seq<char>) -> bool {
    text == "and"@ || text == "or"@ || text == "true"@ || text == "false"@ || text == "if"@ || text == "else"@ || text == "class"@ || text == "self"@ || text == "fn"@ || text == "return"@ || text == "for"@ || text == "while"@ || text == "null"@ || text == "print"@ || text == "super"@ || text == "let"@
}

/// Looks `text` up in the keyword table. The table is written out as
/// comparisons, spelling by spelling, and not held in a hash map: of a hash
/// map keyed by strings the verifier knows too little to prove a lookup.
pub fn get_keyword(text: &str) -> (r: Option<TokenType>)
    ensures
        r == keyword(text@),
{
    if same_text(text, "and") {
        Some(TokenType::And)
    } else if same_text(text, "or") {
        Some(TokenType::Or)
    } else if same_text(text, "true") {
        Some(TokenType::True)
    } else if same_text(text, "false") {
        Some(TokenType::False)
    } else if same_text(text, "if") {
        Some(TokenType::If)
    } else if same_text(text, "else") {
        Some(TokenType::Else)
    } else if same_text(text, "class") {
        Some(TokenType::Class)
    } else if same_text(text, "self") {
        Some(TokenType::Self_)
    } else if same_text(text, "fn") {
        Some(TokenType::Fn)
    } else if same_text(text, "return") {
        Some(TokenType::Return)
    } else if same_text(text, "for") {
        Some(TokenType::For)
    } else if same_text(text, "while") {
        Some(TokenType::While)
    } else if same_text(text, "null") {
        Some(TokenType::Null)
    } else if same_text(text, "print") {
        Some(TokenType::Print)
    } else if same_text(text, "super") {
        Some(TokenType::Super)
    } else if same_text(text, "let") {
        Some(TokenType::Let)
    } else {
        None
    }
}

/// Where the run of digits that starts at `pos` ends.
pub open spec fn digits_end(src: Seq<char>, pos: int) -> int
    decreases src.len() - pos,
{
    if 0 <= pos < src.len() && digit(src[pos]) {
        digits_end(src, pos + 1)
    } else {
        pos
    }
}

/// Where the run of letters, digits and underscores that starts at `pos` ends.
pub open spec fn word_end(src: Seq<char>, pos: int) -> int
    decreases src.len() - pos,
{
    if 0 <= pos < src.len() && alpha_numeric(src[pos]) {
        word_end(src, pos + 1)
    } else {
        pos
    }
}

/// The first position from `pos` on that holds `stop`, or the end of input.
pub open spec fn find_char(src: Seq<char>, pos: int, stop: char) -> int
    decreases src.len() - pos,
{
    if 0 <= pos < src.len() && src[pos] != stop {
        find_char(src, pos + 1, stop)
    } else {
        pos
    }
}

/// How many newline characters stand in `src[from..to]`.
pub open spec fn newlines(src: Seq<char>, from: int, to: int) -> nat
    decreases to - from,
{
    if from >= to {
        0
    } else {
        newlines(src, from, to - 1) + if src[to - 1] == '\n' {
            1nat
        } else {
            0nat
        }
    }
}

/// Where the number that starts at `start` ends: digits, then a dot and more
/// digits if a digit follows the dot.
pub open spec fn number_end(src: Seq<char>, start: int) -> int {
    let whole = digits_end(src, start + 1);
    if whole + 1 < src.len() && src[whole] == '.' && digit(src[whole + 1]) {
        digits_end(src, whole + 1)
    } else {
        whole
    }
}

/// What one scan step found.
pub enum Lexed {
    Token(TokenView),
    Skip,
    Error(Seq<char>),
}

/// The result of one scan step: what was found, where the next step starts,
/// and the line counter after it.
pub struct Scan {
    pub lexed: Lexed,
    pub next: int,
    pub line: nat,
}

/// A token without a literal, made of `len` characters.
pub open spec fn plain(src: Seq<char>, start: int, line: nat, t: TokenType, len: int) -> Scan {
    Scan {
        lexed: Lexed::Token(
            TokenView {
                token_type: t,
                lexeme: src.subrange(start, start + len),
                literal: None,
                line_number: line,
            },
        ),
        next: start + len,
        line,
    }
}

/// A one-character token, or the two-character one if `=` follows.
pub open spec fn with_equal(
    src: Seq<char>,
    start: int,
    line: nat,
    bare: TokenType,
    suffixed: TokenType,
) -> Scan {
    if start + 1 < src.len() && src[start + 1] == '=' {
        plain(src, start, line, suffixed, 2)
    } else {
        plain(src, start, line, bare, 1)
    }
}

/// The message of a character that starts no token.
pub open spec fn unrecognized_message(line: nat, c: char) -> Seq<char> {
    "Unrecognized char at line "@ + decimal_text(line) + ": "@ + seq![c]
}

/// The message of a string that the input ends in. `line` is where the
/// string opens.
pub open spec fn unterminated_message(line: nat) -> Seq<char> {
    "Unterminated string at line "@ + decimal_text(line)
}

/// A string literal that opens at `start`.
pub open spec fn scan_string(src: Seq<char>, start: int, line: nat) -> Scan {
    let close = find_char(src, start + 1, '"');
    let line_after = line + newlines(src, start + 1, close);
    if close >= src.len() {
        Scan { lexed: Lexed::Error(unterminated_message(line)), next: close, line: line_after }
    } else {
        Scan {
            lexed: Lexed::Token(
                TokenView {
                    token_type: TokenType::StringLit,
                    lexeme: src.subrange(start, close + 1),
                    literal: Some(LiteralView::StringValue(src.subrange(start + 1, close))),
                    line_number: line_after,
                },
            ),
            next: close + 1,
            line: line_after,
        }
    }
}

/// An identifier or keyword that starts at `start`.
pub open spec fn scan_word(src: Seq<char>, start: int, line: nat) -> Scan {
    let end = word_end(src, start + 1);
    let kind = match keyword(src.subrange(start, end)) {
        Some(k) => k,
        None => TokenType::Identifier,
    };
    plain(src, start, line, kind, end - start)
}

/// One scan step from `start`, which must lie inside the input.
pub open spec fn scan_token(src: Seq<char>, start: int, line: nat) -> Scan {
    let c = src[start];
    if c == '(' {
        plain(src, start, line, TokenType::LeftParen, 1)
    } else if c == ')' {
        plain(src, start, line, TokenType::RightParen, 1)
    } else if c == '{' {
        plain(src, start, line, TokenType::LeftBrace, 1)
    } else if c == '}' {
        plain(src, start, line, TokenType::RightBrace, 1)
    } else if c == ',' {
        plain(src, start, line, TokenType::Comma, 1)
    } else if c == '.' {
        plain(src, start, line, TokenType::Dot, 1)
    } else if c == '-' {
        plain(src, start, line, TokenType::Minus, 1)
    } else if c == '+' {
        plain(src, start, line, TokenType::Plus, 1)
    } else if c == ';' {
        plain(src, start, line, TokenType::Semicolon, 1)
    } else if c == '*' {
        plain(src, start, line, TokenType::Star, 1)
    } else if c == '!' {
        with_equal(src, start, line, TokenType::Bang, TokenType::BangEqual)
    } else if c == '=' {
        with_equal(src, start, line, TokenType::Equal, TokenType::EqualEqual)
    } else if c == '<' {
        with_equal(src, start, line, TokenType::Less, TokenType::LessEqual)
    } else if c == '>' {
        with_equal(src, start, line, TokenType::Greater, TokenType::GreaterEqual)
    } else if c == '/' {
        if start + 1 < src.len() && src[start + 1] == '/' {
            Scan { lexed: Lexed::Skip, next: find_char(src, start + 2, '\n'), line }
        } else {
            plain(src, start, line, TokenType::Slash, 1)
        }
    } else if c == ' ' || c == '\t' || c == '\r' {
        Scan { lexed: Lexed::Skip, next: start + 1, line }
    } else if c == '\n' {
        Scan { lexed: Lexed::Skip, next: start + 1, line: line + 1 }
    } else if c == '"' {
        scan_string(src, start, line)
    } else if digit(c) {
        plain(src, start, line, TokenType::Number, number_end(src, start) - start)
    } else if alpha(c) {
        scan_word(src, start, line)
    } else {
        Scan { lexed: Lexed::Error(unrecognized_message(line, c)), next: start + 1, line }
    }
}

/// What scanning has gathered: the tokens, the error messages, the line counter.
pub struct Lexing {
    pub tokens: Seq<TokenView>,
    pub errors: Seq<Seq<char>>,
    pub line: nat,
}

/// Scans from `pos` to the end of input, adding to what was gathered before.
pub open spec fn scan_all(src: Seq<char>, pos: int, gathered: Lexing) -> Lexing
    decreases src.len() - pos,
{
    if pos < 0 || pos >= src.len() {
        gathered
    } else {
        let scan = scan_token(src, pos, gathered.line);
        if scan.next <= pos || scan.next > src.len() {
            gathered
        } else {
            scan_all(
                src,
                scan.next,
                Lexing {
                    tokens: match scan.lexed {
                        Lexed::Token(t) => gathered.tokens.push(t),
                        _ => gathered.tokens,
                    },
                    errors: match scan.lexed {
                        Lexed::Error(m) => gathered.errors.push(m),
                        _ => gathered.errors,
                    },
                    line: scan.line,
                },
            )
        }
    }
}

/// Each message followed by a newline, one after the other.
pub open spec fn join_lines(messages: Seq<Seq<char>>) -> Seq<char>
    decreases messages.len(),
{
    if messages.len() == 0 {
        Seq::empty()
    } else {
        join_lines(messages.drop_last()) + messages.last() + seq!['\n']
    }
}

/// The token that ends every stream.
pub open spec fn end_token(line: nat) -> TokenView {
    TokenView { token_type: TokenType::Eof, lexeme: Seq::empty(), literal: None, line_number: line }
}

/// The tokens of `src`, ended by the end token; or, if anything in `src` could
/// not be scanned, every error message of the whole input.
pub open spec fn tokens_of(src: Seq<char>) -> Result<Seq<TokenView>, Seq<char>> {
    let done = scan_all(src, 0, Lexing { tokens: Seq::empty(), errors: Seq::empty(), line: 0 });
    if done.errors.len() > 0 {
        Err(join_lines(done.errors))
    } else {
        Ok(done.tokens.push(end_token(done.line)))
    }
}

/// The scans from `pos` on move forward.
proof fn lemma_runs_advance(src: Seq<char>, pos: int, stop: char)
    ensures
        pos <= digits_end(src, pos),
        pos <= word_end(src, pos),
        pos <= find_char(src, pos, stop),
        pos <= src.len() ==> digits_end(src, pos) <= src.len(),
        pos <= src.len() ==> word_end(src, pos) <= src.len(),
        pos <= src.len() ==> find_char(src, pos, stop) <= src.len(),
    decreases src.len() - pos,
{
    if 0 <= pos < src.len() {
        lemma_runs_advance(src, pos + 1, stop);
    }
}

/// One scan step consumes at least one character and stays inside the input.
proof fn lemma_scan_advances(src: Seq<char>, start: int, line: nat)
    requires
        0 <= start < src.len(),
    ensures
        start < scan_token(src, start, line).next <= src.len(),
{
    lemma_runs_advance(src, start + 1, '"');
    lemma_runs_advance(src, start + 2, '\n');
    let whole = digits_end(src, start + 1);
    lemma_runs_advance(src, whole + 1, '"');
}

proof fn lemma_scan_all_has_no_end(src: Seq<char>, pos: int, gathered: Lexing)
    requires
        forall|i: int|
            0 <= i < gathered.tokens.len() ==> (#[trigger] gathered.tokens[i]).token_type
                != TokenType::Eof,
    ensures
        forall|i: int|
            0 <= i < scan_all(src, pos, gathered).tokens.len() ==> (#[trigger] scan_all(
                src,
                pos,
                gathered,
            ).tokens[i]).token_type != TokenType::Eof,
    decreases src.len() - pos,
{
    if !(pos < 0 || pos >= src.len()) {
        let scan = scan_token(src, pos, gathered.line);
        if !(scan.next <= pos || scan.next > src.len()) {
            let next = Lexing {
                tokens: match scan.lexed {
                    Lexed::Token(t) => gathered.tokens.push(t),
                    _ => gathered.tokens,
                },
                errors: match scan.lexed {
                    Lexed::Error(m) => gathered.errors.push(m),
                    _ => gathered.errors,
                },
                line: scan.line,
            };
            lemma_scan_all_has_no_end(src, scan.next, next);
        }
    }
}

/// A token stream ends with the end token, and holds no other end token.
pub proof fn stream_ends_with_end_token(src: Seq<char>)
    ensures
        tokens_of(src) matches Ok(tokens) ==> tokens.len() > 0 && tokens.last().token_type
            == TokenType::Eof && forall|i: int|
            0 <= i < tokens.len() - 1 ==> (#[trigger] tokens[i]).token_type != TokenType::Eof,
{
    let start = Lexing { tokens: Seq::empty(), errors: Seq::empty(), line: 0 };
    lemma_scan_all_has_no_end(src, 0, start);
}

/// A tokenizer over a source text.
pub struct Tokenizer {
    source: Vec<char>,
    tokens: Vec<Token>,
    start: usize,
    current: usize,
    line: usize,
}

/// The mathematical model of a tokenizer.
pub struct TokenizerView {
    pub source: Seq<char>,
    pub tokens: Seq<TokenView>,
    pub start: nat,
    pub current: nat,
    pub line: nat,
}

impl View for Tokenizer {
    type V = TokenizerView;

    closed spec fn view(&self) -> TokenizerView {
        TokenizerView {
            source: self.source@,
            tokens: token_views(self.tokens@),
            start: self.start as nat,
            current: self.current as nat,
            line: self.line as nat,
        }
    }
}

impl TokenizerView {
    /// The counters stay inside the input, and no more lines were counted
    /// than characters were read.
    pub open spec fn wf(self) -> bool {
        &&& self.start <= self.current <= self.source.len()
        &&& self.line <= self.current
    }

    /// What was gathered so far.
    pub open spec fn gathered(self) -> Lexing {
        Lexing { tokens: self.tokens, errors: Seq::empty(), line: self.line }
    }

    /// What `tokenize` returns from this state.
    pub open spec fn outcome(self) -> Result<Seq<TokenView>, Seq<char>> {
        let done = scan_all(self.source, self.current as int, self.gathered());
        if done.errors.len() > 0 {
            Err(join_lines(done.errors))
        } else {
            Ok(done.tokens.push(end_token(done.line)))
        }
    }
}

/// No more newlines stand in a range than it has characters.
proof fn lemma_newlines_bound(src: Seq<char>, from: int, to: int)
    ensures
        from <= to ==> newlines(src, from, to) <= to - from,
        from >= to ==> newlines(src, from, to) == 0,
    decreases to - from,
{
    if from < to {
        lemma_newlines_bound(src, from, to - 1);
    }
}

impl Tokenizer {
    /// A tokenizer at the start of `source`.
    pub fn new(source: &str) -> (t: Tokenizer)
        ensures
            t@ == (TokenizerView {
                source: source@,
                tokens: Seq::empty(),
                start: 0,
                current: 0,
                line: 0,
            }),
            t@.wf(),
            t@.outcome() == tokens_of(source@),
    {
        let t = Tokenizer { source: chars_of(source), tokens: Vec::new(), start: 0, current: 0, line: 0 };
        assert(token_views(t.tokens@) =~= Seq::empty());
        t
    }

    /// Scans the rest of the input. Returns every token, ended by the end
    /// token, or every error message if anything could not be scanned.
    pub fn tokenize(&mut self) -> (r: Result<Vec<Token>, String>)
        requires
            old(self)@.wf(),
        ensures
            final(self)@.wf(),
            final(self)@.source == old(self)@.source,
            final(self)@.current == old(self)@.source.len(),
            match old(self)@.outcome() {
                Ok(tokens) => r is Ok && token_views(r->Ok_0@) == tokens && final(self)@.tokens
                    == tokens,
                Err(message) => r is Err && r->Err_0@ == message,
            },
    {
        let mut errors: Vec<String> = Vec::new();
        let ghost src = self.source@;
        let ghost goal = scan_all(src, self.current as int, self@.gathered());
        assert(Seq::new(errors.len() as nat, |i: int| errors[i]@) =~= Seq::empty());
        while !self.is_at_end()
            invariant
                self@.wf(),
                self@.source == src,
                scan_all(
                    src,
                    self.current as int,
                    Lexing {
                        tokens: self@.tokens,
                        errors: Seq::new(errors.len() as nat, |i: int| errors[i]@),
                        line: self@.line,
                    },
                ) == goal,
            decreases src.len() - self.current,
        {
            self.start = self.current;
            let ghost before = self@;
            let ghost messages = Seq::new(errors.len() as nat, |i: int| errors[i]@);
            proof {
                lemma_scan_advances(src, self.current as int, self.line as nat);
            }
            match self.scan_token() {
                Ok(_) => {},
                Err(message) => {
                    errors.push(message);
                },
            }
            proof {
                let scan = scan_token(src, before.current as int, before.line);
                let after = Seq::new(errors.len() as nat, |i: int| errors[i]@);
                match scan.lexed {
                    Lexed::Error(m) => {
                        assert(after =~= messages.push(m));
                    },
                    _ => {
                        assert(after =~= messages);
                    },
                }
            }
        }
        let end = Token {
            token_type: TokenType::Eof,
            lexeme: String::new(),
            literal: None,
            line_number: self.line,
        };
        let ghost scanned = self@.tokens;
        self.tokens.push(end);
        proof {
            assert(self@.tokens =~= scanned.push(end_token(self.line as nat)));
        }
        let ghost messages = Seq::new(errors.len() as nat, |i: int| errors[i]@);
        if errors.len() > 0 {
            let mut joined = String::new();
            let mut i: usize = 0;
            while i < errors.len()
                invariant
                    i <= errors.len(),
                    messages == Seq::new(errors.len() as nat, |j: int| errors[j]@),
                    joined@ == join_lines(messages.take(i as int)),
                decreases errors.len() - i,
            {
                proof {
                    assert(messages.take(i + 1).drop_last() =~= messages.take(i as int));
                }
                joined.append(errors[i].as_str());
                joined.append("\n");
                proof {
                    reveal_strlit("\n");
                    assert("\n"@ =~= seq!['\n']);
                }
                i += 1;
            }
            proof {
                assert(messages.take(i as int) =~= messages);
            }
            return Err(joined);
        }
        let tokens = copy_tokens(&self.tokens);
        Ok(tokens)
    }

    fn is_at_end(&self) -> (r: bool)
        ensures
            r == (self@.current >= self@.source.len()),
    {
        self.current >= self.source.len()
    }

    /// One scan step from `current`.
    fn scan_token(&mut self) -> (r: Result<(), String>)
        requires
            old(self)@.wf(),
            old(self)@.current < old(self)@.source.len(),
            old(self)@.start == old(self)@.current,
        ensures
            final(self)@.wf(),
            final(self)@.source == old(self)@.source,
            ({
                let scan = scan_token(
                    old(self)@.source,
                    old(self)@.current as int,
                    old(self)@.line,
                );
                &&& final(self)@.current == scan.next
                &&& final(self)@.line == scan.line
                &&& match scan.lexed {
                    Lexed::Token(t) => r is Ok && final(self)@.tokens == old(self)@.tokens.push(t),
                    Lexed::Skip => r is Ok && final(self)@.tokens == old(self)@.tokens,
                    Lexed::Error(m) => r is Err && r->Err_0@ == m && final(self)@.tokens == old(
                        self,
                    )@.tokens,
                }
            }),
    {
        assert(self.current < self.source.len());
        let c = self.source[self.current];
        self.current += 1;
        if c == '(' {
            self.add_token(TokenType::LeftParen);
        } else if c == ')' {
            self.add_token(TokenType::RightParen);
        } else if c == '{' {
            self.add_token(TokenType::LeftBrace);
        } else if c == '}' {
            self.add_token(TokenType::RightBrace);
        } else if c == ',' {
            self.add_token(TokenType::Comma);
        } else if c == '.' {
            self.add_token(TokenType::Dot);
        } else if c == '-' {
            self.add_token(TokenType::Minus);
        } else if c == '+' {
            self.add_token(TokenType::Plus);
        } else if c == ';' {
            self.add_token(TokenType::Semicolon);
        } else if c == '*' {
            self.add_token(TokenType::Star);
        } else if c == '!' {
            let kind = if self.char_match('=') {
                TokenType::BangEqual
            } else {
                TokenType::Bang
            };
            self.add_token(kind);
        } else if c == '=' {
            let kind = if self.char_match('=') {
                TokenType::EqualEqual
            } else {
                TokenType::Equal
            };
            self.add_token(kind);
        } else if c == '<' {
            let kind = if self.char_match('=') {
                TokenType::LessEqual
            } else {
                TokenType::Less
            };
            self.add_token(kind);
        } else if c == '>' {
            let kind = if self.char_match('=') {
                TokenType::GreaterEqual
            } else {
                TokenType::Greater
            };
            self.add_token(kind);
        } else if c == '/' {
            if self.char_match('/') {
                self.skip_to('\n');
            } else {
                self.add_token(TokenType::Slash);
            }
        } else if c == ' ' || c == '\t' || c == '\r' {
        } else if c == '\n' {
            self.line += 1;
        } else if c == '"' {
            return self.string();
        } else if is_digit(c) {
            self.number();
        } else if is_alpha(c) {
            self.identifier();
        } else {
            let mut message = String::new();
            message.append("Unrecognized char at line ");
            message.append(decimal(self.line).as_str());
            message.append(": ");
            message.push(c);
            return Err(message);
        }
        Ok(())
    }

    /// Moves `current` to the first `stop` from it on, or to the end of input.
    fn skip_to(&mut self, stop: char)
        requires
            old(self)@.wf(),
        ensures
            final(self)@ == (TokenizerView {
                current: find_char(old(self)@.source, old(self)@.current as int, stop) as nat,
                ..old(self)@
            }),
            final(self)@.current as int == find_char(
                old(self)@.source,
                old(self)@.current as int,
                stop,
            ),
            final(self)@.wf(),
    {
        let ghost from = self.current as int;
        while self.current < self.source.len() && self.source[self.current] != stop
            invariant
                self@.wf(),
                self@ == (TokenizerView { current: self@.current, ..old(self)@ }),
                find_char(self@.source, self.current as int, stop) == find_char(
                    self@.source,
                    from,
                    stop,
                ),
            decreases self.source.len() - self.current,
        {
            self.current += 1;
        }
    }

    /// An identifier or keyword whose first character was read.
    fn identifier(&mut self)
        requires
            old(self)@.wf(),
            old(self)@.start < old(self)@.current,
        ensures
            final(self)@.wf(),
            final(self)@.source == old(self)@.source,
            final(self)@.line == old(self)@.line,
            final(self)@.start == old(self)@.start,
            final(self)@.current == word_end(old(self)@.source, old(self)@.current as int),
            ({
                let text = old(self)@.source.subrange(
                    old(self)@.start as int,
                    final(self)@.current as int,
                );
                final(self)@.tokens == old(self)@.tokens.push(
                    TokenView {
                        token_type: match keyword(text) {
                            Some(k) => k,
                            None => TokenType::Identifier,
                        },
                        lexeme: text,
                        literal: None,
                        line_number: old(self)@.line,
                    },
                )
            }),
    {
        let ghost from = self.current as int;
        while self.current < self.source.len() && is_alpha_numeric(self.source[self.current])
            invariant
                self@.wf(),
                self@ == (TokenizerView { current: self@.current, ..old(self)@ }),
                word_end(self@.source, self.current as int) == word_end(self@.source, from),
            decreases self.source.len() - self.current,
        {
            self.current += 1;
        }
        let text = text_of(&self.source, self.start, self.current);
        match get_keyword(text.as_str()) {
            Some(kind) => self.add_token(kind),
            None => self.add_token(TokenType::Identifier),
        }
    }

    /// A number whose first digit was read.
    fn number(&mut self)
        requires
            old(self)@.wf(),
            old(self)@.start + 1 == old(self)@.current,
        ensures
            final(self)@.current as int == number_end(old(self)@.source, old(self)@.start as int),
            final(self)@ == (TokenizerView {
                current: number_end(old(self)@.source, old(self)@.start as int) as nat,
                tokens: old(self)@.tokens.push(
                    TokenView {
                        token_type: TokenType::Number,
                        lexeme: old(self)@.source.subrange(
                            old(self)@.start as int,
                            number_end(old(self)@.source, old(self)@.start as int),
                        ),
                        literal: None,
                        line_number: old(self)@.line,
                    },
                ),
                ..old(self)@
            }),
            final(self)@.wf(),
    {
        self.skip_digits();
        proof {
            lemma_runs_advance(self@.source, old(self)@.current as int, '"');
        }
        assert(self.current <= self.source.len());
        if self.current < self.source.len() && self.current + 1 < self.source.len() && self.source[self.current] == '.' && is_digit(
            self.source[self.current + 1],
        ) {
            self.current += 1;
            self.skip_digits();
        }
        self.add_token(TokenType::Number);
    }

    /// Moves `current` past the digits that start at it.
    fn skip_digits(&mut self)
        requires
            old(self)@.wf(),
        ensures
            final(self)@ == (TokenizerView {
                current: digits_end(old(self)@.source, old(self)@.current as int) as nat,
                ..old(self)@
            }),
            final(self)@.current as int == digits_end(old(self)@.source, old(self)@.current as int),
            final(self)@.wf(),
    {
        let ghost from = self.current as int;
        while self.current < self.source.len() && is_digit(self.source[self.current])
            invariant
                self@.wf(),
                self@ == (TokenizerView { current: self@.current, ..old(self)@ }),
                digits_end(self@.source, self.current as int) == digits_end(self@.source, from),
            decreases self.source.len() - self.current,
        {
            self.current += 1;
        }
    }

    /// A string literal whose opening quote was read.
    fn string(&mut self) -> (r: Result<(), String>)
        requires
            old(self)@.wf(),
            old(self)@.start + 1 == old(self)@.current,
        ensures
            final(self)@.wf(),
            final(self)@.source == old(self)@.source,
            ({
                let scan = scan_string(old(self)@.source, old(self)@.start as int, old(self)@.line);
                &&& final(self)@.current == scan.next
                &&& final(self)@.line == scan.line
                &&& match scan.lexed {
                    Lexed::Token(t) => r is Ok && final(self)@.tokens == old(self)@.tokens.push(t),
                    Lexed::Skip => r is Ok && final(self)@.tokens == old(self)@.tokens,
                    Lexed::Error(m) => r is Err && r->Err_0@ == m && final(self)@.tokens == old(
                        self,
                    )@.tokens,
                }
            }),
    {
        let ghost from = self.current as int;
        let opened = self.line;
        while self.current < self.source.len() && self.source[self.current] != '"'
            invariant
                self@.wf(),
                from <= self.current,
                self@ == (TokenizerView { current: self@.current, line: self@.line, ..old(self)@ }),
                self.line == opened + newlines(self@.source, from, self.current as int),
                opened <= from,
                find_char(self@.source, self.current as int, '"') == find_char(
                    self@.source,
                    from,
                    '"',
                ),
            decreases self.source.len() - self.current,
        {
            let c = self.source[self.current];
            proof {
                lemma_newlines_bound(self@.source, from, self.current as int);
            }
            assert(self.current < self.source.len());
            self.current += 1;
            if c == '\n' {
                self.line += 1;
            }
        }
        if self.is_at_end() {
            let mut message = String::new();
            message.append("Unterminated string at line ");
            message.append(decimal(opened).as_str());
            return Err(message);
        }
        proof {
            lemma_newlines_bound(self@.source, from, self.current as int);
        }
        assert(self.current < self.source.len());
        self.current += 1;
        let value = text_of(&self.source, self.start + 1, self.current - 1);
        self.add_token_lit(TokenType::StringLit, Some(LiteralValue::StringValue(value)));
        Ok(())
    }

    /// Reads the next character if it is `c`.
    fn char_match(&mut self, c: char) -> (r: bool)
        requires
            old(self)@.wf(),
        ensures
            r == (old(self)@.current < old(self)@.source.len() && old(self)@.source[old(
                self,
            )@.current as int] == c),
            final(self)@ == (TokenizerView {
                current: if r {
                    old(self)@.current + 1
                } else {
                    old(self)@.current
                },
                ..old(self)@
            }),
            final(self)@.wf(),
    {
        if self.is_at_end() {
            return false;
        }
        assert(self.current < self.source.len());
        if self.source[self.current] != c {
            false
        } else {
            self.current += 1;
            true
        }
    }

    fn add_token(&mut self, token_type: TokenType)
        requires
            old(self)@.wf(),
        ensures
            final(self)@ == (TokenizerView {
                tokens: old(self)@.tokens.push(
                    TokenView {
                        token_type,
                        lexeme: old(self)@.source.subrange(
                            old(self)@.start as int,
                            old(self)@.current as int,
                        ),
                        literal: None,
                        line_number: old(self)@.line,
                    },
                ),
                ..old(self)@
            }),
            final(self)@.wf(),
    {
        self.add_token_lit(token_type, None);
    }

    /// Adds a token whose text is `source[start..current]`.
    fn add_token_lit(&mut self, token_type: TokenType, literal: Option<LiteralValue>)
        requires
            old(self)@.wf(),
        ensures
            final(self)@ == (TokenizerView {
                tokens: old(self)@.tokens.push(
                    TokenView {
                        token_type,
                        lexeme: old(self)@.source.subrange(
                            old(self)@.start as int,
                            old(self)@.current as int,
                        ),
                        literal: literal_view(literal),
                        line_number: old(self)@.line,
                    },
                ),
                ..old(self)@
            }),
            final(self)@.wf(),
    {
        let text = text_of(&self.source, self.start, self.current);
        let ghost before = self@.tokens;
        let token = Token { token_type, lexeme: text, literal, line_number: self.line };
        self.tokens.push(token);
        proof {
            assert(self@.tokens =~= before.push(token@));
        }
    }
}

/// A copy of every token.
pub fn copy_tokens(tokens: &Vec<Token>) -> (r: Vec<Token>)
    ensures
        r@ == tokens@,
{
    let mut r: Vec<Token> = Vec::new();
    let mut i: usize = 0;
    while i < tokens.len()
        invariant
            i <= tokens.len(),
            r@ == tokens@.take(i as int),
        decreases tokens.len() - i,
    {
        r.push(tokens[i].clone());
        proof {
            assert(tokens@.take(i + 1) =~= tokens@.take(i as int).push(tokens@[i as int]));
        }
        i += 1;
    }
    proof {
        assert(tokens@.take(i as int) =~= tokens@);
    }
    r
}

} // verus!
