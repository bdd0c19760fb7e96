//! The parser: recursive descent from tokens to statements.
//!
//! The grammar, lowest binding first:
//!
//! ```text
//! program     -> declaration* Eof
//! declaration -> "let" IDENTIFIER ( "=" expression )? ";"
//!              | "fn" IDENTIFIER "(" parameters? ")" "{" declaration* "}"
//!              | statement
//! statement   -> expression ";" | "print" expression ";"
//!              | "{" declaration* "}"
//!              | "if" "(" expression ")" statement ( "else" statement )?
//!              | "while" "(" expression ")" statement
//!              | "for" "(" ( "let" ... | expression ";" | ";" )
//!                expression? ";" expression? ")" statement
//!              | "break" ";" | "return" expression? ";"
//! expression  -> assignment
//! assignment  -> IDENTIFIER "=" assignment | or
//! or          -> and ( "or" and )*
//! and         -> equality ( "and" equality )*
//! equality    -> comparison ( ( "!=" | "==" ) comparison )*
//! comparison  -> term ( ( ">" | ">=" | "<" | "<=" ) term )*
//! term        -> factor ( ( "-" | "+" ) factor )*
//! factor      -> unary ( ( "/" | "*" ) unary )*
//! unary       -> ( "!" | "-" ) unary | call
//! call        -> primary ( "(" arguments? ")" )*
//! primary     -> NUMBER | STRING | "true" | "false" | "null"
//!              | IDENTIFIER | "(" expression ")"
//! ```
//!
//! `break` is no keyword. A statement that starts with an identifier spelled
//! `break` is a break statement; anywhere else the spelling is a name like
//! any other.
//!
//! The specification functions of this module are that grammar as functions
//! from a token sequence and a position to a result and the position after it.
//! Past the end of the tokens every position reads as the end token.

use crate::expr::{
    expr_views, lemma_call_view, literal_token, token_value, Expr, ExprView, LiteralValue,
    ValueView,
};
use crate::stmt::{lemma_list_view, stmt_views, Stmt, StmtView};
use crate::text::{decimal, decimal_text, same_text};
use crate::tokenizer::{end_token, token_views, Token, TokenType, TokenView};
use vstd::prelude::*;

verus! {

/// What a parsing function gives: the result, and the position after it.
pub struct Parsed<T> {
    pub result: Result<T, Seq<char>>,
    pub pos: nat,
}

/// The token at `p`; past the end, the end token.
pub open spec fn token_at(t: Seq<TokenView>, p: nat) -> TokenView {
    if p < t.len() {
        t[p as int]
    } else {
        end_token(0)
    }
}

/// The kind of the token at `p`.
pub open spec fn kind_at(t: Seq<TokenView>, p: nat) -> TokenType {
    token_at(t, p).token_type
}

/// Whether the token at `p` is the end token.
pub open spec fn at_end(t: Seq<TokenView>, p: nat) -> bool {
    kind_at(t, p) == TokenType::Eof
}

/// The position after the token at `p`. The end token is never passed.
pub open spec fn step_over(t: Seq<TokenView>, p: nat) -> nat {
    if at_end(t, p) {
        p
    } else {
        p + 1
    }
}

/// How many tokens stand at `p` and after it.
pub open spec fn remaining(t: Seq<TokenView>, p: nat) -> nat {
    if p <= t.len() {
        (t.len() - p) as nat
    } else {
        0
    }
}

/// An error message, tagged with the line of the token at `p`.
pub open spec fn error_at(t: Seq<TokenView>, p: nat, message: Seq<char>) -> Seq<char> {
    "line: "@ + decimal_text(token_at(t, p).line_number) + ", "@ + message
}

/// `pos`, which is never behind `least`.
pub open spec fn ahead(pos: nat, least: nat) -> nat {
    if pos < least {
        least
    } else {
        pos
    }
}

/// An error at `p`, which stays the position.
pub open spec fn failure<T>(t: Seq<TokenView>, p: nat, message: Seq<char>) -> Parsed<T> {
    Parsed { result: Err(error_at(t, p, message)), pos: p }
}

/// The token at `p` if it is of `kind`, else an error with `message`.
pub open spec fn expect(t: Seq<TokenView>, p: nat, kind: TokenType, message: Seq<char>) -> Parsed<
    TokenView,
> {
    if kind_at(t, p) == kind {
        Parsed { result: Ok(token_at(t, p)), pos: step_over(t, p) }
    } else {
        failure(t, p, message)
    }
}

/// Whether `kind` is an operator of the binary tier `level`: 0 is `or`, 1 is
/// `and`, 2 equality, 3 comparison, 4 the additive and 5 the multiplicative
/// operators.
pub open spec fn operator_of(level: nat, kind: TokenType) -> bool {
    if level == 0 {
        kind == TokenType::Or
    } else if level == 1 {
        kind == TokenType::And
    } else if level == 2 {
        kind == TokenType::BangEqual || kind == TokenType::EqualEqual
    } else if level == 3 {
        kind == TokenType::Greater || kind == TokenType::GreaterEqual || kind == TokenType::Less
            || kind == TokenType::LessEqual
    } else if level == 4 {
        kind == TokenType::Minus || kind == TokenType::Plus
    } else {
        kind == TokenType::Slash || kind == TokenType::Star
    }
}

/// The expression that an operator of tier `level` makes of its operands.
pub open spec fn combined(level: nat, left: ExprView, operator: TokenView, right: ExprView) -> ExprView {
    if level < 2 {
        ExprView::Logical { left: Box::new(left), operator, right: Box::new(right) }
    } else {
        ExprView::Binary { left: Box::new(left), operator, right: Box::new(right) }
    }
}

/// The rank of a binary tier among the parsing functions, for termination.
pub open spec fn tier_rank(level: nat) -> nat {
    if level >= 5 {
        18
    } else {
        (28 - 2 * level) as nat
    }
}

/// The most arguments that a call can have, and the most parameters that a
/// function can have.
pub const MAX_ARGUMENTS: usize = 255;

/// The message of a call with more arguments than a call can have.
pub open spec fn too_many_message() -> Seq<char> {
    "Can not have more than 255 function arguments"@
}

/// An expression: an assignment.
pub open spec fn expression(t: Seq<TokenView>, p: nat) -> Parsed<ExprView>
    decreases remaining(t, p), 30nat,
{
    assignment(t, p)
}

/// `IDENTIFIER "=" assignment`, or the tier of `or`. What stands left of `=`
/// must have parsed as a plain variable.
pub open spec fn assignment(t: Seq<TokenView>, p: nat) -> Parsed<ExprView>
    decreases remaining(t, p), 29nat,
{
    let target = tier(t, p, 0);
    match target.result {
        Err(_) => target,
        Ok(e) => {
            let q = ahead(target.pos, p);
            if kind_at(t, q) == TokenType::Equal {
                let value = expression(t, q + 1);
                match value.result {
                    Err(_) => value,
                    Ok(v) => match e {
                        ExprView::Variable { name } => Parsed {
                            result: Ok(ExprView::Assign { name, value: Box::new(v) }),
                            pos: value.pos,
                        },
                        _ => failure(t, value.pos, "Invalid assignment target"@),
                    },
                }
            } else {
                target
            }
        },
    }
}

/// One binary tier: an operand of the next tier, then operators of this tier
/// with further operands, folded to the left.
pub open spec fn tier(t: Seq<TokenView>, p: nat, level: nat) -> Parsed<ExprView>
    decreases remaining(t, p), tier_rank(level),
{
    let first = if level >= 5 {
        unary(t, p)
    } else {
        tier(t, p, level + 1)
    };
    match first.result {
        Err(_) => first,
        Ok(e) => tier_rest(t, ahead(first.pos, p), level, e),
    }
}

/// The operators of tier `level` that follow `left`, with their operands.
pub open spec fn tier_rest(t: Seq<TokenView>, p: nat, level: nat, left: ExprView) -> Parsed<
    ExprView,
>
    decreases remaining(t, p), (tier_rank(level) - 1) as nat,
{
    if operator_of(level, kind_at(t, p)) {
        let operand = if level >= 5 {
            unary(t, p + 1)
        } else {
            tier(t, p + 1, level + 1)
        };
        match operand.result {
            Err(_) => operand,
            Ok(right) => tier_rest(
                t,
                ahead(operand.pos, p + 1),
                level,
                combined(level, left, token_at(t, p), right),
            ),
        }
    } else {
        Parsed { result: Ok(left), pos: p }
    }
}

/// `!` or `-` before a unary expression, or a call.
pub open spec fn unary(t: Seq<TokenView>, p: nat) -> Parsed<ExprView>
    decreases remaining(t, p), 10nat,
{
    if kind_at(t, p) == TokenType::Bang || kind_at(t, p) == TokenType::Minus {
        let operand = unary(t, p + 1);
        match operand.result {
            Err(_) => operand,
            Ok(right) => Parsed {
                result: Ok(ExprView::Unary { operator: token_at(t, p), right: Box::new(right) }),
                pos: operand.pos,
            },
        }
    } else {
        call(t, p)
    }
}

/// A primary expression, then any number of argument lists.
pub open spec fn call(t: Seq<TokenView>, p: nat) -> Parsed<ExprView>
    decreases remaining(t, p), 9nat,
{
    let callee = primary(t, p);
    match callee.result {
        Err(_) => callee,
        Ok(e) => call_rest(t, ahead(callee.pos, p), e),
    }
}

/// The argument lists that follow `callee`.
pub open spec fn call_rest(t: Seq<TokenView>, p: nat, callee: ExprView) -> Parsed<ExprView>
    decreases remaining(t, p), 8nat,
{
    if kind_at(t, p) == TokenType::LeftParen {
        let made = finish_call(t, p + 1, callee);
        match made.result {
            Err(_) => made,
            Ok(e) => call_rest(t, ahead(made.pos, p + 1), e),
        }
    } else {
        Parsed { result: Ok(callee), pos: p }
    }
}

/// The arguments of a call and its closing parenthesis. The opening one has
/// been read.
pub open spec fn finish_call(t: Seq<TokenView>, p: nat, callee: ExprView) -> Parsed<ExprView>
    decreases remaining(t, p), 32nat,
{
    let listed = if kind_at(t, p) == TokenType::RightParen {
        Parsed { result: Ok(Seq::empty()), pos: p }
    } else {
        arguments(t, p, Seq::empty())
    };
    match listed.result {
        Err(m) => Parsed { result: Err(m), pos: listed.pos },
        Ok(list) => {
            let close = expect(t, listed.pos, TokenType::RightParen, "Expected ')' after arguments"@);
            match close.result {
                Err(m) => Parsed { result: Err(m), pos: close.pos },
                Ok(paren) => Parsed {
                    result: Ok(
                        ExprView::Call { callee: Box::new(callee), paren, arguments: list },
                    ),
                    pos: close.pos,
                },
            }
        },
    }
}

/// One or more expressions, separated by commas, added to `list`. More than
/// 255 in all are an error.
pub open spec fn arguments(t: Seq<TokenView>, p: nat, list: Seq<ExprView>) -> Parsed<
    Seq<ExprView>,
>
    decreases remaining(t, p), 31nat,
{
    let one = expression(t, p);
    match one.result {
        Err(m) => Parsed { result: Err(m), pos: one.pos },
        Ok(e) => {
            let q = ahead(one.pos, p + 1);
            if list.len() + 1 > MAX_ARGUMENTS {
                failure(t, q, too_many_message())
            } else if kind_at(t, q) == TokenType::Comma {
                arguments(t, q + 1, list.push(e))
            } else {
                Parsed { result: Ok(list.push(e)), pos: q }
            }
        },
    }
}

/// A literal, a variable, or an expression in parentheses.
pub open spec fn primary(t: Seq<TokenView>, p: nat) -> Parsed<ExprView>
    decreases remaining(t, p), 7nat,
{
    let token = token_at(t, p);
    match token.token_type {
        TokenType::LeftParen => {
            let inner = expression(t, p + 1);
            match inner.result {
                Err(_) => inner,
                Ok(e) => {
                    let close = expect(t, inner.pos, TokenType::RightParen, "Expected ')'"@);
                    match close.result {
                        Err(m) => Parsed { result: Err(m), pos: close.pos },
                        Ok(_) => Parsed {
                            result: Ok(ExprView::Grouping { expression: Box::new(e) }),
                            pos: close.pos,
                        },
                    }
                },
            }
        },
        TokenType::True | TokenType::False | TokenType::Null | TokenType::Number
        | TokenType::StringLit => if literal_token(token) {
            Parsed { result: Ok(ExprView::Literal { value: token_value(token) }), pos: p + 1 }
        } else {
            failure(t, p, "Expected a value for the literal"@)
        },
        TokenType::Identifier => Parsed {
            result: Ok(ExprView::Variable { name: token }),
            pos: p + 1,
        },
        _ => failure(t, p, "Expected expression"@),
    }
}

/// A result of another type with the same error.
pub open spec fn passed<A, B>(parsed: Parsed<A>) -> Parsed<B> {
    Parsed {
        result: match parsed.result {
            Err(m) => Err(m),
            Ok(_) => Err(Seq::empty()),
        },
        pos: parsed.pos,
    }
}

/// A `let` declaration, a function declaration, or a statement.
pub open spec fn declaration(t: Seq<TokenView>, p: nat) -> Parsed<StmtView>
    decreases remaining(t, p), 35nat,
{
    if kind_at(t, p) == TokenType::Let {
        let_declaration(t, p + 1)
    } else if kind_at(t, p) == TokenType::Fn {
        function(t, p + 1)
    } else {
        statement(t, p)
    }
}

/// A function declaration. The keyword has been read.
pub open spec fn function(t: Seq<TokenView>, p: nat) -> Parsed<StmtView>
    decreases remaining(t, p), 38nat,
{
    let name = expect(t, p, TokenType::Identifier, "Expected Function after name"@);
    match name.result {
        Err(_) => passed(name),
        Ok(n) => {
            let open = expect(t, name.pos, TokenType::LeftParen, "Expected '(' after Function name"@);
            match open.result {
                Err(_) => passed(open),
                Ok(_) => {
                    let listed = if kind_at(t, open.pos) == TokenType::RightParen {
                        Parsed { result: Ok(Seq::empty()), pos: open.pos }
                    } else {
                        parameters(t, open.pos, Seq::empty())
                    };
                    match listed.result {
                        Err(_) => passed(listed),
                        Ok(params) => {
                            let close = expect(
                                t,
                                listed.pos,
                                TokenType::RightParen,
                                "Expected ')' after parameters"@,
                            );
                            match close.result {
                                Err(_) => passed(close),
                                Ok(_) => {
                                    let brace = expect(
                                        t,
                                        close.pos,
                                        TokenType::LeftBrace,
                                        "Expected '{' before Function body"@,
                                    );
                                    match brace.result {
                                        Err(_) => passed(brace),
                                        Ok(_) => {
                                            let body = block(t, ahead(brace.pos, p + 1));
                                            match body.result {
                                                Err(_) => passed(body),
                                                Ok(statements) => Parsed {
                                                    result: Ok(
                                                        StmtView::Function {
                                                            name: n,
                                                            params,
                                                            body: statements,
                                                        },
                                                    ),
                                                    pos: body.pos,
                                                },
                                            }
                                        },
                                    }
                                },
                            }
                        },
                    }
                },
            }
        },
    }
}

/// One or more parameter names, separated by commas, added to `list`. More
/// than 255 in all are an error.
pub open spec fn parameters(t: Seq<TokenView>, p: nat, list: Seq<TokenView>) -> Parsed<
    Seq<TokenView>,
>
    decreases remaining(t, p),
{
    if list.len() >= MAX_ARGUMENTS {
        failure(t, p, too_many_message())
    } else {
        let name = expect(t, p, TokenType::Identifier, "Expected parameter after name"@);
        match name.result {
            Err(_) => passed(name),
            Ok(n) => if kind_at(t, name.pos) == TokenType::Comma && name.pos > p {
                parameters(t, name.pos + 1, list.push(n))
            } else {
                Parsed { result: Ok(list.push(n)), pos: name.pos }
            },
        }
    }
}

/// A `let` declaration. The keyword has been read. Without an initializer
/// the name is bound to `Null`.
pub open spec fn let_declaration(t: Seq<TokenView>, p: nat) -> Parsed<StmtView>
    decreases remaining(t, p), 38nat,
{
    let name = expect(t, p, TokenType::Identifier, "Expected variable name"@);
    match name.result {
        Err(_) => passed(name),
        Ok(n) => {
            let q = ahead(name.pos, p + 1);
            let initializer = if kind_at(t, q) == TokenType::Equal {
                expression(t, q + 1)
            } else {
                Parsed { result: Ok(ExprView::Literal { value: ValueView::Null }), pos: q }
            };
            match initializer.result {
                Err(_) => passed(initializer),
                Ok(e) => {
                    let end = expect(
                        t,
                        initializer.pos,
                        TokenType::Semicolon,
                        "Expected ';' after variable declaration"@,
                    );
                    match end.result {
                        Err(_) => passed(end),
                        Ok(_) => Parsed {
                            result: Ok(StmtView::Let { name: n, initializer: e }),
                            pos: end.pos,
                        },
                    }
                },
            }
        },
    }
}

/// Whether a break statement starts with this token: an identifier spelled
/// `break`.
pub open spec fn starts_break(token: TokenView) -> bool {
    token.token_type == TokenType::Identifier && token.lexeme == "break"@
}

/// A statement, told by its first token.
pub open spec fn statement(t: Seq<TokenView>, p: nat) -> Parsed<StmtView>
    decreases remaining(t, p), 34nat,
{
    if starts_break(token_at(t, p)) {
        break_statement(t, p + 1)
    } else {
        statement_by_kind(t, p)
    }
}

/// A statement other than `break`, told by the kind of its first token.
pub open spec fn statement_by_kind(t: Seq<TokenView>, p: nat) -> Parsed<StmtView>
    decreases remaining(t, p), 33nat, 1nat,
{
    match kind_at(t, p) {
        TokenType::Print => echo_statement(t, p + 1),
        TokenType::LeftBrace => {
            let body = block(t, p + 1);
            match body.result {
                Err(_) => passed(body),
                Ok(statements) => Parsed {
                    result: Ok(StmtView::Block { statements }),
                    pos: body.pos,
                },
            }
        },
        TokenType::If => if_statement(t, p + 1),
        TokenType::While => while_statement(t, p + 1),
        TokenType::For => for_statement(t, p + 1),
        TokenType::Return => return_statement(t, p + 1),
        _ => expression_statement(t, p),
    }
}

/// A `return` statement. The keyword, which is the token before `p`, has
/// been read.
pub open spec fn return_statement(t: Seq<TokenView>, p: nat) -> Parsed<StmtView>
    decreases remaining(t, p), 38nat,
{
    let value = if kind_at(t, p) != TokenType::Semicolon {
        let e = expression(t, p);
        Parsed {
            result: match e.result {
                Ok(x) => Ok(Some(x)),
                Err(m) => Err(m),
            },
            pos: e.pos,
        }
    } else {
        Parsed { result: Ok(None), pos: p }
    };
    match value.result {
        Err(_) => passed(value),
        Ok(v) => {
            let end = expect(
                t,
                value.pos,
                TokenType::Semicolon,
                "Expected ';' after return value"@,
            );
            match end.result {
                Err(_) => passed(end),
                Ok(_) => Parsed {
                    result: Ok(
                        StmtView::Return {
                            keyword: if p > 0 {
                                token_at(t, (p - 1) as nat)
                            } else {
                                end_token(0)
                            },
                            value: v,
                        },
                    ),
                    pos: end.pos,
                },
            }
        },
    }
}

/// A `break` statement. The word `break` has been read.
pub open spec fn break_statement(t: Seq<TokenView>, p: nat) -> Parsed<StmtView> {
    let end = expect(t, p, TokenType::Semicolon, "Expected ';' after break statement"@);
    match end.result {
        Err(_) => passed(end),
        Ok(_) => Parsed { result: Ok(StmtView::Break), pos: end.pos },
    }
}

/// What a `for` statement stands for: a block that holds the initializer, if
/// there is one, and a loop. The loop's condition is `true` where none is
/// written; its body is a block that holds the written body and, if there is
/// one, the increment as an expression statement.
pub open spec fn desugared(
    initializer: Option<StmtView>,
    condition: Option<ExprView>,
    increment: Option<ExprView>,
    body: StmtView,
) -> StmtView {
    let inner = StmtView::Block {
        statements: match increment {
            Some(e) => seq![body, StmtView::Expression { expression: e }],
            None => seq![body],
        },
    };
    let repeated = StmtView::While {
        condition: match condition {
            Some(c) => c,
            None => ExprView::Literal { value: ValueView::True },
        },
        body: Box::new(inner),
    };
    StmtView::Block {
        statements: match initializer {
            Some(i) => seq![i, repeated],
            None => seq![repeated],
        },
    }
}

/// The first clause of a `for` statement: nothing but `;`, a `let`
/// declaration, or an expression statement.
pub open spec fn for_initializer(t: Seq<TokenView>, p: nat) -> Parsed<Option<StmtView>>
    decreases remaining(t, p), 39nat,
{
    if kind_at(t, p) == TokenType::Semicolon {
        Parsed { result: Ok(None), pos: p + 1 }
    } else {
        let s = if kind_at(t, p) == TokenType::Let {
            let_declaration(t, p + 1)
        } else {
            expression_statement(t, p)
        };
        Parsed {
            result: match s.result {
                Ok(x) => Ok(Some(x)),
                Err(m) => Err(m),
            },
            pos: s.pos,
        }
    }
}

/// An expression, unless the token at `p` is of kind `closing`.
pub open spec fn optional_expression(t: Seq<TokenView>, p: nat, closing: TokenType) -> Parsed<
    Option<ExprView>,
>
    decreases remaining(t, p), 39nat,
{
    if kind_at(t, p) != closing {
        let e = expression(t, p);
        Parsed {
            result: match e.result {
                Ok(x) => Ok(Some(x)),
                Err(m) => Err(m),
            },
            pos: e.pos,
        }
    } else {
        Parsed { result: Ok(None), pos: p }
    }
}

/// A `for` statement. The keyword has been read.
pub open spec fn for_statement(t: Seq<TokenView>, p: nat) -> Parsed<StmtView>
    decreases remaining(t, p), 40nat,
{
    let open = expect(t, p, TokenType::LeftParen, "Expected '(' after for"@);
    match open.result {
        Err(_) => passed(open),
        Ok(_) => {
            let initializer = for_initializer(t, ahead(open.pos, p));
            match initializer.result {
                Err(_) => passed(initializer),
                Ok(i) => {
                    let condition = optional_expression(
                        t,
                        ahead(initializer.pos, p),
                        TokenType::Semicolon,
                    );
                    match condition.result {
                        Err(_) => passed(condition),
                        Ok(c) => {
                            let semicolon = expect(
                                t,
                                condition.pos,
                                TokenType::Semicolon,
                                "Expected ';' after for loop condition"@,
                            );
                            match semicolon.result {
                                Err(_) => passed(semicolon),
                                Ok(_) => {
                                    let increment = optional_expression(
                                        t,
                                        ahead(semicolon.pos, p + 1),
                                        TokenType::RightParen,
                                    );
                                    match increment.result {
                                        Err(_) => passed(increment),
                                        Ok(n) => {
                                            let close = expect(
                                                t,
                                                increment.pos,
                                                TokenType::RightParen,
                                                "Expected ')' after for loop clauses"@,
                                            );
                                            match close.result {
                                                Err(_) => passed(close),
                                                Ok(_) => {
                                                    let body = statement(
                                                        t,
                                                        ahead(close.pos, p + 1),
                                                    );
                                                    match body.result {
                                                        Err(_) => body,
                                                        Ok(b) => Parsed {
                                                            result: Ok(desugared(i, c, n, b)),
                                                            pos: body.pos,
                                                        },
                                                    }
                                                },
                                            }
                                        },
                                    }
                                },
                            }
                        },
                    }
                },
            }
        },
    }
}

/// A condition in parentheses. `p` is where the opening one must stand.
pub open spec fn condition(
    t: Seq<TokenView>,
    p: nat,
    opening: Seq<char>,
    closing: Seq<char>,
) -> Parsed<ExprView>
    decreases remaining(t, p), 39nat,
{
    let open = expect(t, p, TokenType::LeftParen, opening);
    match open.result {
        Err(_) => passed(open),
        Ok(_) => {
            let e = expression(t, ahead(open.pos, p));
            match e.result {
                Err(_) => e,
                Ok(c) => {
                    let close = expect(t, e.pos, TokenType::RightParen, closing);
                    match close.result {
                        Err(_) => passed(close),
                        Ok(_) => Parsed { result: Ok(c), pos: close.pos },
                    }
                },
            }
        },
    }
}

/// A `while` statement. The keyword has been read.
pub open spec fn while_statement(t: Seq<TokenView>, p: nat) -> Parsed<StmtView>
    decreases remaining(t, p), 40nat,
{
    let tested = condition(
        t,
        p,
        "Expected '(' after while"@,
        "Expected ')' after while loop condition"@,
    );
    match tested.result {
        Err(_) => passed(tested),
        Ok(c) => {
            let body = statement(t, ahead(tested.pos, p + 1));
            match body.result {
                Err(_) => body,
                Ok(b) => Parsed {
                    result: Ok(StmtView::While { condition: c, body: Box::new(b) }),
                    pos: body.pos,
                },
            }
        },
    }
}

/// An `if` statement. The keyword has been read.
pub open spec fn if_statement(t: Seq<TokenView>, p: nat) -> Parsed<StmtView>
    decreases remaining(t, p), 40nat,
{
    let tested = condition(t, p, "Expected '(' after 'if'"@, "Expected ')' after if predicate"@);
    match tested.result {
        Err(_) => passed(tested),
        Ok(c) => {
            let first = statement(t, ahead(tested.pos, p + 1));
            match first.result {
                Err(_) => first,
                Ok(a) => {
                    let q = ahead(first.pos, p + 1);
                    if kind_at(t, q) == TokenType::Else {
                        let second = statement(t, q + 1);
                        match second.result {
                            Err(_) => second,
                            Ok(b) => Parsed {
                                result: Ok(
                                    StmtView::If {
                                        predicate: c,
                                        then_branch: Box::new(a),
                                        otherwise: Some(Box::new(b)),
                                    },
                                ),
                                pos: second.pos,
                            },
                        }
                    } else {
                        Parsed {
                            result: Ok(
                                StmtView::If {
                                    predicate: c,
                                    then_branch: Box::new(a),
                                    otherwise: None,
                                },
                            ),
                            pos: q,
                        }
                    }
                },
            }
        },
    }
}

/// The declarations of a block and its closing brace. The opening one has
/// been read.
pub open spec fn block(t: Seq<TokenView>, p: nat) -> Parsed<Seq<StmtView>>
    decreases remaining(t, p), 37nat,
{
    block_rest(t, p, Seq::empty())
}

/// The declarations of a block that follow those of `list`, and the
/// closing brace.
pub open spec fn block_rest(t: Seq<TokenView>, p: nat, list: Seq<StmtView>) -> Parsed<
    Seq<StmtView>,
>
    decreases remaining(t, p), 36nat,
{
    if kind_at(t, p) != TokenType::RightBrace && !at_end(t, p) {
        let one = declaration(t, p);
        match one.result {
            Err(_) => passed(one),
            Ok(s) => block_rest(t, ahead(one.pos, p + 1), list.push(s)),
        }
    } else {
        let close = expect(t, p, TokenType::RightBrace, "Expected '}' after block"@);
        match close.result {
            Err(_) => passed(close),
            Ok(_) => Parsed { result: Ok(list), pos: close.pos },
        }
    }
}

/// A `print` statement. The keyword has been read.
pub open spec fn echo_statement(t: Seq<TokenView>, p: nat) -> Parsed<StmtView>
    decreases remaining(t, p), 38nat,
{
    let value = expression(t, p);
    match value.result {
        Err(_) => passed(value),
        Ok(e) => {
            let end = expect(t, value.pos, TokenType::Semicolon, "Expected ';' after value"@);
            match end.result {
                Err(_) => passed(end),
                Ok(_) => Parsed { result: Ok(StmtView::Echo { expression: e }), pos: end.pos },
            }
        },
    }
}

/// An expression and the `;` after it.
pub open spec fn expression_statement(t: Seq<TokenView>, p: nat) -> Parsed<StmtView>
    decreases remaining(t, p), 33nat,
{
    let value = expression(t, p);
    match value.result {
        Err(_) => passed(value),
        Ok(e) => {
            let end = expect(t, value.pos, TokenType::Semicolon, "Expected ';' after expression"@);
            match end.result {
                Err(_) => passed(end),
                Ok(_) => Parsed {
                    result: Ok(StmtView::Expression { expression: e }),
                    pos: end.pos,
                },
            }
        },
    }
}

/// Whether a statement can start with a token of this kind.
pub open spec fn starts_statement(kind: TokenType) -> bool {
    kind == TokenType::Class || kind == TokenType::Fn || kind == TokenType::Let || kind
        == TokenType::For || kind == TokenType::If || kind == TokenType::While || kind
        == TokenType::Print || kind == TokenType::Return
}

/// Where parsing resumes after an error at `p`: one token is passed, then
/// tokens are passed until the last one passed is a `;`, or the next one can
/// start a statement, or the end is reached.
pub open spec fn synchronized(t: Seq<TokenView>, p: nat) -> nat {
    skipped(t, step_over(t, p))
}

/// Where skipping from `p` stops.
pub open spec fn skipped(t: Seq<TokenView>, p: nat) -> nat
    decreases remaining(t, p),
{
    if at_end(t, p) {
        p
    } else if p > 0 && kind_at(t, (p - 1) as nat) == TokenType::Semicolon {
        p
    } else if starts_statement(kind_at(t, p)) {
        p
    } else {
        skipped(t, p + 1)
    }
}

/// What parsing a program has gathered.
pub struct Gathered {
    pub statements: Seq<StmtView>,
    pub errors: Seq<Seq<char>>,
}

/// Parses declarations from `p` to the end, adding to what was gathered.
/// After an error parsing resumes at the next statement.
pub open spec fn program(t: Seq<TokenView>, p: nat, gathered: Gathered) -> Gathered
    decreases remaining(t, p), 41nat,
{
    if at_end(t, p) {
        gathered
    } else {
        let one = declaration(t, p);
        match one.result {
            Ok(s) => program(
                t,
                ahead(one.pos, p + 1),
                Gathered { statements: gathered.statements.push(s), errors: gathered.errors },
            ),
            Err(m) => program(
                t,
                ahead(synchronized(t, one.pos), p + 1),
                Gathered { statements: gathered.statements, errors: gathered.errors.push(m) },
            ),
        }
    }
}

/// The messages, with a newline between one and the next.
pub open spec fn joined(messages: Seq<Seq<char>>) -> Seq<char>
    decreases messages.len(),
{
    if messages.len() == 0 {
        Seq::empty()
    } else if messages.len() == 1 {
        messages[0]
    } else {
        joined(messages.drop_last()) + "\n"@ + messages.last()
    }
}

/// The statements of the program that the tokens from `p` on hold; or, if
/// any declaration is malformed, every error message of the whole program.
pub open spec fn parsed_program(t: Seq<TokenView>, p: nat) -> Result<Seq<StmtView>, Seq<char>> {
    let done = program(t, p, Gathered { statements: Seq::empty(), errors: Seq::empty() });
    if done.errors.len() == 0 {
        Ok(done.statements)
    } else {
        Err(joined(done.errors))
    }
}

/// A parser over a token sequence.
pub struct Parser {
    tokens: Vec<Token>,
    current: usize,
}

/// The mathematical model of a parser: the tokens and the position of the
/// next one.
pub struct ParserView {
    pub tokens: Seq<TokenView>,
    pub current: nat,
}

impl View for Parser {
    type V = ParserView;

    closed spec fn view(&self) -> ParserView {
        ParserView { tokens: token_views(self.tokens@), current: self.current as nat }
    }
}

/// Whether `r` is the result that `parsed` holds.
pub open spec fn token_agrees(r: Result<Token, String>, parsed: Parsed<TokenView>) -> bool {
    match parsed.result {
        Ok(e) => r matches Ok(x) && x@ == e,
        Err(m) => r matches Err(x) && x@ == m,
    }
}

/// Whether `r` is the result that `parsed` holds.
pub open spec fn expr_agrees(r: Result<Expr, String>, parsed: Parsed<ExprView>) -> bool {
    match parsed.result {
        Ok(e) => r matches Ok(x) && x@ == e,
        Err(m) => r matches Err(x) && x@ == m,
    }
}

/// Whether `r` is the result that `parsed` holds.
pub open spec fn stmt_agrees(r: Result<Stmt, String>, parsed: Parsed<StmtView>) -> bool {
    match parsed.result {
        Ok(e) => r matches Ok(x) && x@ == e,
        Err(m) => r matches Err(x) && x@ == m,
    }
}

/// Whether `r` is the result that `parsed` holds.
pub open spec fn exprs_agree(r: Result<Vec<Expr>, String>, parsed: Parsed<Seq<ExprView>>) -> bool {
    match parsed.result {
        Ok(e) => r matches Ok(x) && expr_views(x@) == e,
        Err(m) => r matches Err(x) && x@ == m,
    }
}

/// Whether `r` is the result that `parsed` holds.
pub open spec fn tokens_agree(r: Result<Vec<Token>, String>, parsed: Parsed<Seq<TokenView>>) -> bool {
    match parsed.result {
        Ok(e) => r matches Ok(x) && token_views(x@) == e,
        Err(m) => r matches Err(x) && x@ == m,
    }
}

/// Whether `r` is the result that `parsed` holds.
pub open spec fn stmts_agree(
    r: Result<Vec<Box<Stmt>>, String>,
    parsed: Parsed<Seq<StmtView>>,
) -> bool {
    match parsed.result {
        Ok(e) => r matches Ok(x) && stmt_views(x@) == e,
        Err(m) => r matches Err(x) && x@ == m,
    }
}

/// Whether `r` is the result that `parsed` holds.
pub open spec fn optional_expr_agrees(
    r: Result<Option<Expr>, String>,
    parsed: Parsed<Option<ExprView>>,
) -> bool {
    match parsed.result {
        Ok(e) => r matches Ok(x) && optional_expr_view(x) == e,
        Err(m) => r matches Err(x) && x@ == m,
    }
}

/// Whether `r` is the result that `parsed` holds.
pub open spec fn optional_stmt_agrees(
    r: Result<Option<Stmt>, String>,
    parsed: Parsed<Option<StmtView>>,
) -> bool {
    match parsed.result {
        Ok(e) => r matches Ok(x) && optional_stmt_view(x) == e,
        Err(m) => r matches Err(x) && x@ == m,
    }
}

/// Skipping never goes back.
proof fn lemma_skipped_ahead(t: Seq<TokenView>, p: nat)
    ensures
        p <= skipped(t, p),
    decreases remaining(t, p),
{
    if !at_end(t, p) && !(p > 0 && kind_at(t, (p - 1) as nat) == TokenType::Semicolon)
        && !starts_statement(kind_at(t, p)) {
        lemma_skipped_ahead(t, p + 1);
    }
}

fn is_operator(level: usize, kind: TokenType) -> (r: bool)
    ensures
        r == operator_of(level as nat, kind),
{
    if level == 0 {
        kind == TokenType::Or
    } else if level == 1 {
        kind == TokenType::And
    } else if level == 2 {
        kind == TokenType::BangEqual || kind == TokenType::EqualEqual
    } else if level == 3 {
        kind == TokenType::Greater || kind == TokenType::GreaterEqual || kind == TokenType::Less
            || kind == TokenType::LessEqual
    } else if level == 4 {
        kind == TokenType::Minus || kind == TokenType::Plus
    } else {
        kind == TokenType::Slash || kind == TokenType::Star
    }
}

fn combine(level: usize, left: Expr, operator: Token, right: Expr) -> (e: Expr)
    ensures
        e@ == combined(level as nat, left@, operator@, right@),
{
    if level < 2 {
        Expr::Logical { left: Box::new(left), operator, right: Box::new(right) }
    } else {
        Expr::Binary { left: Box::new(left), operator, right: Box::new(right) }
    }
}

/// The model of an optional expression.
pub open spec fn optional_expr_view(e: Option<Expr>) -> Option<ExprView> {
    match e {
        Some(x) => Some(x@),
        None => None,
    }
}

/// The model of an optional statement.
pub open spec fn optional_stmt_view(s: Option<Stmt>) -> Option<StmtView> {
    match s {
        Some(x) => Some(x@),
        None => None,
    }
}

fn desugar(
    initializer: Option<Stmt>,
    condition: Option<Expr>,
    increment: Option<Expr>,
    body: Stmt,
) -> (s: Stmt)
    ensures
        s@ == desugared(
            optional_stmt_view(initializer),
            optional_expr_view(condition),
            optional_expr_view(increment),
            body@,
        ),
{
    let ghost b = body@;
    let mut inner: Vec<Box<Stmt>> = Vec::new();
    inner.push(Box::new(body));
    let ghost n = optional_expr_view(increment);
    match increment {
        Some(e) => {
            inner.push(Box::new(Stmt::Expression { expression: e }));
        },
        None => {},
    }
    proof {
        assert(stmt_views(inner@) =~= match n {
            Some(e) => seq![b, StmtView::Expression { expression: e }],
            None => seq![b],
        });
    }
    let inner_block = Stmt::Block { statements: inner };
    proof {
        lemma_list_view(inner_block);
    }
    let repeated = Stmt::While {
        condition: match condition {
            Some(c) => c,
            None => Expr::Literal { value: LiteralValue::True },
        },
        body: Box::new(inner_block),
    };
    let ghost r = repeated@;
    let ghost i = optional_stmt_view(initializer);
    let mut outer: Vec<Box<Stmt>> = Vec::new();
    match initializer {
        Some(init) => {
            outer.push(Box::new(init));
        },
        None => {},
    }
    outer.push(Box::new(repeated));
    proof {
        assert(stmt_views(outer@) =~= match i {
            Some(x) => seq![x, r],
            None => seq![r],
        });
    }
    let s = Stmt::Block { statements: outer };
    proof {
        lemma_list_view(s);
    }
    s
}

impl Parser {
    /// A parser at the first of `tokens`.
    pub fn new(tokens: Vec<Token>) -> (p: Parser)
        ensures
            p@ == (ParserView { tokens: token_views(tokens@), current: 0 }),
    {
        Parser { tokens, current: 0 }
    }

    /// Parses the tokens from the current position to the end. Returns the
    /// statements of the program, or, if any declaration is malformed, every
    /// error message of the whole program.
    pub fn parse(&mut self) -> (r: Result<Vec<Stmt>, String>)
        ensures
            final(self)@.tokens == old(self)@.tokens,
            match parsed_program(old(self)@.tokens, old(self)@.current) {
                Ok(statements) => r matches Ok(x) && Seq::new(x@.len(), |i: int| x@[i]@)
                    == statements,
                Err(message) => r matches Err(x) && x@ == message,
            },
    {
        let mut stmts: Vec<Stmt> = Vec::new();
        let mut errs: Vec<String> = Vec::new();
        let ghost t = self@.tokens;
        let ghost goal = program(
            t,
            self@.current,
            Gathered { statements: Seq::empty(), errors: Seq::empty() },
        );
        proof {
            assert(Seq::new(stmts@.len(), |i: int| stmts@[i]@) =~= Seq::<StmtView>::empty());
            assert(Seq::new(errs@.len(), |i: int| errs@[i]@) =~= Seq::<Seq<char>>::empty());
        }
        while !self.is_at_end()
            invariant
                self@.tokens == t,
                program(
                    t,
                    self@.current,
                    Gathered {
                        statements: Seq::new(stmts@.len(), |i: int| stmts@[i]@),
                        errors: Seq::new(errs@.len(), |i: int| errs@[i]@),
                    },
                ) == goal,
            decreases remaining(t, self@.current),
        {
            let ghost before = self@.current;
            let ghost had = Seq::new(stmts@.len(), |i: int| stmts@[i]@);
            let ghost failed = Seq::new(errs@.len(), |i: int| errs@[i]@);
            match self.declaration() {
                Ok(s) => {
                    stmts.push(s);
                    proof {
                        assert(Seq::new(stmts@.len(), |i: int| stmts@[i]@) =~= had.push(s@));
                    }
                },
                Err(message) => {
                    errs.push(message);
                    proof {
                        assert(Seq::new(errs@.len(), |i: int| errs@[i]@) =~= failed.push(
                            message@,
                        ));
                        lemma_skipped_ahead(t, step_over(t, self@.current));
                    }
                    self.synchronize();
                },
            }
        }
        if errs.len() == 0 {
            Ok(stmts)
        } else {
            let ghost messages = Seq::new(errs@.len(), |i: int| errs@[i]@);
            let mut text = errs[0].clone();
            let mut i: usize = 1;
            proof {
                assert(messages.take(1) =~= seq![messages[0]]);
            }
            while i < errs.len()
                invariant
                    1 <= i <= errs.len(),
                    messages == Seq::new(errs@.len(), |j: int| errs@[j]@),
                    text@ == joined(messages.take(i as int)),
                decreases errs.len() - i,
            {
                proof {
                    assert(messages.take(i + 1).drop_last() =~= messages.take(i as int));
                }
                text.append("\n");
                text.append(errs[i].as_str());
                i += 1;
            }
            proof {
                assert(messages.take(i as int) =~= messages);
            }
            Err(text)
        }
    }

    fn declaration(&mut self) -> (r: Result<Stmt, String>)
        ensures
            final(self)@.tokens == old(self)@.tokens,
            final(self)@.current == declaration(old(self)@.tokens, old(self)@.current).pos,
            stmt_agrees(r, declaration(old(self)@.tokens, old(self)@.current)),
            old(self)@.current <= final(self)@.current,
            r is Ok ==> old(self)@.current < final(self)@.current,
        decreases remaining(old(self)@.tokens, old(self)@.current), 35nat,
    {
        if self.match_token(TokenType::Let) {
            self.let_declaration()
        } else if self.match_token(TokenType::Fn) {
            self.function()
        } else {
            self.statement()
        }
    }

    fn function(&mut self) -> (r: Result<Stmt, String>)
        ensures
            final(self)@.tokens == old(self)@.tokens,
            final(self)@.current == function(old(self)@.tokens, old(self)@.current).pos,
            stmt_agrees(r, function(old(self)@.tokens, old(self)@.current)),
            old(self)@.current <= final(self)@.current,
            r is Ok ==> old(self)@.current < final(self)@.current,
        decreases remaining(old(self)@.tokens, old(self)@.current), 38nat,
    {
        let name = match self.consume(TokenType::Identifier, "Expected Function after name") {
            Ok(n) => n,
            Err(m) => {
                return Err(m);
            },
        };
        match self.consume(TokenType::LeftParen, "Expected '(' after Function name") {
            Ok(_) => {},
            Err(m) => {
                return Err(m);
            },
        }
        let params = if self.check(TokenType::RightParen) {
            let list: Vec<Token> = Vec::new();
            proof {
                assert(token_views(list@) =~= Seq::empty());
            }
            list
        } else {
            let list: Vec<Token> = Vec::new();
            proof {
                assert(token_views(list@) =~= Seq::empty());
            }
            match self.parameters(list) {
                Ok(p) => p,
                Err(m) => {
                    return Err(m);
                },
            }
        };
        match self.consume(TokenType::RightParen, "Expected ')' after parameters") {
            Ok(_) => {},
            Err(m) => {
                return Err(m);
            },
        }
        match self.consume(TokenType::LeftBrace, "Expected '{' before Function body") {
            Ok(_) => {},
            Err(m) => {
                return Err(m);
            },
        }
        let body = match self.block_statement() {
            Ok(b) => b,
            Err(m) => {
                return Err(m);
            },
        };
        let s = Stmt::Function { name, params, body };
        proof {
            lemma_list_view(s);
        }
        Ok(s)
    }

    fn parameters(&mut self, list: Vec<Token>) -> (r: Result<Vec<Token>, String>)
        ensures
            final(self)@.tokens == old(self)@.tokens,
            final(self)@.current == parameters(
                old(self)@.tokens,
                old(self)@.current,
                token_views(list@),
            ).pos,
            tokens_agree(
                r,
                parameters(old(self)@.tokens, old(self)@.current, token_views(list@)),
            ),
            old(self)@.current <= final(self)@.current,
        decreases remaining(old(self)@.tokens, old(self)@.current),
    {
        if list.len() >= MAX_ARGUMENTS {
            return Err(self.error("Can not have more than 255 function arguments"));
        }
        let name = match self.consume(TokenType::Identifier, "Expected parameter after name") {
            Ok(n) => n,
            Err(m) => {
                return Err(m);
            },
        };
        let mut list = list;
        let ghost before = token_views(list@);
        list.push(name);
        proof {
            assert(token_views(list@) =~= before.push(name@));
        }
        if self.match_token(TokenType::Comma) {
            self.parameters(list)
        } else {
            Ok(list)
        }
    }

    fn let_declaration(&mut self) -> (r: Result<Stmt, String>)
        ensures
            final(self)@.tokens == old(self)@.tokens,
            final(self)@.current == let_declaration(old(self)@.tokens, old(self)@.current).pos,
            stmt_agrees(r, let_declaration(old(self)@.tokens, old(self)@.current)),
            old(self)@.current <= final(self)@.current,
            r is Ok ==> old(self)@.current < final(self)@.current,
        decreases remaining(old(self)@.tokens, old(self)@.current), 38nat,
    {
        let name = match self.consume(TokenType::Identifier, "Expected variable name") {
            Ok(n) => n,
            Err(m) => {
                return Err(m);
            },
        };
        let initializer = if self.match_token(TokenType::Equal) {
            match self.expression() {
                Ok(e) => e,
                Err(m) => {
                    return Err(m);
                },
            }
        } else {
            Expr::Literal { value: LiteralValue::Null }
        };
        match self.consume(TokenType::Semicolon, "Expected ';' after variable declaration") {
            Ok(_) => {},
            Err(m) => {
                return Err(m);
            },
        }
        Ok(Stmt::Let { name, initializer })
    }

    fn statement(&mut self) -> (r: Result<Stmt, String>)
        ensures
            final(self)@.tokens == old(self)@.tokens,
            final(self)@.current == statement(old(self)@.tokens, old(self)@.current).pos,
            stmt_agrees(r, statement(old(self)@.tokens, old(self)@.current)),
            old(self)@.current <= final(self)@.current,
            r is Ok ==> old(self)@.current < final(self)@.current,
        decreases remaining(old(self)@.tokens, old(self)@.current), 34nat,
    {
        if self.at_break() {
            self.advance();
            self.break_statement()
        } else if self.match_token(TokenType::Print) {
            self.echo_statement()
        } else if self.match_token(TokenType::LeftBrace) {
            match self.block_statement() {
                Ok(statements) => {
                    let s = Stmt::Block { statements };
                    proof {
                        lemma_list_view(s);
                    }
                    Ok(s)
                },
                Err(m) => Err(m),
            }
        } else if self.match_token(TokenType::If) {
            self.if_statement()
        } else if self.match_token(TokenType::While) {
            self.while_statement()
        } else if self.match_token(TokenType::For) {
            self.for_statement()
        } else if self.match_token(TokenType::Return) {
            self.return_statement()
        } else {
            self.expression_statement()
        }
    }

    fn return_statement(&mut self) -> (r: Result<Stmt, String>)
        ensures
            final(self)@.tokens == old(self)@.tokens,
            final(self)@.current == return_statement(old(self)@.tokens, old(self)@.current).pos,
            stmt_agrees(r, return_statement(old(self)@.tokens, old(self)@.current)),
            old(self)@.current <= final(self)@.current,
            r is Ok ==> old(self)@.current < final(self)@.current,
        decreases remaining(old(self)@.tokens, old(self)@.current), 38nat,
    {
        let keyword = self.previous();
        let value = if !self.check(TokenType::Semicolon) {
            match self.expression() {
                Ok(e) => Some(e),
                Err(m) => {
                    return Err(m);
                },
            }
        } else {
            None
        };
        match self.consume(TokenType::Semicolon, "Expected ';' after return value") {
            Ok(_) => {},
            Err(m) => {
                return Err(m);
            },
        }
        Ok(Stmt::Return { keyword, value })
    }

    fn break_statement(&mut self) -> (r: Result<Stmt, String>)
        ensures
            final(self)@.tokens == old(self)@.tokens,
            final(self)@.current == break_statement(old(self)@.tokens, old(self)@.current).pos,
            stmt_agrees(r, break_statement(old(self)@.tokens, old(self)@.current)),
            old(self)@.current <= final(self)@.current,
            r is Ok ==> old(self)@.current < final(self)@.current,
    {
        match self.consume(TokenType::Semicolon, "Expected ';' after break statement") {
            Ok(_) => {},
            Err(m) => {
                return Err(m);
            },
        }
        Ok(Stmt::Break)
    }

    fn for_initializer(&mut self) -> (r: Result<Option<Stmt>, String>)
        ensures
            final(self)@.tokens == old(self)@.tokens,
            final(self)@.current == for_initializer(old(self)@.tokens, old(self)@.current).pos,
            optional_stmt_agrees(r, for_initializer(old(self)@.tokens, old(self)@.current)),
            old(self)@.current <= final(self)@.current,
            r is Ok ==> old(self)@.current < final(self)@.current,
        decreases remaining(old(self)@.tokens, old(self)@.current), 39nat,
    {
        if self.match_token(TokenType::Semicolon) {
            Ok(None)
        } else if self.match_token(TokenType::Let) {
            match self.let_declaration() {
                Ok(s) => Ok(Some(s)),
                Err(m) => Err(m),
            }
        } else {
            match self.expression_statement() {
                Ok(s) => Ok(Some(s)),
                Err(m) => Err(m),
            }
        }
    }

    fn optional_expression(&mut self, closing: TokenType) -> (r: Result<Option<Expr>, String>)
        ensures
            final(self)@.tokens == old(self)@.tokens,
            final(self)@.current == optional_expression(
                old(self)@.tokens,
                old(self)@.current,
                closing,
            ).pos,
            optional_expr_agrees(
                r,
                optional_expression(old(self)@.tokens, old(self)@.current, closing),
            ),
            old(self)@.current <= final(self)@.current,
        decreases remaining(old(self)@.tokens, old(self)@.current), 39nat,
    {
        if !self.check(closing) {
            match self.expression() {
                Ok(e) => Ok(Some(e)),
                Err(m) => Err(m),
            }
        } else {
            Ok(None)
        }
    }

    fn for_statement(&mut self) -> (r: Result<Stmt, String>)
        ensures
            final(self)@.tokens == old(self)@.tokens,
            final(self)@.current == for_statement(old(self)@.tokens, old(self)@.current).pos,
            stmt_agrees(r, for_statement(old(self)@.tokens, old(self)@.current)),
            old(self)@.current <= final(self)@.current,
            r is Ok ==> old(self)@.current < final(self)@.current,
        decreases remaining(old(self)@.tokens, old(self)@.current), 40nat,
    {
        match self.consume(TokenType::LeftParen, "Expected '(' after for") {
            Ok(_) => {},
            Err(m) => {
                return Err(m);
            },
        }
        let initializer = match self.for_initializer() {
            Ok(i) => i,
            Err(m) => {
                return Err(m);
            },
        };
        let condition = match self.optional_expression(TokenType::Semicolon) {
            Ok(c) => c,
            Err(m) => {
                return Err(m);
            },
        };
        match self.consume(TokenType::Semicolon, "Expected ';' after for loop condition") {
            Ok(_) => {},
            Err(m) => {
                return Err(m);
            },
        }
        let increment = match self.optional_expression(TokenType::RightParen) {
            Ok(n) => n,
            Err(m) => {
                return Err(m);
            },
        };
        match self.consume(TokenType::RightParen, "Expected ')' after for loop clauses") {
            Ok(_) => {},
            Err(m) => {
                return Err(m);
            },
        }
        let body = match self.statement() {
            Ok(b) => b,
            Err(m) => {
                return Err(m);
            },
        };
        Ok(desugar(initializer, condition, increment, body))
    }

    fn condition(&mut self, opening: &str, closing: &str) -> (r: Result<Expr, String>)
        ensures
            final(self)@.tokens == old(self)@.tokens,
            final(self)@.current == condition(
                old(self)@.tokens,
                old(self)@.current,
                opening@,
                closing@,
            ).pos,
            expr_agrees(r, condition(old(self)@.tokens, old(self)@.current, opening@, closing@)),
            old(self)@.current <= final(self)@.current,
            r is Ok ==> old(self)@.current < final(self)@.current,
        decreases remaining(old(self)@.tokens, old(self)@.current), 39nat,
    {
        match self.consume(TokenType::LeftParen, opening) {
            Ok(_) => {},
            Err(m) => {
                return Err(m);
            },
        }
        let e = match self.expression() {
            Ok(e) => e,
            Err(m) => {
                return Err(m);
            },
        };
        match self.consume(TokenType::RightParen, closing) {
            Ok(_) => {},
            Err(m) => {
                return Err(m);
            },
        }
        Ok(e)
    }

    fn while_statement(&mut self) -> (r: Result<Stmt, String>)
        ensures
            final(self)@.tokens == old(self)@.tokens,
            final(self)@.current == while_statement(old(self)@.tokens, old(self)@.current).pos,
            stmt_agrees(r, while_statement(old(self)@.tokens, old(self)@.current)),
            old(self)@.current <= final(self)@.current,
            r is Ok ==> old(self)@.current < final(self)@.current,
        decreases remaining(old(self)@.tokens, old(self)@.current), 40nat,
    {
        let condition = match self.condition(
            "Expected '(' after while",
            "Expected ')' after while loop condition",
        ) {
            Ok(c) => c,
            Err(m) => {
                return Err(m);
            },
        };
        let body = match self.statement() {
            Ok(b) => b,
            Err(m) => {
                return Err(m);
            },
        };
        Ok(Stmt::While { condition, body: Box::new(body) })
    }

    fn if_statement(&mut self) -> (r: Result<Stmt, String>)
        ensures
            final(self)@.tokens == old(self)@.tokens,
            final(self)@.current == if_statement(old(self)@.tokens, old(self)@.current).pos,
            stmt_agrees(r, if_statement(old(self)@.tokens, old(self)@.current)),
            old(self)@.current <= final(self)@.current,
            r is Ok ==> old(self)@.current < final(self)@.current,
        decreases remaining(old(self)@.tokens, old(self)@.current), 40nat,
    {
        let predicate = match self.condition(
            "Expected '(' after 'if'",
            "Expected ')' after if predicate",
        ) {
            Ok(c) => c,
            Err(m) => {
                return Err(m);
            },
        };
        let first = match self.statement() {
            Ok(b) => b,
            Err(m) => {
                return Err(m);
            },
        };
        let otherwise = if self.match_token(TokenType::Else) {
            match self.statement() {
                Ok(b) => Some(Box::new(b)),
                Err(m) => {
                    return Err(m);
                },
            }
        } else {
            None
        };
        Ok(Stmt::If { predicate, then_branch: Box::new(first), otherwise })
    }

    fn block_statement(&mut self) -> (r: Result<Vec<Box<Stmt>>, String>)
        ensures
            final(self)@.tokens == old(self)@.tokens,
            final(self)@.current == block(old(self)@.tokens, old(self)@.current).pos,
            stmts_agree(r, block(old(self)@.tokens, old(self)@.current)),
            old(self)@.current <= final(self)@.current,
            r is Ok ==> old(self)@.current < final(self)@.current,
        decreases remaining(old(self)@.tokens, old(self)@.current), 37nat,
    {
        let mut statements: Vec<Box<Stmt>> = Vec::new();
        let ghost t = self@.tokens;
        let ghost start = self@.current;
        proof {
            assert(stmt_views(statements@) =~= Seq::empty());
        }
        while !self.check(TokenType::RightBrace) && !self.is_at_end()
            invariant
                self@.tokens == t,
                start <= self@.current,
                block_rest(t, self@.current, stmt_views(statements@)) == block(t, start),
                t == old(self)@.tokens,
                start == old(self)@.current,
            decreases remaining(t, self@.current),
        {
            let ghost had = stmt_views(statements@);
            match self.declaration() {
                Ok(s) => {
                    statements.push(Box::new(s));
                    proof {
                        assert(stmt_views(statements@) =~= had.push(s@));
                    }
                },
                Err(m) => {
                    return Err(m);
                },
            }
        }
        match self.consume(TokenType::RightBrace, "Expected '}' after block") {
            Ok(_) => {},
            Err(m) => {
                return Err(m);
            },
        }
        Ok(statements)
    }

    fn echo_statement(&mut self) -> (r: Result<Stmt, String>)
        ensures
            final(self)@.tokens == old(self)@.tokens,
            final(self)@.current == echo_statement(old(self)@.tokens, old(self)@.current).pos,
            stmt_agrees(r, echo_statement(old(self)@.tokens, old(self)@.current)),
            old(self)@.current <= final(self)@.current,
            r is Ok ==> old(self)@.current < final(self)@.current,
        decreases remaining(old(self)@.tokens, old(self)@.current), 38nat,
    {
        let value = match self.expression() {
            Ok(e) => e,
            Err(m) => {
                return Err(m);
            },
        };
        match self.consume(TokenType::Semicolon, "Expected ';' after value") {
            Ok(_) => {},
            Err(m) => {
                return Err(m);
            },
        }
        Ok(Stmt::Echo { expression: value })
    }

    fn expression_statement(&mut self) -> (r: Result<Stmt, String>)
        ensures
            final(self)@.tokens == old(self)@.tokens,
            final(self)@.current == expression_statement(
                old(self)@.tokens,
                old(self)@.current,
            ).pos,
            stmt_agrees(r, expression_statement(old(self)@.tokens, old(self)@.current)),
            old(self)@.current <= final(self)@.current,
            r is Ok ==> old(self)@.current < final(self)@.current,
        decreases remaining(old(self)@.tokens, old(self)@.current), 33nat,
    {
        let value = match self.expression() {
            Ok(e) => e,
            Err(m) => {
                return Err(m);
            },
        };
        match self.consume(TokenType::Semicolon, "Expected ';' after expression") {
            Ok(_) => {},
            Err(m) => {
                return Err(m);
            },
        }
        Ok(Stmt::Expression { expression: value })
    }

    fn expression(&mut self) -> (r: Result<Expr, String>)
        ensures
            final(self)@.tokens == old(self)@.tokens,
            final(self)@.current == expression(old(self)@.tokens, old(self)@.current).pos,
            expr_agrees(r, expression(old(self)@.tokens, old(self)@.current)),
            old(self)@.current <= final(self)@.current,
            r is Ok ==> old(self)@.current < final(self)@.current,
        decreases remaining(old(self)@.tokens, old(self)@.current), 30nat,
    {
        self.assignment()
    }

    fn assignment(&mut self) -> (r: Result<Expr, String>)
        ensures
            final(self)@.tokens == old(self)@.tokens,
            final(self)@.current == assignment(old(self)@.tokens, old(self)@.current).pos,
            expr_agrees(r, assignment(old(self)@.tokens, old(self)@.current)),
            old(self)@.current <= final(self)@.current,
            r is Ok ==> old(self)@.current < final(self)@.current,
        decreases remaining(old(self)@.tokens, old(self)@.current), 29nat,
    {
        let expr = match self.or() {
            Ok(e) => e,
            Err(m) => {
                return Err(m);
            },
        };
        if self.match_token(TokenType::Equal) {
            let value = match self.expression() {
                Ok(v) => v,
                Err(m) => {
                    return Err(m);
                },
            };
            match expr {
                Expr::Variable { name } => Ok(Expr::Assign { name, value: Box::new(value) }),
                _ => Err(self.error("Invalid assignment target")),
            }
        } else {
            Ok(expr)
        }
    }

    fn or(&mut self) -> (r: Result<Expr, String>)
        ensures
            final(self)@.tokens == old(self)@.tokens,
            final(self)@.current == tier(old(self)@.tokens, old(self)@.current, 0).pos,
            expr_agrees(r, tier(old(self)@.tokens, old(self)@.current, 0)),
            old(self)@.current <= final(self)@.current,
            r is Ok ==> old(self)@.current < final(self)@.current,
        decreases remaining(old(self)@.tokens, old(self)@.current), 28nat, 1nat,
    {
        self.tier(0)
    }

    /// The binary tier `level`: `or`, `and`, equality, comparison, term,
    /// factor, from 0 to 5.
    fn tier(&mut self, level: usize) -> (r: Result<Expr, String>)
        ensures
            final(self)@.tokens == old(self)@.tokens,
            final(self)@.current == tier(old(self)@.tokens, old(self)@.current, level as nat).pos,
            expr_agrees(r, tier(old(self)@.tokens, old(self)@.current, level as nat)),
            old(self)@.current <= final(self)@.current,
            r is Ok ==> old(self)@.current < final(self)@.current,
        decreases remaining(old(self)@.tokens, old(self)@.current), tier_rank(level as nat), 0nat,
    {
        let first = if level >= 5 {
            self.unary()
        } else {
            self.tier(level + 1)
        };
        match first {
            Ok(e) => self.tier_rest(level, e),
            Err(m) => Err(m),
        }
    }

    fn tier_rest(&mut self, level: usize, left: Expr) -> (r: Result<Expr, String>)
        ensures
            final(self)@.tokens == old(self)@.tokens,
            final(self)@.current == tier_rest(
                old(self)@.tokens,
                old(self)@.current,
                level as nat,
                left@,
            ).pos,
            expr_agrees(r, tier_rest(old(self)@.tokens, old(self)@.current, level as nat, left@)),
            old(self)@.current <= final(self)@.current,
        decreases
                remaining(old(self)@.tokens, old(self)@.current),
                (tier_rank(level as nat) - 1) as nat,
                0nat,
    {
        if is_operator(level, self.kind()) {
            let operator = self.peek();
            self.advance();
            let operand = if level >= 5 {
                self.unary()
            } else {
                self.tier(level + 1)
            };
            match operand {
                Ok(right) => {
                    let e = combine(level, left, operator, right);
                    self.tier_rest(level, e)
                },
                Err(m) => Err(m),
            }
        } else {
            Ok(left)
        }
    }

    fn unary(&mut self) -> (r: Result<Expr, String>)
        ensures
            final(self)@.tokens == old(self)@.tokens,
            final(self)@.current == unary(old(self)@.tokens, old(self)@.current).pos,
            expr_agrees(r, unary(old(self)@.tokens, old(self)@.current)),
            old(self)@.current <= final(self)@.current,
            r is Ok ==> old(self)@.current < final(self)@.current,
        decreases remaining(old(self)@.tokens, old(self)@.current), 10nat, 0nat,
    {
        let kind = self.kind();
        if kind == TokenType::Bang || kind == TokenType::Minus {
            let operator = self.peek();
            self.advance();
            match self.unary() {
                Ok(right) => Ok(Expr::Unary { operator, right: Box::new(right) }),
                Err(m) => Err(m),
            }
        } else {
            self.call()
        }
    }

    fn call(&mut self) -> (r: Result<Expr, String>)
        ensures
            final(self)@.tokens == old(self)@.tokens,
            final(self)@.current == call(old(self)@.tokens, old(self)@.current).pos,
            expr_agrees(r, call(old(self)@.tokens, old(self)@.current)),
            old(self)@.current <= final(self)@.current,
            r is Ok ==> old(self)@.current < final(self)@.current,
        decreases remaining(old(self)@.tokens, old(self)@.current), 9nat, 0nat,
    {
        match self.primary() {
            Ok(e) => self.call_rest(e),
            Err(m) => Err(m),
        }
    }

    fn call_rest(&mut self, callee: Expr) -> (r: Result<Expr, String>)
        ensures
            final(self)@.tokens == old(self)@.tokens,
            final(self)@.current == call_rest(old(self)@.tokens, old(self)@.current, callee@).pos,
            expr_agrees(r, call_rest(old(self)@.tokens, old(self)@.current, callee@)),
            old(self)@.current <= final(self)@.current,
        decreases remaining(old(self)@.tokens, old(self)@.current), 8nat, 0nat,
    {
        if self.match_token(TokenType::LeftParen) {
            match self.finish_call(callee) {
                Ok(e) => self.call_rest(e),
                Err(m) => Err(m),
            }
        } else {
            Ok(callee)
        }
    }

    fn finish_call(&mut self, callee: Expr) -> (r: Result<Expr, String>)
        ensures
            final(self)@.tokens == old(self)@.tokens,
            final(self)@.current == finish_call(
                old(self)@.tokens,
                old(self)@.current,
                callee@,
            ).pos,
            expr_agrees(r, finish_call(old(self)@.tokens, old(self)@.current, callee@)),
            old(self)@.current <= final(self)@.current,
            r is Ok ==> old(self)@.current < final(self)@.current,
        decreases remaining(old(self)@.tokens, old(self)@.current), 32nat, 0nat,
    {
        let arguments = if self.check(TokenType::RightParen) {
            let list: Vec<Expr> = Vec::new();
            proof {
                assert(expr_views(list@) =~= Seq::empty());
            }
            list
        } else {
            let list: Vec<Expr> = Vec::new();
            proof {
                assert(expr_views(list@) =~= Seq::empty());
            }
            match self.arguments(list) {
                Ok(a) => a,
                Err(m) => {
                    return Err(m);
                },
            }
        };
        let paren = match self.consume(TokenType::RightParen, "Expected ')' after arguments") {
            Ok(p) => p,
            Err(m) => {
                return Err(m);
            },
        };
        let e = Expr::Call { callee: Box::new(callee), paren, arguments };
        proof {
            lemma_call_view(e);
        }
        Ok(e)
    }

    fn arguments(&mut self, list: Vec<Expr>) -> (r: Result<Vec<Expr>, String>)
        ensures
            final(self)@.tokens == old(self)@.tokens,
            final(self)@.current == arguments(
                old(self)@.tokens,
                old(self)@.current,
                expr_views(list@),
            ).pos,
            exprs_agree(r, arguments(old(self)@.tokens, old(self)@.current, expr_views(list@))),
            old(self)@.current <= final(self)@.current,
        decreases remaining(old(self)@.tokens, old(self)@.current), 31nat, 0nat,
    {
        let one = match self.expression() {
            Ok(e) => e,
            Err(m) => {
                return Err(m);
            },
        };
        if list.len() >= MAX_ARGUMENTS {
            return Err(self.error("Can not have more than 255 function arguments"));
        }
        let mut list = list;
        let ghost before = expr_views(list@);
        list.push(one);
        proof {
            assert(expr_views(list@) =~= before.push(one@));
        }
        if self.match_token(TokenType::Comma) {
            self.arguments(list)
        } else {
            Ok(list)
        }
    }

    fn primary(&mut self) -> (r: Result<Expr, String>)
        ensures
            final(self)@.tokens == old(self)@.tokens,
            final(self)@.current == primary(old(self)@.tokens, old(self)@.current).pos,
            expr_agrees(r, primary(old(self)@.tokens, old(self)@.current)),
            old(self)@.current <= final(self)@.current,
            r is Ok ==> old(self)@.current < final(self)@.current,
        decreases remaining(old(self)@.tokens, old(self)@.current), 7nat, 0nat,
    {
        let token = self.peek();
        match token.token_type {
            TokenType::LeftParen => {
                self.advance();
                let e = match self.expression() {
                    Ok(e) => e,
                    Err(m) => {
                        return Err(m);
                    },
                };
                match self.consume(TokenType::RightParen, "Expected ')'") {
                    Ok(_) => {},
                    Err(m) => {
                        return Err(m);
                    },
                }
                Ok(Expr::Grouping { expression: Box::new(e) })
            },
            TokenType::True | TokenType::False | TokenType::Null | TokenType::Number
            | TokenType::StringLit => {
                let carries = match token.token_type {
                    TokenType::Number => match &token.literal {
                        Some(crate::tokenizer::LiteralValue::FValue(_)) => true,
                        _ => false,
                    },
                    TokenType::StringLit => match &token.literal {
                        Some(crate::tokenizer::LiteralValue::StringValue(_)) => true,
                        _ => false,
                    },
                    _ => true,
                };
                if carries {
                    self.advance();
                    Ok(Expr::Literal { value: LiteralValue::from_token(token) })
                } else {
                    Err(self.error("Expected a value for the literal"))
                }
            },
            TokenType::Identifier => {
                self.advance();
                Ok(Expr::Variable { name: token })
            },
            _ => Err(self.error("Expected expression")),
        }
    }

    /// The message, tagged with the line of the next token.
    fn error(&self, message: &str) -> (s: String)
        ensures
            s@ == error_at(self@.tokens, self@.current, message@),
    {
        let line = if self.current < self.tokens.len() {
            self.tokens[self.current].line_number
        } else {
            0
        };
        let mut s = String::from_str("line: ");
        s.append(decimal(line).as_str());
        s.append(", ");
        s.append(message);
        s
    }

    /// Reads the next token if it is of `kind`, else fails with `message`.
    fn consume(&mut self, kind: TokenType, message: &str) -> (r: Result<Token, String>)
        ensures
            final(self)@.tokens == old(self)@.tokens,
            final(self)@.current == expect(
                old(self)@.tokens,
                old(self)@.current,
                kind,
                message@,
            ).pos,
            token_agrees(r, expect(old(self)@.tokens, old(self)@.current, kind, message@)),
            old(self)@.current <= final(self)@.current,
            r is Ok && kind != TokenType::Eof ==> old(self)@.current + 1 == final(self)@.current,
    {
        if self.kind() == kind {
            let token = self.peek();
            self.advance();
            Ok(token)
        } else {
            Err(self.error(message))
        }
    }

    fn check(&self, kind: TokenType) -> (r: bool)
        ensures
            r == (kind_at(self@.tokens, self@.current) == kind),
    {
        self.kind() == kind
    }

    /// Reads the next token if it is of `kind`.
    fn match_token(&mut self, kind: TokenType) -> (r: bool)
        ensures
            final(self)@.tokens == old(self)@.tokens,
            r == (kind_at(old(self)@.tokens, old(self)@.current) == kind && kind
                != TokenType::Eof),
            final(self)@.current == if r {
                old(self)@.current + 1
            } else {
                old(self)@.current
            },
            r ==> old(self)@.current < old(self)@.tokens.len(),
    {
        if self.is_at_end() {
            false
        } else if self.kind() == kind {
            self.advance();
            true
        } else {
            false
        }
    }

    /// Whether a break statement starts with the next token.
    fn at_break(&self) -> (r: bool)
        ensures
            r == starts_break(token_at(self@.tokens, self@.current)),
    {
        self.current < self.tokens.len() && self.tokens[self.current].token_type
            == TokenType::Identifier && same_text(self.tokens[self.current].lexeme.as_str(), "break")
    }

    /// Passes the next token, unless it is the end token.
    fn advance(&mut self)
        ensures
            final(self)@.tokens == old(self)@.tokens,
            final(self)@.current == step_over(old(self)@.tokens, old(self)@.current),
    {
        if !self.is_at_end() {
            assert(self.current < self.tokens.len());
            self.current += 1;
        }
    }

    /// The kind of the next token.
    fn kind(&self) -> (r: TokenType)
        ensures
            r == kind_at(self@.tokens, self@.current),
    {
        if self.current < self.tokens.len() {
            self.tokens[self.current].token_type
        } else {
            TokenType::Eof
        }
    }

    /// A copy of the next token.
    fn peek(&self) -> (r: Token)
        ensures
            r@ == token_at(self@.tokens, self@.current),
    {
        if self.current < self.tokens.len() {
            self.tokens[self.current].clone()
        } else {
            Token { token_type: TokenType::Eof, lexeme: String::new(), literal: None, line_number: 0 }
        }
    }

    /// A copy of the token before the next one.
    fn previous(&self) -> (r: Token)
        ensures
            r@ == if self@.current > 0 {
                token_at(self@.tokens, (self@.current - 1) as nat)
            } else {
                end_token(0)
            },
    {
        if self.current > 0 && self.current - 1 < self.tokens.len() {
            self.tokens[self.current - 1].clone()
        } else {
            Token { token_type: TokenType::Eof, lexeme: String::new(), literal: None, line_number: 0 }
        }
    }

    fn is_at_end(&self) -> (r: bool)
        ensures
            r == at_end(self@.tokens, self@.current),
    {
        self.kind() == TokenType::Eof
    }

    /// Moves to where parsing resumes after an error.
    fn synchronize(&mut self)
        ensures
            final(self)@.tokens == old(self)@.tokens,
            final(self)@.current == synchronized(old(self)@.tokens, old(self)@.current),
    {
        self.advance();
        while !self.is_at_end()
            invariant
                self@.tokens == old(self)@.tokens,
                skipped(self@.tokens, self@.current) == synchronized(
                    old(self)@.tokens,
                    old(self)@.current,
                ),
            decreases remaining(self@.tokens, self@.current),
        {
            if self.current > 0 && self.tokens[self.current - 1].token_type
                == TokenType::Semicolon {
                return ;
            }
            let kind = self.kind();
            if kind == TokenType::Class || kind == TokenType::Fn || kind == TokenType::Let || kind
                == TokenType::For || kind == TokenType::If || kind == TokenType::While || kind
                == TokenType::Print || kind == TokenType::Return {
                return ;
            }
            self.advance();
        }
    }
}

} // verus!
