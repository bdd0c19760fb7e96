//! From source text to statements: scanning, then the values of the number
//! tokens, then parsing.
//!
//! The value of a number token is a double, which the embedding program
//! makes of the token's text. `numerals` hands the texts out, in the order of
//! the tokens; `load` takes the values back in the same order.

use crate::number::{Number, NumberView};
use crate::parser::{parsed_program, Parser};
use crate::stmt::{Stmt, StmtView};
use crate::tokenizer::{
    token_views, tokens_of, LiteralView, Token, TokenType, TokenView, Tokenizer,
};
use vstd::prelude::*;

verus! {

/// How many of the first `i` tokens are numbers.
pub open spec fn numbers_before(tokens: Seq<TokenView>, i: int) -> nat
    decreases i,
{
    if i <= 0 || i > tokens.len() {
        0
    } else {
        numbers_before(tokens, i - 1) + if tokens[i - 1].token_type == TokenType::Number {
            1nat
        } else {
            0nat
        }
    }
}

/// The texts of the numbers among the first `n` tokens, in order.
pub open spec fn numerals_of(tokens: Seq<TokenView>, n: int) -> Seq<Seq<char>>
    decreases n,
{
    if n <= 0 || n > tokens.len() {
        Seq::empty()
    } else if tokens[n - 1].token_type == TokenType::Number {
        numerals_of(tokens, n - 1).push(tokens[n - 1].lexeme)
    } else {
        numerals_of(tokens, n - 1)
    }
}

/// The token at `i` with its value: the number token that has `k` number
/// tokens before it carries `values[k]`. A number token for which no value
/// is left, and a token of another kind, stay as they are.
pub open spec fn valued(tokens: Seq<TokenView>, values: Seq<NumberView>, i: int) -> TokenView {
    if tokens[i].token_type == TokenType::Number && numbers_before(tokens, i) < values.len() {
        TokenView {
            literal: Some(LiteralView::FValue(values[numbers_before(tokens, i) as int])),
            ..tokens[i]
        }
    } else {
        tokens[i]
    }
}

/// The tokens with the values of their numbers, given in order.
pub open spec fn with_values(tokens: Seq<TokenView>, values: Seq<NumberView>) -> Seq<TokenView> {
    Seq::new(tokens.len(), |i: int| valued(tokens, values, i))
}

/// The models of a sequence of numbers.
pub open spec fn number_views(values: Seq<Number>) -> Seq<NumberView> {
    Seq::new(values.len(), |i: int| values[i]@)
}

/// The texts of a sequence of strings.
pub open spec fn texts(strings: Seq<String>) -> Seq<Seq<char>> {
    Seq::new(strings.len(), |i: int| strings[i]@)
}

/// The models of a sequence of statements.
pub open spec fn statement_views(statements: Seq<Stmt>) -> Seq<StmtView> {
    Seq::new(statements.len(), |i: int| statements[i]@)
}

/// The texts of the number tokens of `source`, in order; or every error
/// message of the scan.
pub open spec fn numerals_in(source: Seq<char>) -> Result<Seq<Seq<char>>, Seq<char>> {
    match tokens_of(source) {
        Ok(tokens) => Ok(numerals_of(tokens, tokens.len() as int)),
        Err(message) => Err(message),
    }
}

/// The statements of `source`, whose number tokens carry `values` in order.
/// An error of the scan comes before any of the parser: if anything could
/// not be scanned, nothing is parsed.
pub open spec fn loaded(source: Seq<char>, values: Seq<NumberView>) -> Result<
    Seq<StmtView>,
    Seq<char>,
> {
    match tokens_of(source) {
        Ok(tokens) => parsed_program(with_values(tokens, values), 0),
        Err(message) => Err(message),
    }
}

/// The texts of the number tokens among `tokens`, in order.
pub fn numeral_texts(tokens: &Vec<Token>) -> (r: Vec<String>)
    ensures
        texts(r@) == numerals_of(token_views(tokens@), tokens.len() as int),
{
    let mut r: Vec<String> = Vec::new();
    let mut i: usize = 0;
    proof {
        assert(texts(r@) =~= Seq::empty());
    }
    while i < tokens.len()
        invariant
            i <= tokens.len(),
            texts(r@) == numerals_of(token_views(tokens@), i as int),
        decreases tokens.len() - i,
    {
        let ghost before = texts(r@);
        if tokens[i].token_type == TokenType::Number {
            r.push(tokens[i].lexeme.clone());
            proof {
                assert(texts(r@) =~= before.push(tokens[i as int].lexeme@));
            }
        }
        i += 1;
    }
    r
}

/// Gives the number tokens among `tokens` their values, in order.
pub fn attach_values(tokens: &mut Vec<Token>, values: &Vec<Number>)
    ensures
        token_views(final(tokens)@) == with_values(token_views(old(tokens)@), number_views(values@)),
{
    let ghost start = token_views(tokens@);
    let ghost given = number_views(values@);
    let mut i: usize = 0;
    let mut k: usize = 0;
    while i < tokens.len()
        invariant
            i <= tokens.len(),
            tokens.len() == start.len(),
            given == number_views(values@),
            k == numbers_before(start, i as int),
            k <= i,
            forall|j: int| 0 <= j < i ==> (#[trigger] tokens[j])@ == valued(start, given, j),
            forall|j: int| i <= j < tokens.len() ==> (#[trigger] tokens[j])@ == start[j],
        decreases tokens.len() - i,
    {
        if tokens[i].token_type == TokenType::Number {
            if k < values.len() {
                tokens[i].attach(values[k].copy());
            }
            k += 1;
        }
        i += 1;
    }
    proof {
        assert(token_views(tokens@) =~= with_values(start, given));
    }
}

/// The texts of the number tokens of `source`, in order; or every error
/// message of the scan.
pub fn numerals(source: &str) -> (r: Result<Vec<String>, String>)
    ensures
        match numerals_in(source@) {
            Ok(found) => r matches Ok(x) && texts(x@) == found,
            Err(message) => r matches Err(x) && x@ == message,
        },
{
    let mut tokenizer = Tokenizer::new(source);
    match tokenizer.tokenize() {
        Ok(tokens) => Ok(numeral_texts(&tokens)),
        Err(message) => Err(message),
    }
}

/// Scans `source`, gives its number tokens the values of `values` in order,
/// and parses the tokens. Returns the statements; or every error message of
/// the scan; or, if the scan found none, every error message of the parser.
pub fn load(source: &str, values: &Vec<Number>) -> (r: Result<Vec<Stmt>, String>)
    ensures
        match loaded(source@, number_views(values@)) {
            Ok(statements) => r matches Ok(x) && statement_views(x@) == statements,
            Err(message) => r matches Err(x) && x@ == message,
        },
{
    let mut tokenizer = Tokenizer::new(source);
    match tokenizer.tokenize() {
        Ok(tokens) => {
            let mut tokens = tokens;
            attach_values(&mut tokens, values);
            let mut parser = Parser::new(tokens);
            parser.parse()
        },
        Err(message) => Err(message),
    }
}

} // verus!
