//! Runtime values and expressions.

use crate::number::{number_eq, Number, NumberView};
use crate::text::{decimal, decimal_text};
use crate::tokenizer;
use crate::tokenizer::{Token, TokenType, TokenView};
use vstd::prelude::*;

verus! {

/// The functions that every root scope holds.
#[derive(Debug, Clone, Copy, PartialEq, Eq, Structural)]
pub enum Native {
    Time,
    Print,
    Println,
    Exit,
}

/// What a callable value runs when it is called: a native function, or the
/// closure that a function declaration recorded, by its handle.
#[derive(Debug, Clone, Copy, PartialEq, Eq, Structural)]
pub enum Callee {
    Native(Native),
    Closure(usize),
}

/// A runtime value.
#[derive(Debug)]
pub enum LiteralValue {
    Number(Number),
    StringValue(String),
    True,
    False,
    Null,
    Callable { name: String, arity: usize, fn_: Callee },
}

/// The mathematical model of a runtime value.
pub enum ValueView {
    Number(NumberView),
    StringValue(Seq<char>),
    True,
    False,
    Null,
    Callable { name: Seq<char>, arity: nat, fn_: Callee },
}

impl View for LiteralValue {
    type V = ValueView;

    open spec fn view(&self) -> ValueView {
        match self {
            LiteralValue::Number(n) => ValueView::Number(n@),
            LiteralValue::StringValue(s) => ValueView::StringValue(s@),
            LiteralValue::True => ValueView::True,
            LiteralValue::False => ValueView::False,
            LiteralValue::Null => ValueView::Null,
            LiteralValue::Callable { name, arity, fn_ } => ValueView::Callable {
                name: name@,
                arity: *arity as nat,
                fn_: *fn_,
            },
        }
    }
}

/// The models of a sequence of values.
pub open spec fn value_views(values: Seq<LiteralValue>) -> Seq<ValueView> {
    Seq::new(values.len(), |i: int| values[i]@)
}

impl ValueView {
    /// Whether conditionals take the value for true: every number but zero,
    /// every string but the empty one, `true`, every callable.
    pub open spec fn truthy(self) -> bool {
        match self {
            ValueView::Number(n) => !crate::number::is_zero(n.bits),
            ValueView::StringValue(s) => s.len() > 0,
            ValueView::True => true,
            ValueView::False => false,
            ValueView::Null => false,
            ValueView::Callable { .. } => true,
        }
    }

    /// Equality of values: by variant; numbers as IEEE equates them, callables
    /// by name and arity alone.
    pub open spec fn equals(self, other: ValueView) -> bool {
        match (self, other) {
            (ValueView::Number(x), ValueView::Number(y)) => number_eq(x.bits, y.bits),
            (
                ValueView::Callable { name, arity, .. },
                ValueView::Callable { name: name2, arity: arity2, .. },
            ) => name == name2 && arity == arity2,
            (ValueView::StringValue(s1), ValueView::StringValue(s2)) => s1 == s2,
            (ValueView::True, ValueView::True) => true,
            (ValueView::False, ValueView::False) => true,
            (ValueView::Null, ValueView::Null) => true,
            _ => false,
        }
    }

    /// The text that printing shows for the value.
    pub open spec fn text(self) -> Seq<char> {
        match self {
            ValueView::Number(n) => n.text,
            ValueView::StringValue(s) => s,
            ValueView::True => "true"@,
            ValueView::False => "false"@,
            ValueView::Null => "null"@,
            ValueView::Callable { name, arity, .. } => name + "/"@ + decimal_text(arity),
        }
    }

    /// The name of the value's type.
    pub open spec fn type_text(self) -> Seq<char> {
        match self {
            ValueView::Number(_) => "Number"@,
            ValueView::StringValue(_) => "String"@,
            ValueView::True => "Boolean"@,
            ValueView::False => "Boolean"@,
            ValueView::Null => "Null"@,
            ValueView::Callable { .. } => "Callable"@,
        }
    }

    /// `True` for `true`, `False` for `false`.
    pub open spec fn from_bool(b: bool) -> ValueView {
        if b {
            ValueView::True
        } else {
            ValueView::False
        }
    }
}

/// Whether a token stands for a literal value and carries what the value needs.
pub open spec fn literal_token(token: TokenView) -> bool {
    match token.token_type {
        TokenType::Number => token.literal matches Some(tokenizer::LiteralView::FValue(_)),
        TokenType::StringLit => token.literal matches Some(tokenizer::LiteralView::StringValue(_)),
        TokenType::True => true,
        TokenType::False => true,
        TokenType::Null => true,
        _ => false,
    }
}

/// The value that a literal token stands for.
pub open spec fn token_value(token: TokenView) -> ValueView {
    match token.token_type {
        TokenType::Number => match token.literal {
            Some(tokenizer::LiteralView::FValue(n)) => ValueView::Number(n),
            _ => ValueView::Null,
        },
        TokenType::StringLit => match token.literal {
            Some(tokenizer::LiteralView::StringValue(s)) => ValueView::StringValue(s),
            _ => ValueView::Null,
        },
        TokenType::True => ValueView::True,
        TokenType::False => ValueView::False,
        _ => ValueView::Null,
    }
}

fn unwrap_as_number(literal: &Option<tokenizer::LiteralValue>) -> (n: Number)
    requires
        literal matches Some(tokenizer::LiteralValue::FValue(_)),
    ensures
        literal matches Some(tokenizer::LiteralValue::FValue(x)) && n == x,
{
    match literal {
        Some(tokenizer::LiteralValue::FValue(x)) => x.copy(),
        _ => Number::new(0, String::new()),
    }
}

fn unwrap_as_string(literal: &Option<tokenizer::LiteralValue>) -> (s: String)
    requires
        literal matches Some(tokenizer::LiteralValue::StringValue(_)),
    ensures
        literal matches Some(tokenizer::LiteralValue::StringValue(x)) && s == x,
{
    match literal {
        Some(tokenizer::LiteralValue::StringValue(x)) => x.clone(),
        _ => String::new(),
    }
}

impl LiteralValue {
    /// A copy of the value.
    pub fn copy(&self) -> (r: LiteralValue)
        ensures
            r == *self,
    {
        match self {
            LiteralValue::Number(n) => LiteralValue::Number(n.copy()),
            LiteralValue::StringValue(s) => LiteralValue::StringValue(s.clone()),
            LiteralValue::True => LiteralValue::True,
            LiteralValue::False => LiteralValue::False,
            LiteralValue::Null => LiteralValue::Null,
            LiteralValue::Callable { name, arity, fn_ } => LiteralValue::Callable {
                name: name.clone(),
                arity: *arity,
                fn_: *fn_,
            },
        }
    }

    /// The text that printing shows for the value.
    pub fn to_string(&self) -> (s: String)
        ensures
            s@ == self@.text(),
    {
        match self {
            LiteralValue::Number(x) => x.text.clone(),
            LiteralValue::StringValue(s) => s.clone(),
            LiteralValue::True => String::from_str("true"),
            LiteralValue::False => String::from_str("false"),
            LiteralValue::Null => String::from_str("null"),
            LiteralValue::Callable { name, arity, .. } => {
                let mut s = name.clone();
                s.append("/");
                s.append(decimal(*arity).as_str());
                s
            },
        }
    }

    /// The name of the value's type.
    pub fn to_type(&self) -> (s: &'static str)
        ensures
            s@ == self@.type_text(),
    {
        match self {
            LiteralValue::Number(_) => "Number",
            LiteralValue::StringValue(_) => "String",
            LiteralValue::True => "Boolean",
            LiteralValue::False => "Boolean",
            LiteralValue::Null => "Null",
            LiteralValue::Callable { .. } => "Callable",
        }
    }

    /// The value that a literal token stands for.
    pub fn from_token(token: Token) -> (r: LiteralValue)
        requires
            literal_token(token@),
        ensures
            r@ == token_value(token@),
    {
        match token.token_type {
            TokenType::Number => LiteralValue::Number(unwrap_as_number(&token.literal)),
            TokenType::StringLit => LiteralValue::StringValue(unwrap_as_string(&token.literal)),
            TokenType::True => LiteralValue::True,
            TokenType::False => LiteralValue::False,
            _ => LiteralValue::Null,
        }
    }

    /// Whether conditionals take the value for true.
    pub fn truthy(&self) -> (b: bool)
        ensures
            b == self@.truthy(),
    {
        match self {
            LiteralValue::Number(x) => !x.is_zero(),
            LiteralValue::StringValue(s) => !s.as_str().is_empty(),
            LiteralValue::True => true,
            LiteralValue::False => false,
            LiteralValue::Null => false,
            LiteralValue::Callable { .. } => true,
        }
    }

    /// `True` where the value counts as false, `False` where it counts as true.
    pub fn is_falsy(&self) -> (r: LiteralValue)
        ensures
            r@ == ValueView::from_bool(!self@.truthy()),
    {
        LiteralValue::from_bool(!self.truthy())
    }

    /// `True` where the value counts as true, `False` where it counts as false.
    pub fn is_truthy(&self) -> (r: LiteralValue)
        ensures
            r@ == ValueView::from_bool(self@.truthy()),
    {
        LiteralValue::from_bool(self.truthy())
    }

    /// `True` for `true`, `False` for `false`.
    pub fn from_bool(b: bool) -> (r: LiteralValue)
        ensures
            r@ == ValueView::from_bool(b),
    {
        if b {
            LiteralValue::True
        } else {
            LiteralValue::False
        }
    }

    /// Equality of values.
    pub fn equals(&self, other: &LiteralValue) -> (r: bool)
        ensures
            r == self@.equals(other@),
    {
        match (self, other) {
            (LiteralValue::Number(x), LiteralValue::Number(y)) => x.equals(y),
            (
                LiteralValue::Callable { name, arity, .. },
                LiteralValue::Callable { name: name2, arity: arity2, .. },
            ) => *name == *name2 && *arity == *arity2,
            (LiteralValue::StringValue(s1), LiteralValue::StringValue(s2)) => *s1 == *s2,
            (LiteralValue::True, LiteralValue::True) => true,
            (LiteralValue::False, LiteralValue::False) => true,
            (LiteralValue::Null, LiteralValue::Null) => true,
            _ => false,
        }
    }
}

impl PartialEq for LiteralValue {
    fn eq(&self, other: &LiteralValue) -> (r: bool) {
        self.equals(other)
    }
}

impl vstd::std_specs::cmp::PartialEqSpecImpl for LiteralValue {
    open spec fn obeys_eq_spec() -> bool {
        true
    }

    open spec fn eq_spec(&self, other: &LiteralValue) -> bool {
        self@.equals(other@)
    }
}

/// An expression: what produces a value.
#[derive(Debug)]
#[allow(inconsistent_fields)]
pub enum Expr {
    Binary { left: Box<Expr>, operator: Token, right: Box<Expr> },
    Grouping { expression: Box<Expr> },
    Call { callee: Box<Expr>, paren: Token, arguments: Vec<Expr> },
    Literal { value: LiteralValue },
    Logical { left: Box<Expr>, operator: Token, right: Box<Expr> },
    Unary { operator: Token, right: Box<Expr> },
    Variable { name: Token },
    Assign { name: Token, value: Box<Expr> },
}

/// The mathematical model of an expression.
#[allow(inconsistent_fields)]
pub enum ExprView {
    Binary { left: Box<ExprView>, operator: TokenView, right: Box<ExprView> },
    Grouping { expression: Box<ExprView> },
    Call { callee: Box<ExprView>, paren: TokenView, arguments: Seq<ExprView> },
    Literal { value: ValueView },
    Logical { left: Box<ExprView>, operator: TokenView, right: Box<ExprView> },
    Unary { operator: TokenView, right: Box<ExprView> },
    Variable { name: TokenView },
    Assign { name: TokenView, value: Box<ExprView> },
}

impl Expr {
    /// The model of the expression.
    pub open spec fn model(&self) -> ExprView
        decreases self,
    {
        match self {
            Expr::Binary { left, operator, right } => ExprView::Binary {
                left: Box::new(left.model()),
                operator: operator@,
                right: Box::new(right.model()),
            },
            Expr::Grouping { expression } => ExprView::Grouping {
                expression: Box::new(expression.model()),
            },
            Expr::Call { callee, paren, arguments } => ExprView::Call {
                callee: Box::new(callee.model()),
                paren: paren@,
                arguments: Seq::new(
                    arguments.len() as nat,
                    |i: int|
                        if 0 <= i < arguments.len() {
                            arguments[i].model()
                        } else {
                            arbitrary()
                        },
                ),
            },
            Expr::Literal { value } => ExprView::Literal { value: value@ },
            Expr::Logical { left, operator, right } => ExprView::Logical {
                left: Box::new(left.model()),
                operator: operator@,
                right: Box::new(right.model()),
            },
            Expr::Unary { operator, right } => ExprView::Unary {
                operator: operator@,
                right: Box::new(right.model()),
            },
            Expr::Variable { name } => ExprView::Variable { name: name@ },
            Expr::Assign { name, value } => ExprView::Assign {
                name: name@,
                value: Box::new(value.model()),
            },
        }
    }
}

impl View for Expr {
    type V = ExprView;

    open spec fn view(&self) -> ExprView {
        self.model()
    }
}

/// The models of a sequence of expressions.
pub open spec fn expr_views(exprs: Seq<Expr>) -> Seq<ExprView> {
    Seq::new(exprs.len(), |i: int| exprs[i]@)
}

/// The model of a call holds the models of its arguments.
pub proof fn lemma_call_view(e: Expr)
    ensures
        e matches Expr::Call { callee, paren, arguments } ==> e@ == (ExprView::Call {
            callee: Box::new(callee@),
            paren: paren@,
            arguments: expr_views(arguments@),
        }),
{
    match e {
        Expr::Call { callee, paren, arguments } => {
            assert(e@->Call_arguments =~= expr_views(arguments@));
        },
        _ => {},
    }
}

/// The printed form of the first `n` expressions of a list, separated by
/// commas.
pub open spec fn list_text(exprs: Seq<ExprView>, n: nat) -> Seq<char>
    decreases exprs, n,
{
    if n == 0 || n > exprs.len() {
        Seq::empty()
    } else if n == 1 {
        expr_text(exprs[0])
    } else {
        list_text(exprs, (n - 1) as nat) + ", "@ + expr_text(exprs[n - 1])
    }
}

/// The printed form of an expression: prefix notation in parentheses.
pub open spec fn expr_text(e: ExprView) -> Seq<char>
    decreases e,
{
    match e {
        ExprView::Binary { left, operator, right } => "("@ + operator.lexeme + " "@ + expr_text(
            *left,
        ) + " "@ + expr_text(*right) + ")"@,
        ExprView::Call { callee, paren, arguments } => "("@ + expr_text(*callee) + " ["@
            + list_text(arguments, arguments.len()) + "])"@,
        ExprView::Grouping { expression } => "(group "@ + expr_text(*expression) + ")"@,
        ExprView::Literal { value } => value.text(),
        ExprView::Logical { left, operator, right } => "("@ + operator.lexeme + " "@ + expr_text(
            *left,
        ) + " "@ + expr_text(*right) + ")"@,
        ExprView::Unary { operator, right } => "("@ + operator.lexeme + " "@ + expr_text(*right)
            + ")"@,
        ExprView::Variable { name } => "var "@ + name.lexeme,
        ExprView::Assign { name, value } => name.lexeme + " = "@ + expr_text(*value),
    }
}

impl Expr {
    /// The printed form of the expression.
    pub fn to_string(&self) -> (s: String)
        ensures
            s@ == expr_text(self@),
        decreases self,
    {
        match self {
            Expr::Binary { left, operator, right } => {
                let mut s = String::from_str("(");
                s.append(operator.lexeme.as_str());
                s.append(" ");
                s.append(left.to_string().as_str());
                s.append(" ");
                s.append(right.to_string().as_str());
                s.append(")");
                s
            },
            Expr::Call { callee, paren: _, arguments } => {
                let mut s = String::from_str("(");
                s.append(callee.to_string().as_str());
                s.append(" [");
                let mut i: usize = 0;
                let ghost head = s@;
                let ghost models = self@->Call_arguments;
                while i < arguments.len()
                    invariant
                        i <= arguments.len(),
                        models.len() == arguments.len(),
                        forall|j: int| 0 <= j < arguments.len() ==> models[j] == arguments[j]@,
                        forall|j: int|
                            0 <= j < arguments.len() ==> decreases_to!(self => arguments[j]),
                        s@ == head + list_text(models, i as nat),
                    decreases arguments.len() - i,
                {
                    if i > 0 {
                        s.append(", ");
                    }
                    s.append(arguments[i].to_string().as_str());
                    i += 1;
                }
                s.append("])");
                s
            },
            Expr::Grouping { expression } => {
                let mut s = String::from_str("(group ");
                s.append(expression.to_string().as_str());
                s.append(")");
                s
            },
            Expr::Literal { value } => value.to_string(),
            Expr::Logical { left, operator, right } => {
                let mut s = String::from_str("(");
                s.append(operator.lexeme.as_str());
                s.append(" ");
                s.append(left.to_string().as_str());
                s.append(" ");
                s.append(right.to_string().as_str());
                s.append(")");
                s
            },
            Expr::Unary { operator, right } => {
                let mut s = String::from_str("(");
                s.append(operator.lexeme.as_str());
                s.append(" ");
                s.append(right.to_string().as_str());
                s.append(")");
                s
            },
            Expr::Variable { name } => {
                let mut s = String::from_str("var ");
                s.append(name.lexeme.as_str());
                s
            },
            Expr::Assign { name, value } => {
                let mut s = name.lexeme.clone();
                s.append(" = ");
                s.append(value.to_string().as_str());
                s
            },
        }
    }
}

} // verus!
