//! The evaluator: a machine that executes statements one step at a time.
//!
//! The machine owns the scopes, the closures that function declarations
//! recorded, a stack of frames (what is still to be done, innermost last) and
//! a control register (what is being done now). A step transforms that state
//! and returns an action. Whatever needs the world outside (writing a line,
//! the clock, arithmetic on double-precision numbers, ending the process) is
//! handed to the embedding program as an action; the program answers with an
//! event and calls the next step.
//!
//! Statement lists unwind through the control register: `Break` and `Return`
//! are states of it, under which a step removes one frame, until the frame
//! of the nearest loop, or of the nearest call, is reached.
//!
//! Programs start in the root scope, whose handle is 0. A block, each run of
//! a loop's body and each call run in a scope of their own, which is left
//! when they end: it is released then, unless a closure has captured it or a
//! scope that is still there was made after it.

use crate::environment::{
    assigned, captured, defined, extended, is_tree, lemma_assigned_shape, lemma_defined_shape,
    lemma_extended_shape, lemma_trimmed_shape, lookup, released, resolve, root, trimmed,
    Environment, ScopeView,
};
use crate::expr::{expr_views, Callee, Expr, ExprView, LiteralValue, Native, ValueView, value_views};
use crate::number::{number_le, number_lt, Number, NumberView};
use crate::stmt::{stmt_views, Stmt, StmtView};
use crate::text::{decimal, decimal_text, text_less, text_lt};
use crate::tokenizer::{kind_name, token_views, Token, TokenType, TokenView};
use vstd::prelude::*;

verus! {

/// What a function declaration recorded: the parameters, the body, and the
/// scope that was current when the declaration ran.
pub struct Closure<'a> {
    params: &'a Vec<Token>,
    body: &'a Vec<Box<Stmt>>,
    scope: usize,
}

/// The mathematical model of a closure.
pub struct ClosureView {
    pub params: Seq<TokenView>,
    pub body: Seq<StmtView>,
    pub scope: nat,
}

impl<'a> View for Closure<'a> {
    type V = ClosureView;

    closed spec fn view(&self) -> ClosureView {
        ClosureView {
            params: token_views(self.params@),
            body: stmt_views(self.body@),
            scope: self.scope as nat,
        }
    }
}

/// What the machine asks of the embedding program and waits for.
#[derive(Debug)]
pub enum Request {
    /// The result of `left operator right`, where the operator is one of
    /// `Plus`, `Minus`, `Star`, `Slash`.
    Arith { operator: TokenType, left: Number, right: Number },
    /// The operand with its sign changed.
    Negate { operand: Number },
    /// The Unix time in seconds, to the millisecond.
    Time,
}

/// The mathematical model of a request.
pub enum RequestView {
    Arith { operator: TokenType, left: NumberView, right: NumberView },
    Negate { operand: NumberView },
    Time,
}

impl View for Request {
    type V = RequestView;

    open spec fn view(&self) -> RequestView {
        match self {
            Request::Arith { operator, left, right } => RequestView::Arith {
                operator: *operator,
                left: left@,
                right: right@,
            },
            Request::Negate { operand } => RequestView::Negate { operand: operand@ },
            Request::Time => RequestView::Time,
        }
    }
}

impl Request {
    /// A copy of the request.
    pub fn copy(&self) -> (r: Request)
        ensures
            r == *self,
    {
        match self {
            Request::Arith { operator, left, right } => Request::Arith {
                operator: *operator,
                left: left.copy(),
                right: right.copy(),
            },
            Request::Negate { operand } => Request::Negate { operand: operand.copy() },
            Request::Time => Request::Time,
        }
    }
}

/// What a step hands to the embedding program.
#[derive(Debug)]
pub enum Action {
    /// Nothing: call the next step.
    Continue,
    /// The program has run to its end.
    Done,
    /// A runtime error ended the program.
    Failed(String),
    /// Write the text, and a newline after it if `newline` is set.
    Write { text: String, newline: bool },
    /// Answer the request with `Event::Number`.
    Ask(Request),
    /// End the process with this value as its exit code.
    Exit(LiteralValue),
}

/// The mathematical model of an action.
pub enum ActionView {
    Continue,
    Done,
    Failed(Seq<char>),
    Write { text: Seq<char>, newline: bool },
    Ask(RequestView),
    Exit(ValueView),
}

impl View for Action {
    type V = ActionView;

    open spec fn view(&self) -> ActionView {
        match self {
            Action::Continue => ActionView::Continue,
            Action::Done => ActionView::Done,
            Action::Failed(message) => ActionView::Failed(message@),
            Action::Write { text, newline } => ActionView::Write { text: text@, newline: *newline },
            Action::Ask(request) => ActionView::Ask(request@),
            Action::Exit(code) => ActionView::Exit(code@),
        }
    }
}

/// What the embedding program hands to a step.
#[derive(Debug)]
pub enum Event {
    /// Nothing: go on.
    Resume,
    /// The answer to a request.
    Number(Number),
}

/// The mathematical model of an event.
pub enum EventView {
    Resume,
    Number(NumberView),
}

impl View for Event {
    type V = EventView;

    open spec fn view(&self) -> EventView {
        match self {
            Event::Resume => EventView::Resume,
            Event::Number(n) => EventView::Number(n@),
        }
    }
}

/// What is still to be done once the value of what runs now is delivered.
#[allow(inconsistent_fields)]
pub enum Frame<'a> {
    /// The statements of a program, from `next` on.
    Program { statements: Vec<&'a Stmt>, next: usize },
    /// The statements of a block or of a function body, from `next` on.
    List { statements: &'a Vec<Box<Stmt>>, next: usize },
    /// The end of a block: `scope` becomes the current scope again.
    Leave { scope: usize },
    /// A loop whose body runs: test the condition again.
    Loop { condition: &'a Expr, body: &'a Stmt },
    /// A loop whose condition is evaluated: run the body if it holds.
    Test { condition: &'a Expr, body: &'a Stmt },
    /// The boundary of a call: `scope` is the caller's current scope.
    Call { scope: usize },
    /// Print the value and a newline.
    Echo,
    /// Bind the name to the value in the current scope.
    Bind { name: &'a Token },
    /// Run one branch, as the value decides.
    Branch { then_branch: &'a Stmt, otherwise: &'a Option<Box<Stmt>> },
    /// Return the value from the call.
    Return,
    /// Assign the value to the name.
    Assign { name: &'a Token },
    /// Apply the unary operator to the value.
    Unary { operator: &'a Token },
    /// The value is the left operand: evaluate the right one.
    Left { operator: &'a Token, right: &'a Expr },
    /// The value is the right operand: apply the operator.
    Right { operator: &'a Token, left: LiteralValue },
    /// The value is the left operand of `and` or `or`.
    Logical { operator: &'a Token, right: &'a Expr },
    /// The value is what is called: check it, then evaluate the arguments.
    Callee { arguments: &'a Vec<Expr> },
    /// The value is the next argument.
    Arguments { callee: LiteralValue, arguments: &'a Vec<Expr>, values: Vec<LiteralValue> },
}

/// The mathematical model of a frame.
pub enum FrameView {
    Program { statements: Seq<StmtView>, next: nat },
    List { statements: Seq<StmtView>, next: nat },
    Leave { scope: nat },
    Loop { condition: ExprView, body: StmtView },
    Test { condition: ExprView, body: StmtView },
    Call { scope: nat },
    Echo,
    Bind { name: TokenView },
    Branch { then_branch: StmtView, otherwise: Option<StmtView> },
    Return,
    Assign { name: TokenView },
    Unary { operator: TokenView },
    Left { operator: TokenView, right: ExprView },
    Right { operator: TokenView, left: ValueView },
    Logical { operator: TokenView, right: ExprView },
    Callee { arguments: Seq<ExprView> },
    Arguments { callee: ValueView, arguments: Seq<ExprView>, values: Seq<ValueView> },
}

/// The models of the statements that a list of references leads to.
pub open spec fn program_views(statements: Seq<&Stmt>) -> Seq<StmtView> {
    Seq::new(statements.len(), |i: int| statements[i]@)
}

impl<'a> View for Frame<'a> {
    type V = FrameView;

    open spec fn view(&self) -> FrameView {
        match self {
            Frame::Program { statements, next } => FrameView::Program {
                statements: program_views(statements@),
                next: *next as nat,
            },
            Frame::List { statements, next } => FrameView::List {
                statements: stmt_views(statements@),
                next: *next as nat,
            },
            Frame::Leave { scope } => FrameView::Leave { scope: *scope as nat },
            Frame::Loop { condition, body } => FrameView::Loop {
                condition: condition@,
                body: body@,
            },
            Frame::Test { condition, body } => FrameView::Test {
                condition: condition@,
                body: body@,
            },
            Frame::Call { scope } => FrameView::Call { scope: *scope as nat },
            Frame::Echo => FrameView::Echo,
            Frame::Bind { name } => FrameView::Bind { name: name@ },
            Frame::Branch { then_branch, otherwise } => FrameView::Branch {
                then_branch: then_branch@,
                otherwise: match otherwise {
                    Some(s) => Some(s@),
                    None => None,
                },
            },
            Frame::Return => FrameView::Return,
            Frame::Assign { name } => FrameView::Assign { name: name@ },
            Frame::Unary { operator } => FrameView::Unary { operator: operator@ },
            Frame::Left { operator, right } => FrameView::Left {
                operator: operator@,
                right: right@,
            },
            Frame::Right { operator, left } => FrameView::Right {
                operator: operator@,
                left: left@,
            },
            Frame::Logical { operator, right } => FrameView::Logical {
                operator: operator@,
                right: right@,
            },
            Frame::Callee { arguments } => FrameView::Callee { arguments: expr_views(arguments@) },
            Frame::Arguments { callee, arguments, values } => FrameView::Arguments {
                callee: callee@,
                arguments: expr_views(arguments@),
                values: value_views(values@),
            },
        }
    }
}

/// What the machine is doing now.
pub enum Control<'a> {
    /// Evaluating an expression.
    Eval(&'a Expr),
    /// Executing a statement.
    Exec(&'a Stmt),
    /// Delivering a value to the innermost frame. A statement delivers `Null`.
    Deliver(LiteralValue),
    /// Unwinding to the nearest loop.
    Break,
    /// Unwinding to the nearest call with its result.
    Return(LiteralValue),
    /// Waiting for the answer to a request.
    Await(Request),
}

/// The mathematical model of the control register.
pub enum ControlView {
    Eval(ExprView),
    Exec(StmtView),
    Deliver(ValueView),
    Break,
    Return(ValueView),
    Await(RequestView),
}

impl<'a> View for Control<'a> {
    type V = ControlView;

    open spec fn view(&self) -> ControlView {
        match self {
            Control::Eval(e) => ControlView::Eval(e@),
            Control::Exec(s) => ControlView::Exec(s@),
            Control::Deliver(v) => ControlView::Deliver(v@),
            Control::Break => ControlView::Break,
            Control::Return(v) => ControlView::Return(v@),
            Control::Await(r) => ControlView::Await(r@),
        }
    }
}

/// The mathematical model of the machine.
pub struct InterpreterView {
    /// The current scope.
    pub environment: nat,
    pub scopes: Seq<ScopeView>,
    pub closures: Seq<ClosureView>,
    /// What is still to be done, innermost last.
    pub frames: Seq<FrameView>,
    pub control: ControlView,
}

/// The message of a read or write of a name that no scope binds.
pub open spec fn undeclared_message(name: Seq<char>) -> Seq<char> {
    name + " was not declared in this scope"@
}

/// The message of an operator applied to operands that it does not take. It
/// names the operator and the types of both operands.
pub open spec fn operands_message(operator: TokenType, left: ValueView, right: ValueView) -> Seq<
    char,
> {
    "Binary operator "@ + kind_name(operator) + " cannot be applied for operands "@
        + left.type_text() + ", "@ + right.type_text()
}

/// The message of a call with the wrong number of arguments.
pub open spec fn arity_message(name: Seq<char>, arity: nat, given: nat) -> Seq<char> {
    "Callable "@ + name + " expected "@ + decimal_text(arity) + " arguments but "@ + decimal_text(
        given,
    ) + " were given"@
}

/// The scopes after the first `n` parameters are bound to the first `n`
/// values in `scope`.
pub open spec fn bound(
    scopes: Seq<ScopeView>,
    scope: nat,
    params: Seq<TokenView>,
    values: Seq<ValueView>,
    n: nat,
) -> Seq<ScopeView>
    decreases n,
{
    if n == 0 || n > params.len() || n > values.len() {
        scopes
    } else {
        defined(
            bound(scopes, scope, params, values, (n - 1) as nat),
            scope,
            params[n - 1].lexeme,
            values[n - 1],
        )
    }
}

/// The smaller of two lengths.
pub open spec fn least(a: nat, b: nat) -> nat {
    if a <= b {
        a
    } else {
        b
    }
}

/// The root scope with the native functions in it.
pub open spec fn globals() -> Seq<ScopeView> {
    let bare = seq![root()];
    let a = defined(bare, 0, "time"@, native_value("time"@, 0, Native::Time));
    let b = defined(a, 0, "print"@, native_value("print"@, 1, Native::Print));
    let c = defined(b, 0, "println"@, native_value("println"@, 1, Native::Println));
    defined(c, 0, "exit"@, native_value("exit"@, 1, Native::Exit))
}

/// The callable value of a native function.
pub open spec fn native_value(name: Seq<char>, arity: nat, native: Native) -> ValueView {
    ValueView::Callable { name, arity, fn_: Callee::Native(native) }
}

impl InterpreterView {
    /// A machine that has run nothing yet.
    pub open spec fn fresh() -> InterpreterView {
        InterpreterView {
            environment: 0,
            scopes: globals(),
            closures: Seq::empty(),
            frames: Seq::empty(),
            control: ControlView::Deliver(ValueView::Null),
        }
    }

    /// The machine about to run `statements` in the root scope. What it was
    /// doing is dropped, and the scopes it was in are left.
    pub open spec fn loaded(self, statements: Seq<StmtView>) -> InterpreterView {
        InterpreterView {
            environment: 0,
            scopes: trimmed(self.scopes),
            frames: seq![FrameView::Program { statements, next: 0 }],
            control: ControlView::Deliver(ValueView::Null),
            ..self
        }
    }

    /// The machine inside a new scope, enclosed by the scope that was
    /// current, which the new frame gives back.
    pub open spec fn nested(self) -> InterpreterView {
        InterpreterView {
            environment: self.scopes.len(),
            scopes: extended(self.scopes, self.environment),
            frames: self.frames.push(FrameView::Leave { scope: self.environment }),
            ..self
        }
    }

    /// The machine after the current scope is left for `scope`: the scope
    /// that is left is released if it can be.
    pub open spec fn left(self, scope: nat) -> InterpreterView {
        InterpreterView {
            environment: scope,
            scopes: if scope < self.environment {
                released(self.scopes, self.environment)
            } else {
                self.scopes
            },
            ..self
        }
    }

    /// The machine about to evaluate `e` in the current scope. What it was
    /// doing is dropped.
    pub open spec fn evaluating(self, e: ExprView) -> InterpreterView {
        InterpreterView { frames: Seq::empty(), control: ControlView::Eval(e), ..self }
    }

    /// The value that the machine has arrived at, when nothing is left to
    /// do. After a program it is `Null`.
    pub open spec fn value(self) -> Option<ValueView> {
        if self.frames.len() == 0 {
            match self.control {
                ControlView::Deliver(v) => Some(v),
                _ => None,
            }
        } else {
            None
        }
    }

    /// The machine inside a call whose scope is a new one, enclosed by
    /// `parent`.
    pub open spec fn entered(self, parent: nat) -> InterpreterView {
        InterpreterView {
            environment: self.scopes.len(),
            scopes: extended(self.scopes, parent),
            frames: self.frames.push(FrameView::Call { scope: self.environment }),
            ..self
        }
    }

    /// The machine with nothing left to do, back in the root scope. The
    /// scopes it was in are left.
    pub open spec fn halted(self) -> InterpreterView {
        InterpreterView {
            environment: 0,
            scopes: trimmed(self.scopes),
            frames: Seq::empty(),
            control: ControlView::Deliver(ValueView::Null),
            ..self
        }
    }

    /// The machine doing `control` next, and nothing for the embedding program.
    pub open spec fn moved(self, control: ControlView) -> (InterpreterView, ActionView) {
        (InterpreterView { control, ..self }, ActionView::Continue)
    }

    /// The machine with one more frame, doing `control` next.
    pub open spec fn pushed(self, frame: FrameView, control: ControlView) -> (
        InterpreterView,
        ActionView,
    ) {
        (
            InterpreterView { frames: self.frames.push(frame), control, ..self },
            ActionView::Continue,
        )
    }

    /// A runtime error: the program ends, the machine is halted.
    pub open spec fn failed(self, message: Seq<char>) -> (InterpreterView, ActionView) {
        (self.halted(), ActionView::Failed(message))
    }

    /// A request to the embedding program: the machine waits for the answer.
    pub open spec fn asked(self, request: RequestView) -> (InterpreterView, ActionView) {
        (InterpreterView { control: ControlView::Await(request), ..self }, ActionView::Ask(request))
    }

    /// One step on an expression.
    pub open spec fn eval(self, e: ExprView) -> (InterpreterView, ActionView) {
        match e {
            ExprView::Literal { value } => self.moved(ControlView::Deliver(value)),
            ExprView::Grouping { expression } => self.moved(ControlView::Eval(*expression)),
            ExprView::Variable { name } => match lookup(
                self.scopes,
                self.environment,
                name.lexeme,
            ) {
                Some(v) => self.moved(ControlView::Deliver(v)),
                None => self.failed(undeclared_message(name.lexeme)),
            },
            ExprView::Assign { name, value } => self.pushed(
                FrameView::Assign { name },
                ControlView::Eval(*value),
            ),
            ExprView::Unary { operator, right } => self.pushed(
                FrameView::Unary { operator },
                ControlView::Eval(*right),
            ),
            ExprView::Binary { left, operator, right } => self.pushed(
                FrameView::Left { operator, right: *right },
                ControlView::Eval(*left),
            ),
            ExprView::Logical { left, operator, right } => if operator.token_type
                == TokenType::Or || operator.token_type == TokenType::And {
                self.pushed(
                    FrameView::Logical { operator, right: *right },
                    ControlView::Eval(*left),
                )
            } else {
                self.failed(
                    "Invalid token in logical expression: "@ + kind_name(operator.token_type),
                )
            },
            ExprView::Call { callee, paren, arguments } => self.pushed(
                FrameView::Callee { arguments },
                ControlView::Eval(*callee),
            ),
        }
    }

    /// One step on a statement.
    pub open spec fn exec(self, s: StmtView) -> (InterpreterView, ActionView) {
        match s {
            StmtView::Expression { expression } => self.moved(ControlView::Eval(expression)),
            StmtView::Echo { expression } => self.pushed(
                FrameView::Echo,
                ControlView::Eval(expression),
            ),
            StmtView::Let { name, initializer } => self.pushed(
                FrameView::Bind { name },
                ControlView::Eval(initializer),
            ),
            StmtView::Block { statements } => self.nested().pushed(
                FrameView::List { statements, next: 0 },
                ControlView::Deliver(ValueView::Null),
            ),
            StmtView::If { predicate, then_branch, otherwise } => self.pushed(
                FrameView::Branch {
                    then_branch: *then_branch,
                    otherwise: match otherwise {
                        Some(e) => Some(*e),
                        None => None,
                    },
                },
                ControlView::Eval(predicate),
            ),
            StmtView::While { condition, body } => self.pushed(
                FrameView::Test { condition, body: *body },
                ControlView::Eval(condition),
            ),
            StmtView::Break => self.moved(ControlView::Break),
            StmtView::Function { name, params, body } => (
                InterpreterView {
                    closures: self.closures.push(
                        ClosureView { params, body, scope: self.environment },
                    ),
                    scopes: captured(
                        defined(
                            self.scopes,
                            self.environment,
                            name.lexeme,
                            ValueView::Callable {
                                name: name.lexeme,
                                arity: params.len(),
                                fn_: Callee::Closure(self.closures.len() as usize),
                            },
                        ),
                        self.environment,
                    ),
                    control: ControlView::Deliver(ValueView::Null),
                    ..self
                },
                ActionView::Continue,
            ),
            StmtView::Return { keyword, value } => match value {
                Some(e) => self.pushed(FrameView::Return, ControlView::Eval(e)),
                None => self.moved(ControlView::Return(ValueView::Null)),
            },
        }
    }

    /// A unary operator applied to a value.
    pub open spec fn unary(self, operator: TokenType, v: ValueView) -> (
        InterpreterView,
        ActionView,
    ) {
        match operator {
            TokenType::Minus => match v {
                ValueView::Number(n) => self.asked(RequestView::Negate { operand: n }),
                _ => self.failed("Minus not implemented for "@ + v.type_text()),
            },
            TokenType::Bang => self.moved(
                ControlView::Deliver(ValueView::from_bool(!v.truthy())),
            ),
            _ => self.failed(kind_name(operator) + " is not a valid unary operator"@),
        }
    }

    /// A binary operator applied to two values.
    pub open spec fn binary(self, operator: TokenType, left: ValueView, right: ValueView) -> (
        InterpreterView,
        ActionView,
    ) {
        match operator {
            TokenType::BangEqual => self.moved(
                ControlView::Deliver(ValueView::from_bool(!left.equals(right))),
            ),
            TokenType::EqualEqual => self.moved(
                ControlView::Deliver(ValueView::from_bool(left.equals(right))),
            ),
            _ => match (left, right) {
                (ValueView::Number(x), ValueView::Number(y)) => match operator {
                    TokenType::Plus | TokenType::Minus | TokenType::Star | TokenType::Slash =>
                        self.asked(RequestView::Arith { operator, left: x, right: y }),
                    TokenType::Greater => self.moved(
                        ControlView::Deliver(ValueView::from_bool(number_lt(y.bits, x.bits))),
                    ),
                    TokenType::GreaterEqual => self.moved(
                        ControlView::Deliver(ValueView::from_bool(number_le(y.bits, x.bits))),
                    ),
                    TokenType::Less => self.moved(
                        ControlView::Deliver(ValueView::from_bool(number_lt(x.bits, y.bits))),
                    ),
                    TokenType::LessEqual => self.moved(
                        ControlView::Deliver(ValueView::from_bool(number_le(x.bits, y.bits))),
                    ),
                    _ => self.failed(operands_message(operator, left, right)),
                },
                (ValueView::StringValue(s1), ValueView::StringValue(s2)) => match operator {
                    TokenType::Plus => self.moved(
                        ControlView::Deliver(ValueView::StringValue(s1 + s2)),
                    ),
                    TokenType::Greater => self.moved(
                        ControlView::Deliver(ValueView::from_bool(text_lt(s2, s1))),
                    ),
                    TokenType::GreaterEqual => self.moved(
                        ControlView::Deliver(ValueView::from_bool(!text_lt(s1, s2))),
                    ),
                    TokenType::Less => self.moved(
                        ControlView::Deliver(ValueView::from_bool(text_lt(s1, s2))),
                    ),
                    TokenType::LessEqual => self.moved(
                        ControlView::Deliver(ValueView::from_bool(!text_lt(s2, s1))),
                    ),
                    _ => self.failed(operands_message(operator, left, right)),
                },
                _ => self.failed(operands_message(operator, left, right)),
            },
        }
    }

    /// The value of the callee has arrived: check it against the call.
    pub open spec fn callee(self, v: ValueView, arguments: Seq<ExprView>) -> (
        InterpreterView,
        ActionView,
    ) {
        match v {
            ValueView::Callable { name, arity, fn_ } => if arguments.len() != arity {
                self.failed(arity_message(name, arity, arguments.len()))
            } else if arguments.len() == 0 {
                self.invoke(v, Seq::empty())
            } else {
                self.pushed(
                    FrameView::Arguments { callee: v, arguments, values: Seq::empty() },
                    ControlView::Eval(arguments[0]),
                )
            },
            _ => self.failed(v.type_text() + " is not callable"@),
        }
    }

    /// The call itself, once every argument has its value.
    pub open spec fn invoke(self, callee: ValueView, values: Seq<ValueView>) -> (
        InterpreterView,
        ActionView,
    ) {
        match callee {
            ValueView::Callable { fn_: Callee::Native(Native::Time), .. } => self.asked(
                RequestView::Time,
            ),
            ValueView::Callable { fn_: Callee::Native(Native::Print), .. } => if values.len() > 0 {
                (
                    InterpreterView { control: ControlView::Deliver(ValueView::Null), ..self },
                    ActionView::Write { text: values[0].text(), newline: false },
                )
            } else {
                self.moved(ControlView::Deliver(ValueView::Null))
            },
            ValueView::Callable { fn_: Callee::Native(Native::Println), .. } => if values.len()
                > 0 {
                (
                    InterpreterView { control: ControlView::Deliver(ValueView::Null), ..self },
                    ActionView::Write { text: values[0].text(), newline: true },
                )
            } else {
                self.moved(ControlView::Deliver(ValueView::Null))
            },
            ValueView::Callable { fn_: Callee::Native(Native::Exit), .. } => if values.len() > 0 {
                (self.halted(), ActionView::Exit(values[0]))
            } else {
                self.moved(ControlView::Deliver(ValueView::Null))
            },
            ValueView::Callable { fn_: Callee::Closure(id), .. } => if id < self.closures.len() {
                (self.called(self.closures[id as int], values), ActionView::Continue)
            } else {
                self.moved(ControlView::Deliver(ValueView::Null))
            },
            _ => self.moved(ControlView::Deliver(ValueView::Null)),
        }
    }

    /// The machine at the start of a closure's body: in a new scope, enclosed
    /// by the scope that the closure captured, with the parameters bound to
    /// the values in order.
    pub open spec fn called(self, closure: ClosureView, values: Seq<ValueView>) -> InterpreterView {
        let inside = self.entered(closure.scope);
        InterpreterView {
            scopes: bound(
                inside.scopes,
                inside.environment,
                closure.params,
                values,
                least(closure.params.len(), values.len()),
            ),
            frames: inside.frames.push(FrameView::List { statements: closure.body, next: 0 }),
            control: ControlView::Deliver(ValueView::Null),
            ..inside
        }
    }

    /// One step that delivers a value to the innermost frame.
    pub open spec fn deliver(self, v: ValueView) -> (InterpreterView, ActionView) {
        if self.frames.len() == 0 {
            (InterpreterView { control: ControlView::Deliver(v), ..self }, ActionView::Done)
        } else {
            let rest = InterpreterView { frames: self.frames.drop_last(), ..self };
            match self.frames.last() {
                FrameView::Program { statements, next } => if next < statements.len() {
                    rest.pushed(
                        FrameView::Program { statements, next: next + 1 },
                        ControlView::Exec(statements[next as int]),
                    )
                } else {
                    rest.moved(ControlView::Deliver(ValueView::Null))
                },
                FrameView::List { statements, next } => if next < statements.len() {
                    rest.pushed(
                        FrameView::List { statements, next: next + 1 },
                        ControlView::Exec(statements[next as int]),
                    )
                } else {
                    rest.moved(ControlView::Deliver(ValueView::Null))
                },
                FrameView::Leave { scope } => rest.left(scope).moved(
                    ControlView::Deliver(ValueView::Null),
                ),
                FrameView::Loop { condition, body } => rest.pushed(
                    FrameView::Test { condition, body },
                    ControlView::Eval(condition),
                ),
                FrameView::Test { condition, body } => if v.truthy() {
                    rest.pushed(
                        FrameView::Loop { condition, body },
                        rest.control,
                    ).0.nested().moved(ControlView::Exec(body))
                } else {
                    rest.moved(ControlView::Deliver(ValueView::Null))
                },
                FrameView::Call { scope } => rest.left(scope).moved(
                    ControlView::Deliver(ValueView::Null),
                ),
                FrameView::Echo => (
                    InterpreterView { control: ControlView::Deliver(ValueView::Null), ..rest },
                    ActionView::Write { text: v.text(), newline: true },
                ),
                FrameView::Bind { name } => (
                    InterpreterView {
                        scopes: defined(rest.scopes, rest.environment, name.lexeme, v),
                        control: ControlView::Deliver(ValueView::Null),
                        ..rest
                    },
                    ActionView::Continue,
                ),
                FrameView::Branch { then_branch, otherwise } => if v.truthy() {
                    rest.moved(ControlView::Exec(then_branch))
                } else {
                    match otherwise {
                        Some(e) => rest.moved(ControlView::Exec(e)),
                        None => rest.moved(ControlView::Deliver(ValueView::Null)),
                    }
                },
                FrameView::Return => rest.moved(ControlView::Return(v)),
                FrameView::Assign { name } => if resolve(
                    rest.scopes,
                    rest.environment,
                    name.lexeme,
                ) is Some {
                    (
                        InterpreterView {
                            scopes: assigned(rest.scopes, rest.environment, name.lexeme, v),
                            control: ControlView::Deliver(v),
                            ..rest
                        },
                        ActionView::Continue,
                    )
                } else {
                    rest.failed(undeclared_message(name.lexeme))
                },
                FrameView::Unary { operator } => rest.unary(operator.token_type, v),
                FrameView::Left { operator, right } => rest.pushed(
                    FrameView::Right { operator, left: v },
                    ControlView::Eval(right),
                ),
                FrameView::Right { operator, left } => rest.binary(operator.token_type, left, v),
                FrameView::Logical { operator, right } => if (operator.token_type == TokenType::Or)
                    == v.truthy() {
                    rest.moved(ControlView::Deliver(v))
                } else {
                    rest.moved(ControlView::Eval(right))
                },
                FrameView::Callee { arguments } => rest.callee(v, arguments),
                FrameView::Arguments { callee, arguments, values } => if values.len() + 1
                    < arguments.len() {
                    rest.pushed(
                        FrameView::Arguments { callee, arguments, values: values.push(v) },
                        ControlView::Eval(arguments[values.len() + 1 as int]),
                    )
                } else {
                    rest.invoke(callee, values.push(v))
                },
            }
        }
    }

    /// One step of unwinding to the nearest loop: the innermost frame goes.
    /// The frame of a loop ends the unwinding, and the loop with it. So does
    /// the frame of a call, which then returns `Null`, and the end of the
    /// program.
    pub open spec fn unwind_break(self) -> (InterpreterView, ActionView) {
        if self.frames.len() == 0 {
            self.moved(ControlView::Deliver(ValueView::Null))
        } else {
            let rest = InterpreterView { frames: self.frames.drop_last(), ..self };
            match self.frames.last() {
                FrameView::Loop { .. } => rest.moved(ControlView::Deliver(ValueView::Null)),
                FrameView::Call { scope } => rest.left(scope).moved(
                    ControlView::Deliver(ValueView::Null),
                ),
                FrameView::Leave { scope } => rest.left(scope).moved(ControlView::Break),
                _ => rest.moved(ControlView::Break),
            }
        }
    }

    /// One step of unwinding to the nearest call: the innermost frame goes.
    /// The frame of a call ends the unwinding and receives the value. So does
    /// the end of the program.
    pub open spec fn unwind_return(self, v: ValueView) -> (InterpreterView, ActionView) {
        if self.frames.len() == 0 {
            self.moved(ControlView::Deliver(ValueView::Null))
        } else {
            let rest = InterpreterView { frames: self.frames.drop_last(), ..self };
            match self.frames.last() {
                FrameView::Call { scope } => rest.left(scope).moved(ControlView::Deliver(v)),
                FrameView::Leave { scope } => rest.left(scope).moved(ControlView::Return(v)),
                _ => rest.moved(ControlView::Return(v)),
            }
        }
    }

    /// One step while a request stands: a number answers it, anything else
    /// has the request made again.
    pub open spec fn answer(self, request: RequestView, event: EventView) -> (
        InterpreterView,
        ActionView,
    ) {
        match event {
            EventView::Number(n) => self.moved(ControlView::Deliver(ValueView::Number(n))),
            EventView::Resume => self.asked(request),
        }
    }

    /// One step of the machine.
    pub open spec fn step(self, event: EventView) -> (InterpreterView, ActionView) {
        match self.control {
            ControlView::Eval(e) => self.eval(e),
            ControlView::Exec(s) => self.exec(s),
            ControlView::Deliver(v) => self.deliver(v),
            ControlView::Break => self.unwind_break(),
            ControlView::Return(v) => self.unwind_return(v),
            ControlView::Await(request) => self.answer(request, event),
        }
    }

    /// Steps until an action other than `Continue` comes, `budget` steps at
    /// most. The event goes to the first step.
    pub open spec fn run(self, event: EventView, budget: nat) -> (InterpreterView, ActionView)
        decreases budget,
    {
        if budget == 0 {
            (self, ActionView::Continue)
        } else {
            let (next, action) = self.step(event);
            if action is Continue {
                next.run(EventView::Resume, (budget - 1) as nat)
            } else {
                (next, action)
            }
        }
    }
}

/// The machine.
pub struct Interpreter<'a> {
    environment: usize,
    scopes: Environment,
    closures: Vec<Closure<'a>>,
    frames: Vec<Frame<'a>>,
    control: Control<'a>,
}

/// The models of a stack of frames.
pub open spec fn frame_views(frames: Seq<Frame>) -> Seq<FrameView> {
    Seq::new(frames.len(), |i: int| frames[i]@)
}

/// The models of the closures.
pub open spec fn closure_views(closures: Seq<Closure>) -> Seq<ClosureView> {
    Seq::new(closures.len(), |i: int| closures[i]@)
}

impl<'a> View for Interpreter<'a> {
    type V = InterpreterView;

    closed spec fn view(&self) -> InterpreterView {
        InterpreterView {
            environment: self.environment as nat,
            scopes: self.scopes@,
            closures: closure_views(self.closures@),
            frames: frame_views(self.frames@),
            control: self.control@,
        }
    }
}

impl Expr {
    /// Takes the expression as what the machine evaluates, in its current
    /// scope. What the machine was doing is dropped. The steps that follow
    /// evaluate the expression; once a step returns `Done`, `value` is what
    /// the expression came to.
    pub fn evaluate<'a>(&'a self, interpreter: &mut Interpreter<'a>)
        ensures
            final(interpreter)@ == old(interpreter)@.evaluating(self@),
            old(interpreter)@.wf() ==> final(interpreter)@.wf(),
    {
        proof {
            if interpreter@.wf() {
                step_keeps_well_formed(interpreter@, EventView::Resume);
            }
        }
        interpreter.frames = Vec::new();
        interpreter.control = Control::Eval(self);
        proof {
            assert(interpreter@.frames =~= Seq::empty());
        }
    }
}

/// The text of `operands_message`.
fn operands_text(operator: TokenType, left: &LiteralValue, right: &LiteralValue) -> (s: String)
    ensures
        s@ == operands_message(operator, left@, right@),
{
    let mut s = String::from_str("Binary operator ");
    s.append(operator.name());
    s.append(" cannot be applied for operands ");
    s.append(left.to_type());
    s.append(", ");
    s.append(right.to_type());
    s
}

/// The text of `undeclared_message`.
fn undeclared_text(name: &String) -> (s: String)
    ensures
        s@ == undeclared_message(name@),
{
    let mut s = name.clone();
    s.append(" was not declared in this scope");
    s
}

/// The text of `arity_message`.
fn arity_text(name: &String, arity: usize, given: usize) -> (s: String)
    ensures
        s@ == arity_message(name@, arity as nat, given as nat),
{
    let mut s = String::from_str("Callable ");
    s.append(name.as_str());
    s.append(" expected ");
    s.append(decimal(arity).as_str());
    s.append(" arguments but ");
    s.append(decimal(given).as_str());
    s.append(" were given");
    s
}

fn native(name: &str, arity: usize, which: Native) -> (v: LiteralValue)
    ensures
        v@ == native_value(name@, arity as nat, which),
{
    LiteralValue::Callable { name: String::from_str(name), arity, fn_: Callee::Native(which) }
}

impl<'a> Interpreter<'a> {
    /// A machine whose root scope holds the native functions `time`, `print`,
    /// `println` and `exit`, and that has nothing to run yet.
    pub fn new() -> (r: Interpreter<'a>)
        ensures
            r@ == InterpreterView::fresh(),
            r@.wf(),
    {
        proof {
            fresh_is_well_formed();
        }
        let mut scopes = Environment::new();
        scopes.define(0, String::from_str("time"), native("time", 0, Native::Time));
        scopes.define(0, String::from_str("print"), native("print", 1, Native::Print));
        scopes.define(0, String::from_str("println"), native("println", 1, Native::Println));
        scopes.define(0, String::from_str("exit"), native("exit", 1, Native::Exit));
        let r = Interpreter {
            environment: 0,
            scopes,
            closures: Vec::new(),
            frames: Vec::new(),
            control: Control::Deliver(LiteralValue::Null),
        };
        proof {
            assert(r@.closures =~= Seq::empty());
            assert(r@.frames =~= Seq::empty());
        }
        r
    }

    /// Enters a call: the current scope becomes a new one, enclosed by
    /// `parent`, and the frame of the call remembers the caller's scope.
    pub fn anon_function(&mut self, parent: usize)
        ensures
            final(self)@ == old(self)@.entered(parent as nat),
            old(self)@.wf() && parent < old(self)@.scopes.len() ==> final(self)@.wf(),
    {
        proof {
            if self@.wf() {
                step_keeps_well_formed(self@, EventView::Resume);
            }
        }
        let inside = self.scopes.child(parent);
        let outside = self.environment;
        self.environment = inside;
        self.push(Frame::Call { scope: outside });
    }

    /// Enters a call of the closure with handle `id`: a new scope, enclosed by
    /// the scope that the closure captured, the parameters bound to `values`
    /// in order, and the body about to run.
    fn for_closure(&mut self, id: usize, values: Vec<LiteralValue>)
        requires
            id < old(self)@.closures.len(),
        ensures
            final(self)@ == old(self)@.called(
                old(self)@.closures[id as int],
                value_views(values@),
            ),
    {
        let params = self.closures[id].params;
        let body = self.closures[id].body;
        let captured = self.closures[id].scope;
        let ghost closure = self@.closures[id as int];
        assert(closure == self.closures[id as int]@);
        self.anon_function(captured);
        let ghost inside = self@;
        let count = if params.len() <= values.len() {
            params.len()
        } else {
            values.len()
        };
        let mut i: usize = 0;
        while i < count
            invariant
                i <= count,
                count <= params.len(),
                count <= values.len(),
                closure.params == token_views(params@),
                self@ == (InterpreterView {
                    scopes: bound(
                        inside.scopes,
                        inside.environment,
                        closure.params,
                        value_views(values@),
                        i as nat,
                    ),
                    ..inside
                }),
            decreases count - i,
        {
            self.scopes.define(self.environment, params[i].lexeme.clone(), values[i].copy());
            i += 1;
        }
        self.push(Frame::List { statements: body, next: 0 });
        self.control = Control::Deliver(LiteralValue::Null);
    }

    /// Takes `stmts` as the program to run, in the root scope. What the
    /// machine was doing is dropped. The steps that follow run the program.
    pub fn interpret(&mut self, stmts: Vec<&'a Stmt>)
        ensures
            final(self)@ == old(self)@.loaded(program_views(stmts@)),
            old(self)@.wf() ==> final(self)@.wf(),
    {
        proof {
            if self@.wf() {
                step_keeps_well_formed(self@, EventView::Resume);
            }
        }
        self.environment = 0;
        self.scopes.trim();
        self.frames = Vec::new();
        self.frames.push(Frame::Program { statements: stmts, next: 0 });
        self.control = Control::Deliver(LiteralValue::Null);
        proof {
            assert(self@.frames =~= seq![
                FrameView::Program { statements: program_views(stmts@), next: 0 },
            ]);
        }
    }

    /// The value that the machine has arrived at, when nothing is left to
    /// do: that of the expression it was given to evaluate, `Null` after a
    /// program.
    pub fn value(&self) -> (r: Option<LiteralValue>)
        ensures
            match self@.value() {
                Some(v) => r matches Some(x) && x@ == v,
                None => r is None,
            },
    {
        if self.frames.len() == 0 {
            match &self.control {
                Control::Deliver(v) => Some(v.copy()),
                _ => None,
            }
        } else {
            None
        }
    }

    /// The handle of the current scope.
    pub fn environment(&self) -> (scope: usize)
        ensures
            scope == self@.environment,
    {
        self.environment
    }

    /// How many scopes the arena holds.
    pub fn scopes(&self) -> (n: usize)
        ensures
            n == self@.scopes.len(),
    {
        self.scopes.len()
    }

    /// The value that `name` has in the current scope.
    pub fn get(&self, name: &String) -> (r: Option<LiteralValue>)
        ensures
            match lookup(self@.scopes, self@.environment, name@) {
                Some(v) => r matches Some(x) && x@ == v,
                None => r is None,
            },
    {
        self.scopes.get(self.environment, name)
    }

    /// Whether nothing is left to run.
    pub fn is_idle(&self) -> (r: bool)
        ensures
            r == (self@.frames.len() == 0 && self@.control is Deliver),
    {
        self.frames.len() == 0 && match &self.control {
            Control::Deliver(_) => true,
            _ => false,
        }
    }

    fn push(&mut self, frame: Frame<'a>)
        ensures
            final(self)@ == (InterpreterView {
                frames: old(self)@.frames.push(frame@),
                ..old(self)@
            }),
    {
        self.frames.push(frame);
        proof {
            assert(self@.frames =~= old(self)@.frames.push(frame@));
        }
    }

    fn pop(&mut self) -> (r: Option<Frame<'a>>)
        ensures
            old(self)@.frames.len() == 0 ==> r is None && final(self)@ == old(self)@,
            old(self)@.frames.len() > 0 ==> (r matches Some(f) && f@ == old(self)@.frames.last()
                && final(self)@ == (InterpreterView {
                frames: old(self)@.frames.drop_last(),
                ..old(self)@
            })),
    {
        let r = self.frames.pop();
        proof {
            if old(self)@.frames.len() > 0 {
                assert(self@.frames =~= old(self)@.frames.drop_last());
            }
        }
        r
    }

    fn go(&mut self, control: Control<'a>) -> (action: Action)
        ensures
            final(self)@ == old(self)@.moved(control@).0,
            action@ == old(self)@.moved(control@).1,
    {
        self.control = control;
        Action::Continue
    }

    /// Enters a new scope, enclosed by the current one.
    fn nest(&mut self)
        ensures
            final(self)@ == old(self)@.nested(),
    {
        let outside = self.environment;
        let inside = self.scopes.child(outside);
        self.environment = inside;
        self.push(Frame::Leave { scope: outside });
    }

    /// Leaves the current scope for `scope`.
    fn leave(&mut self, scope: usize)
        ensures
            final(self)@ == old(self)@.left(scope as nat),
    {
        let leaving = self.environment;
        self.environment = scope;
        if scope < leaving {
            self.scopes.release(leaving);
        }
    }

    fn halt(&mut self)
        ensures
            final(self)@ == old(self)@.halted(),
    {
        self.environment = 0;
        self.scopes.trim();
        self.frames = Vec::new();
        self.control = Control::Deliver(LiteralValue::Null);
        proof {
            assert(self@.frames =~= Seq::empty());
        }
    }

    fn fail(&mut self, message: String) -> (action: Action)
        ensures
            final(self)@ == old(self)@.failed(message@).0,
            action@ == old(self)@.failed(message@).1,
    {
        self.halt();
        Action::Failed(message)
    }

    fn ask(&mut self, request: Request) -> (action: Action)
        ensures
            final(self)@ == old(self)@.asked(request@).0,
            action@ == old(self)@.asked(request@).1,
    {
        self.control = Control::Await(request.copy());
        Action::Ask(request)
    }

    fn eval(&mut self, e: &'a Expr) -> (action: Action)
        ensures
            final(self)@ == old(self)@.eval(e@).0,
            action@ == old(self)@.eval(e@).1,
    {
        match e {
            Expr::Literal { value } => self.go(Control::Deliver(value.copy())),
            Expr::Grouping { expression } => self.go(Control::Eval(&**expression)),
            Expr::Variable { name } => match self.scopes.get(self.environment, &name.lexeme) {
                Some(v) => self.go(Control::Deliver(v)),
                None => self.fail(undeclared_text(&name.lexeme)),
            },
            Expr::Assign { name, value } => {
                self.push(Frame::Assign { name });
                self.go(Control::Eval(&**value))
            },
            Expr::Unary { operator, right } => {
                self.push(Frame::Unary { operator });
                self.go(Control::Eval(&**right))
            },
            Expr::Binary { left, operator, right } => {
                self.push(Frame::Left { operator, right: &**right });
                self.go(Control::Eval(&**left))
            },
            Expr::Logical { left, operator, right } => {
                if operator.token_type == TokenType::Or || operator.token_type == TokenType::And {
                    self.push(Frame::Logical { operator, right: &**right });
                    self.go(Control::Eval(&**left))
                } else {
                    let mut message = String::from_str("Invalid token in logical expression: ");
                    message.append(operator.token_type.name());
                    self.fail(message)
                }
            },
            Expr::Call { callee, paren: _, arguments } => {
                proof {
                    assert(e@->Call_arguments =~= expr_views(arguments@));
                }
                self.push(Frame::Callee { arguments });
                self.go(Control::Eval(&**callee))
            },
        }
    }

    fn exec(&mut self, s: &'a Stmt) -> (action: Action)
        ensures
            final(self)@ == old(self)@.exec(s@).0,
            action@ == old(self)@.exec(s@).1,
    {
        match s {
            Stmt::Expression { expression } => self.go(Control::Eval(expression)),
            Stmt::Echo { expression } => {
                self.push(Frame::Echo);
                self.go(Control::Eval(expression))
            },
            Stmt::Let { name, initializer } => {
                self.push(Frame::Bind { name });
                self.go(Control::Eval(initializer))
            },
            Stmt::Block { statements } => {
                proof {
                    assert(s@->Block_statements =~= stmt_views(statements@));
                }
                self.nest();
                self.push(Frame::List { statements, next: 0 });
                self.go(Control::Deliver(LiteralValue::Null))
            },
            Stmt::If { predicate, then_branch, otherwise } => {
                self.push(Frame::Branch { then_branch: &**then_branch, otherwise });
                self.go(Control::Eval(predicate))
            },
            Stmt::While { condition, body } => {
                self.push(Frame::Test { condition, body: &**body });
                self.go(Control::Eval(condition))
            },
            Stmt::Break => self.go(Control::Break),
            Stmt::Function { name, params, body } => {
                proof {
                    assert(s@->Function_body =~= stmt_views(body@));
                }
                let id = self.closures.len();
                let ghost before = self@.closures;
                let closure = Closure { params, body, scope: self.environment };
                self.closures.push(closure);
                proof {
                    assert(self@.closures =~= before.push(closure@));
                }
                let callable = LiteralValue::Callable {
                    name: name.lexeme.clone(),
                    arity: params.len(),
                    fn_: Callee::Closure(id),
                };
                self.scopes.define(self.environment, name.lexeme.clone(), callable);
                self.scopes.capture(self.environment);
                self.go(Control::Deliver(LiteralValue::Null))
            },
            Stmt::Return { keyword: _, value } => match value {
                Some(e) => {
                    self.push(Frame::Return);
                    self.go(Control::Eval(e))
                },
                None => self.go(Control::Return(LiteralValue::Null)),
            },
        }
    }

    fn unary(&mut self, operator: TokenType, v: LiteralValue) -> (action: Action)
        ensures
            final(self)@ == old(self)@.unary(operator, v@).0,
            action@ == old(self)@.unary(operator, v@).1,
    {
        match operator {
            TokenType::Minus => match v {
                LiteralValue::Number(n) => self.ask(Request::Negate { operand: n }),
                _ => {
                    let mut message = String::from_str("Minus not implemented for ");
                    message.append(v.to_type());
                    self.fail(message)
                },
            },
            TokenType::Bang => self.go(Control::Deliver(v.is_falsy())),
            _ => {
                let mut message = String::from_str(operator.name());
                message.append(" is not a valid unary operator");
                self.fail(message)
            },
        }
    }

    fn binary(&mut self, operator: TokenType, left: LiteralValue, right: LiteralValue) -> (action:
        Action)
        ensures
            final(self)@ == old(self)@.binary(operator, left@, right@).0,
            action@ == old(self)@.binary(operator, left@, right@).1,
    {
        match operator {
            TokenType::BangEqual => {
                let r = !left.equals(&right);
                self.go(Control::Deliver(LiteralValue::from_bool(r)))
            },
            TokenType::EqualEqual => {
                let r = left.equals(&right);
                self.go(Control::Deliver(LiteralValue::from_bool(r)))
            },
            _ => match (&left, &right) {
                (LiteralValue::Number(x), LiteralValue::Number(y)) => match operator {
                    TokenType::Plus | TokenType::Minus | TokenType::Star | TokenType::Slash => {
                        self.ask(Request::Arith { operator, left: x.copy(), right: y.copy() })
                    },
                    TokenType::Greater => {
                        let r = y.less(x);
                        self.go(Control::Deliver(LiteralValue::from_bool(r)))
                    },
                    TokenType::GreaterEqual => {
                        let r = y.less_equal(x);
                        self.go(Control::Deliver(LiteralValue::from_bool(r)))
                    },
                    TokenType::Less => {
                        let r = x.less(y);
                        self.go(Control::Deliver(LiteralValue::from_bool(r)))
                    },
                    TokenType::LessEqual => {
                        let r = x.less_equal(y);
                        self.go(Control::Deliver(LiteralValue::from_bool(r)))
                    },
                    _ => self.fail(operands_text(operator, &left, &right)),
                },
                (LiteralValue::StringValue(s1), LiteralValue::StringValue(s2)) => match operator {
                    TokenType::Plus => {
                        let mut s = s1.clone();
                        s.append(s2.as_str());
                        self.go(Control::Deliver(LiteralValue::StringValue(s)))
                    },
                    TokenType::Greater => {
                        let r = text_less(s2.as_str(), s1.as_str());
                        self.go(Control::Deliver(LiteralValue::from_bool(r)))
                    },
                    TokenType::GreaterEqual => {
                        let r = !text_less(s1.as_str(), s2.as_str());
                        self.go(Control::Deliver(LiteralValue::from_bool(r)))
                    },
                    TokenType::Less => {
                        let r = text_less(s1.as_str(), s2.as_str());
                        self.go(Control::Deliver(LiteralValue::from_bool(r)))
                    },
                    TokenType::LessEqual => {
                        let r = !text_less(s2.as_str(), s1.as_str());
                        self.go(Control::Deliver(LiteralValue::from_bool(r)))
                    },
                    _ => self.fail(operands_text(operator, &left, &right)),
                },
                _ => self.fail(operands_text(operator, &left, &right)),
            },
        }
    }

    fn callee(&mut self, v: LiteralValue, arguments: &'a Vec<Expr>) -> (action: Action)
        ensures
            final(self)@ == old(self)@.callee(v@, expr_views(arguments@)).0,
            action@ == old(self)@.callee(v@, expr_views(arguments@)).1,
    {
        match &v {
            LiteralValue::Callable { name, arity, fn_: _ } => {
                if arguments.len() != *arity {
                    self.fail(arity_text(name, *arity, arguments.len()))
                } else if arguments.len() == 0 {
                    let values: Vec<LiteralValue> = Vec::new();
                    proof {
                        assert(value_views(values@) =~= Seq::empty());
                    }
                    self.invoke(v, values)
                } else {
                    let values: Vec<LiteralValue> = Vec::new();
                    proof {
                        assert(value_views(values@) =~= Seq::empty());
                    }
                    let first = &arguments[0];
                    self.push(Frame::Arguments { callee: v, arguments, values });
                    self.go(Control::Eval(first))
                }
            },
            _ => {
                let mut message = String::from_str(v.to_type());
                message.append(" is not callable");
                self.fail(message)
            },
        }
    }

    fn invoke(&mut self, callee: LiteralValue, values: Vec<LiteralValue>) -> (action: Action)
        ensures
            final(self)@ == old(self)@.invoke(callee@, value_views(values@)).0,
            action@ == old(self)@.invoke(callee@, value_views(values@)).1,
    {
        match callee {
            LiteralValue::Callable { name: _, arity: _, fn_ } => match fn_ {
                Callee::Native(Native::Time) => self.ask(Request::Time),
                Callee::Native(Native::Print) => {
                    if values.len() > 0 {
                        let text = values[0].to_string();
                        self.control = Control::Deliver(LiteralValue::Null);
                        Action::Write { text, newline: false }
                    } else {
                        self.go(Control::Deliver(LiteralValue::Null))
                    }
                },
                Callee::Native(Native::Println) => {
                    if values.len() > 0 {
                        let text = values[0].to_string();
                        self.control = Control::Deliver(LiteralValue::Null);
                        Action::Write { text, newline: true }
                    } else {
                        self.go(Control::Deliver(LiteralValue::Null))
                    }
                },
                Callee::Native(Native::Exit) => {
                    if values.len() > 0 {
                        let code = values[0].copy();
                        self.halt();
                        Action::Exit(code)
                    } else {
                        self.go(Control::Deliver(LiteralValue::Null))
                    }
                },
                Callee::Closure(id) => {
                    if id < self.closures.len() {
                        self.for_closure(id, values);
                        Action::Continue
                    } else {
                        self.go(Control::Deliver(LiteralValue::Null))
                    }
                },
            },
            _ => self.go(Control::Deliver(LiteralValue::Null)),
        }
    }

    // The proof needs far less; with the limit raised, a body that goes
    // wrong in one arm is refused by the clause it breaks.
    #[verifier::rlimit(100)]
    fn deliver(&mut self, v: LiteralValue) -> (action: Action)
        ensures
            final(self)@ == old(self)@.deliver(v@).0,
            action@ == old(self)@.deliver(v@).1,
    {
        match self.pop() {
            None => {
                self.control = Control::Deliver(v);
                Action::Done
            },
            Some(frame) => match frame {
                Frame::Program { statements, next } => {
                    if next < statements.len() {
                        let s: &'a Stmt = statements[next];
                        self.push(Frame::Program { statements, next: next + 1 });
                        self.go(Control::Exec(s))
                    } else {
                        self.go(Control::Deliver(LiteralValue::Null))
                    }
                },
                Frame::List { statements, next } => {
                    if next < statements.len() {
                        let s: &'a Stmt = &*statements[next];
                        self.push(Frame::List { statements, next: next + 1 });
                        self.go(Control::Exec(s))
                    } else {
                        self.go(Control::Deliver(LiteralValue::Null))
                    }
                },
                Frame::Leave { scope } => {
                    self.leave(scope);
                    self.go(Control::Deliver(LiteralValue::Null))
                },
                Frame::Loop { condition, body } => {
                    self.push(Frame::Test { condition, body });
                    self.go(Control::Eval(condition))
                },
                Frame::Test { condition, body } => {
                    if v.truthy() {
                        self.push(Frame::Loop { condition, body });
                        self.nest();
                        self.go(Control::Exec(body))
                    } else {
                        self.go(Control::Deliver(LiteralValue::Null))
                    }
                },
                Frame::Call { scope } => {
                    self.leave(scope);
                    self.go(Control::Deliver(LiteralValue::Null))
                },
                Frame::Echo => {
                    let text = v.to_string();
                    self.control = Control::Deliver(LiteralValue::Null);
                    Action::Write { text, newline: true }
                },
                Frame::Bind { name } => {
                    self.scopes.define(self.environment, name.lexeme.clone(), v);
                    self.go(Control::Deliver(LiteralValue::Null))
                },
                Frame::Branch { then_branch, otherwise } => {
                    if v.truthy() {
                        self.go(Control::Exec(then_branch))
                    } else {
                        match otherwise {
                            Some(e) => self.go(Control::Exec(&**e)),
                            None => self.go(Control::Deliver(LiteralValue::Null)),
                        }
                    }
                },
                Frame::Return => self.go(Control::Return(v)),
                Frame::Assign { name } => {
                    if self.scopes.assign(self.environment, &name.lexeme, v.copy()) {
                        self.go(Control::Deliver(v))
                    } else {
                        self.fail(undeclared_text(&name.lexeme))
                    }
                },
                Frame::Unary { operator } => self.unary(operator.token_type, v),
                Frame::Left { operator, right } => {
                    self.push(Frame::Right { operator, left: v });
                    self.go(Control::Eval(right))
                },
                Frame::Right { operator, left } => self.binary(operator.token_type, left, v),
                Frame::Logical { operator, right } => {
                    if (operator.token_type == TokenType::Or) == v.truthy() {
                        self.go(Control::Deliver(v))
                    } else {
                        self.go(Control::Eval(right))
                    }
                },
                Frame::Callee { arguments } => self.callee(v, arguments),
                Frame::Arguments { callee, arguments, values } => {
                    let mut values = values;
                    let ghost before = value_views(values@);
                    values.push(v);
                    proof {
                        assert(value_views(values@) =~= before.push(v@));
                    }
                    if values.len() < arguments.len() {
                        let following = &arguments[values.len()];
                        self.push(Frame::Arguments { callee, arguments, values });
                        self.go(Control::Eval(following))
                    } else {
                        self.invoke(callee, values)
                    }
                },
            },
        }
    }

    // The proof needs far less; with the limit raised, a body that goes
    // wrong in one arm is refused by the clause it breaks.
    #[verifier::rlimit(100)]
    fn unwind_break(&mut self) -> (action: Action)
        ensures
            final(self)@ == old(self)@.unwind_break().0,
            action@ == old(self)@.unwind_break().1,
    {
        match self.pop() {
            None => self.go(Control::Deliver(LiteralValue::Null)),
            Some(frame) => match frame {
                Frame::Loop { .. } => self.go(Control::Deliver(LiteralValue::Null)),
                Frame::Call { scope } => {
                    self.leave(scope);
                    self.go(Control::Deliver(LiteralValue::Null))
                },
                Frame::Leave { scope } => {
                    self.leave(scope);
                    self.go(Control::Break)
                },
                _ => self.go(Control::Break),
            },
        }
    }

    // The proof needs far less; with the limit raised, a body that goes
    // wrong in one arm is refused by the clause it breaks.
    #[verifier::rlimit(100)]
    fn unwind_return(&mut self, v: LiteralValue) -> (action: Action)
        ensures
            final(self)@ == old(self)@.unwind_return(v@).0,
            action@ == old(self)@.unwind_return(v@).1,
    {
        match self.pop() {
            None => self.go(Control::Deliver(LiteralValue::Null)),
            Some(frame) => match frame {
                Frame::Call { scope } => {
                    self.leave(scope);
                    self.go(Control::Deliver(v))
                },
                Frame::Leave { scope } => {
                    self.leave(scope);
                    self.go(Control::Return(v))
                },
                _ => self.go(Control::Return(v)),
            },
        }
    }

    fn answer(&mut self, request: Request, event: Event) -> (action: Action)
        ensures
            final(self)@ == old(self)@.answer(request@, event@).0,
            action@ == old(self)@.answer(request@, event@).1,
    {
        match event {
            Event::Number(n) => self.go(Control::Deliver(LiteralValue::Number(n))),
            Event::Resume => self.ask(request),
        }
    }

    /// One step of the machine.
    pub fn step(&mut self, event: Event) -> (action: Action)
        ensures
            final(self)@ == old(self)@.step(event@).0,
            action@ == old(self)@.step(event@).1,
            old(self)@.wf() ==> final(self)@.wf(),
    {
        proof {
            if self@.wf() {
                step_keeps_well_formed(self@, event@);
            }
        }
        let mut control = Control::Break;
        core::mem::swap(&mut self.control, &mut control);
        match control {
            Control::Eval(e) => self.eval(e),
            Control::Exec(s) => self.exec(s),
            Control::Deliver(v) => self.deliver(v),
            Control::Break => self.unwind_break(),
            Control::Return(v) => self.unwind_return(v),
            Control::Await(request) => self.answer(request, event),
        }
    }

    /// Steps until an action other than `Continue` comes, `budget` steps at
    /// most. The event goes to the first step.
    pub fn run(&mut self, event: Event, budget: usize) -> (action: Action)
        ensures
            final(self)@ == old(self)@.run(event@, budget as nat).0,
            action@ == old(self)@.run(event@, budget as nat).1,
            old(self)@.wf() ==> final(self)@.wf(),
    {
        assert(budget == 0 ==> old(self)@.run(event@, 0).1 is Continue);
        let ghost first = event@;
        let mut pending = event;
        let mut left = budget;
        while left > 0
            invariant
                self@.run(pending@, left as nat) == old(self)@.run(first, budget as nat),
                first == event@,
                old(self)@.wf() ==> self@.wf(),
            decreases left,
        {
            let action = self.step(pending);
            match action {
                Action::Continue => {},
                _ => {
                    return action;
                },
            }
            pending = Event::Resume;
            left -= 1;
        }
        Action::Continue
    }
}

impl InterpreterView {
    /// The machine after `n` steps, each answered with `Resume`.
    pub open spec fn after(self, n: nat) -> InterpreterView
        decreases n,
    {
        if n == 0 {
            self
        } else {
            self.step(EventView::Resume).0.after((n - 1) as nat)
        }
    }
}

/// The machine once unwinding has removed the frames `above`, innermost
/// last: each block that is left gives its scope back.
pub open spec fn unwound(state: InterpreterView, above: Seq<FrameView>) -> InterpreterView
    decreases above.len(),
{
    if above.len() == 0 {
        state
    } else {
        match above.last() {
            FrameView::Leave { scope } => unwound(state.left(scope), above.drop_last()),
            FrameView::Call { scope } => unwound(state.left(scope), above.drop_last()),
            _ => unwound(state, above.drop_last()),
        }
    }
}

/// Whether no frame of `above` is that of a loop or of a call.
pub open spec fn inside_loop(above: Seq<FrameView>) -> bool {
    forall|i: int| 0 <= i < above.len() ==> !(above[i] is Loop) && !(above[i] is Call)
}

/// Whether no frame of `above` is that of a call.
pub open spec fn inside_call(above: Seq<FrameView>) -> bool {
    forall|i: int| 0 <= i < above.len() ==> !(above[i] is Call)
}

proof fn lemma_unwound_keeps(state: InterpreterView, above: Seq<FrameView>)
    ensures
        unwound(state, above).frames == state.frames,
        unwound(state, above).control == state.control,
        unwound(state, above).closures == state.closures,
    decreases above.len(),
{
    if above.len() > 0 {
        match above.last() {
            FrameView::Leave { scope } => lemma_unwound_keeps(state.left(scope), above.drop_last()),
            FrameView::Call { scope } => lemma_unwound_keeps(state.left(scope), above.drop_last()),
            _ => lemma_unwound_keeps(state, above.drop_last()),
        }
    }
}

proof fn lemma_unwound_frames(
    state: InterpreterView,
    frames: Seq<FrameView>,
    control: ControlView,
    above: Seq<FrameView>,
)
    ensures
        unwound(InterpreterView { frames, control, ..state }, above) == (InterpreterView {
            frames,
            control,
            ..unwound(state, above)
        }),
    decreases above.len(),
{
    if above.len() > 0 {
        let changed = InterpreterView { frames, control, ..state };
        match above.last() {
            FrameView::Leave { scope } => {
                assert(changed.left(scope) == InterpreterView {
                    frames,
                    control,
                    ..state.left(scope)
                });
                lemma_unwound_frames(state.left(scope), frames, control, above.drop_last());
            },
            FrameView::Call { scope } => {
                assert(changed.left(scope) == InterpreterView {
                    frames,
                    control,
                    ..state.left(scope)
                });
                lemma_unwound_frames(state.left(scope), frames, control, above.drop_last());
            },
            _ => lemma_unwound_frames(state, frames, control, above.drop_last()),
        }
    }
}

proof fn lemma_unwinding_step(state: InterpreterView, next: InterpreterView, above: Seq<FrameView>)
    requires
        above.len() > 0,
        state.frames.len() > 0,
        state.frames.last() == above.last(),
        !(above.last() is Call),
        next == match above.last() {
            FrameView::Leave { scope } => InterpreterView {
                frames: state.frames.drop_last(),
                ..state.left(scope)
            },
            _ => InterpreterView { frames: state.frames.drop_last(), ..state },
        },
    ensures
        unwound(next, above.drop_last()) == (InterpreterView {
            frames: state.frames.drop_last(),
            ..unwound(state, above)
        }),
{
    match above.last() {
        FrameView::Leave { scope } => {
            lemma_unwound_frames(
                state.left(scope),
                state.frames.drop_last(),
                state.control,
                above.drop_last(),
            );
            lemma_unwound_keeps(state.left(scope), above.drop_last());
        },
        _ => {
            lemma_unwound_frames(
                state,
                state.frames.drop_last(),
                state.control,
                above.drop_last(),
            );
            lemma_unwound_keeps(state, above.drop_last());
        },
    }
}

proof fn lemma_break_unwinds(state: InterpreterView, keep: Seq<FrameView>, above: Seq<FrameView>)
    requires
        state.control is Break,
        state.frames == keep + above,
        inside_loop(above),
    ensures
        state.after(above.len()) == (InterpreterView { frames: keep, ..unwound(state, above) }),
    decreases above.len(),
{
    if above.len() == 0 {
        assert(keep + above =~= keep);
    } else {
        let next = state.step(EventView::Resume).0;
        assert(state.frames.last() == above.last());
        assert(state.frames.drop_last() =~= keep + above.drop_last());
        lemma_break_unwinds(next, keep, above.drop_last());
        lemma_unwinding_step(state, next, above);
    }
}

proof fn lemma_return_unwinds(
    state: InterpreterView,
    keep: Seq<FrameView>,
    above: Seq<FrameView>,
    v: ValueView,
)
    requires
        state.control == ControlView::Return(v),
        state.frames == keep + above,
        inside_call(above),
    ensures
        state.after(above.len()) == (InterpreterView { frames: keep, ..unwound(state, above) }),
    decreases above.len(),
{
    if above.len() == 0 {
        assert(keep + above =~= keep);
    } else {
        let next = state.step(EventView::Resume).0;
        assert(state.frames.last() == above.last());
        assert(state.frames.drop_last() =~= keep + above.drop_last());
        lemma_return_unwinds(next, keep, above.drop_last(), v);
        lemma_unwinding_step(state, next, above);
    }
}

proof fn lemma_after_one_more(state: InterpreterView, n: nat)
    ensures
        state.after(n + 1) == state.after(n).step(EventView::Resume).0,
    decreases n,
{
    let next = state.step(EventView::Resume).0;
    assert(state.after(n + 1) == next.after(n));
    if n > 0 {
        lemma_after_one_more(next, (n - 1) as nat);
        assert(state.after(n) == next.after((n - 1) as nat));
    } else {
        assert(next.after(0) == next);
    }
}

/// A break ends the innermost loop and no other. From a machine that
/// unwinds to the nearest loop, with the frames `above` between it and the
/// frame of that loop, `above.len() + 1` steps remove those frames and the
/// frame of the loop, and nothing below them: an enclosing loop still has
/// its frame and goes on. Then the loop has ended normally, and every block
/// of its body that was entered has been left.
pub proof fn break_ends_innermost_loop(
    state: InterpreterView,
    below: Seq<FrameView>,
    innermost: FrameView,
    above: Seq<FrameView>,
)
    requires
        state.control is Break,
        state.frames == below.push(innermost) + above,
        innermost is Loop,
        inside_loop(above),
    ensures
        state.after(above.len() + 1) == (InterpreterView {
            frames: below,
            control: ControlView::Deliver(ValueView::Null),
            ..unwound(state, above)
        }),
{
    lemma_break_unwinds(state, below.push(innermost), above);
    lemma_after_one_more(state, above.len());
    lemma_unwound_keeps(state, above);
    assert(below.push(innermost).drop_last() =~= below);
}

/// A return ends the call it is in, whatever blocks, branches and loops of
/// the body it stands in, and nothing that follows it in the body runs. From
/// a machine that unwinds with the value `v`, with the frames `above` between
/// it and the frame of the nearest call, `above.len() + 1` steps remove those
/// frames and the frame of the call, and nothing below them. Then `v` is
/// delivered to the caller, in the caller's scope, and every scope of the
/// call that was entered has been left. Until then the machine does nothing
/// but unwind.
pub proof fn return_ends_nearest_call(
    state: InterpreterView,
    below: Seq<FrameView>,
    caller: nat,
    above: Seq<FrameView>,
    v: ValueView,
    k: nat,
)
    requires
        state.control == ControlView::Return(v),
        state.frames == below.push(FrameView::Call { scope: caller }) + above,
        inside_call(above),
        k <= above.len(),
    ensures
        state.after(above.len() + 1) == (InterpreterView {
            frames: below,
            control: ControlView::Deliver(v),
            ..unwound(state, above).left(caller)
        }),
        state.after(above.len() + 1).environment == caller,
        state.after(k).control == ControlView::Return(v),
{
    let call = FrameView::Call { scope: caller };
    lemma_return_unwinds(state, below.push(call), above, v);
    lemma_after_one_more(state, above.len());
    lemma_unwound_keeps(state, above);
    assert(below.push(call).drop_last() =~= below);
    let inner = above.subrange(above.len() - k, above.len() as int);
    let outer = above.take(above.len() - k);
    assert(below.push(call) + above =~= (below.push(call) + outer) + inner);
    lemma_return_unwinds(state, below.push(call) + outer, inner, v);
    lemma_unwound_keeps(state, inner);
}

/// A break inside a function that no loop of the function encloses ends the
/// call, which returns `Null`: it never reaches a loop of the caller.
pub proof fn break_stops_at_call(
    state: InterpreterView,
    below: Seq<FrameView>,
    caller: nat,
    above: Seq<FrameView>,
)
    requires
        state.control is Break,
        state.frames == below.push(FrameView::Call { scope: caller }) + above,
        inside_loop(above),
    ensures
        state.after(above.len() + 1) == (InterpreterView {
            frames: below,
            control: ControlView::Deliver(ValueView::Null),
            ..unwound(state, above).left(caller)
        }),
        state.after(above.len() + 1).environment == caller,
{
    let call = FrameView::Call { scope: caller };
    lemma_break_unwinds(state, below.push(call), above);
    lemma_after_one_more(state, above.len());
    lemma_unwound_keeps(state, above);
    assert(below.push(call).drop_last() =~= below);
}

/// Whether the scopes that the frames give back come in rising order, each
/// before the scope that was current when it was saved, and all before
/// `environment`.
pub open spec fn ordered(frames: Seq<FrameView>, environment: nat) -> bool
    decreases frames.len(),
{
    if frames.len() == 0 {
        true
    } else {
        match frames.last() {
            FrameView::Leave { scope } => scope < environment && ordered(
                frames.drop_last(),
                scope,
            ),
            FrameView::Call { scope } => scope < environment && ordered(frames.drop_last(), scope),
            _ => ordered(frames.drop_last(), environment),
        }
    }
}

impl InterpreterView {
    /// The scopes form a tree. Every handle that the machine holds is that
    /// of a scope: the current scope, the scope that a closure captured, the
    /// scope that a frame gives back. A scope that a closure captured is
    /// marked so, and the scopes that the frames give back stand in the
    /// order in which they were entered.
    pub open spec fn wf(self) -> bool {
        &&& is_tree(self.scopes)
        &&& self.environment < self.scopes.len()
        &&& forall|i: int|
            0 <= i < self.closures.len() ==> (#[trigger] self.closures[i]).scope
                < self.scopes.len() && self.scopes[self.closures[i].scope as int].captured
        &&& ordered(self.frames, self.environment)
    }
}

proof fn lemma_ordered_grows(frames: Seq<FrameView>, environment: nat, later: nat)
    requires
        ordered(frames, environment),
        environment <= later,
    ensures
        ordered(frames, later),
    decreases frames.len(),
{
    if frames.len() > 0 {
        match frames.last() {
            FrameView::Leave { scope } => {},
            FrameView::Call { scope } => {},
            _ => lemma_ordered_grows(frames.drop_last(), environment, later),
        }
    }
}

proof fn lemma_ordered_push(frames: Seq<FrameView>, environment: nat, frame: FrameView)
    requires
        ordered(frames, environment),
        !(frame is Leave),
        !(frame is Call),
    ensures
        ordered(frames.push(frame), environment),
{
    assert(frames.push(frame).drop_last() =~= frames);
}

proof fn lemma_ordered_enter(frames: Seq<FrameView>, environment: nat, inside: nat, call: bool)
    requires
        ordered(frames, environment),
        environment < inside,
    ensures
        ordered(
            frames.push(
                if call {
                    FrameView::Call { scope: environment }
                } else {
                    FrameView::Leave { scope: environment }
                },
            ),
            inside,
        ),
{
    let frame = if call {
        FrameView::Call { scope: environment }
    } else {
        FrameView::Leave { scope: environment }
    };
    assert(frames.push(frame).drop_last() =~= frames);
}

proof fn lemma_bound_shape(
    scopes: Seq<ScopeView>,
    scope: nat,
    params: Seq<TokenView>,
    values: Seq<ValueView>,
    n: nat,
)
    ensures
        bound(scopes, scope, params, values, n).len() == scopes.len(),
        is_tree(scopes) ==> is_tree(bound(scopes, scope, params, values, n)),
        forall|i: int|
            0 <= i < scopes.len() && i != scope ==> #[trigger] bound(
                scopes,
                scope,
                params,
                values,
                n,
            )[i] == scopes[i],
        forall|i: int|
            0 <= i < scopes.len() ==> (#[trigger] bound(scopes, scope, params, values, n)[i]).captured
                == scopes[i].captured,
    decreases n,
{
    if !(n == 0 || n > params.len() || n > values.len()) {
        let before = bound(scopes, scope, params, values, (n - 1) as nat);
        lemma_bound_shape(scopes, scope, params, values, (n - 1) as nat);
        lemma_defined_shape(before, scope, params[n - 1].lexeme, values[n - 1]);
    }
}

proof fn lemma_left_well_formed(rest: InterpreterView, scope: nat, frames: Seq<FrameView>)
    requires
        is_tree(rest.scopes),
        rest.environment < rest.scopes.len(),
        forall|i: int|
            0 <= i < rest.closures.len() ==> (#[trigger] rest.closures[i]).scope
                < rest.scopes.len() && rest.scopes[rest.closures[i].scope as int].captured,
        scope < rest.environment,
        ordered(frames, scope),
    ensures
        (InterpreterView { frames, ..rest.left(scope) }).wf(),
{
}

proof fn lemma_called_well_formed(
    state: InterpreterView,
    closure: ClosureView,
    values: Seq<ValueView>,
)
    requires
        state.wf(),
        closure.scope < state.scopes.len(),
    ensures
        state.called(closure, values).wf(),
{
    let inside = state.entered(closure.scope);
    lemma_extended_shape(state.scopes, closure.scope);
    lemma_bound_shape(
        inside.scopes,
        inside.environment,
        closure.params,
        values,
        least(closure.params.len(), values.len()),
    );
    lemma_ordered_enter(state.frames, state.environment, inside.environment, true);
    lemma_ordered_push(
        inside.frames,
        inside.environment,
        FrameView::List { statements: closure.body, next: 0 },
    );
}

proof fn lemma_halted_well_formed(state: InterpreterView)
    requires
        state.wf(),
    ensures
        state.halted().wf(),
        forall|statements: Seq<StmtView>| (#[trigger] state.loaded(statements)).wf(),
{
    lemma_trimmed_shape(state.scopes);
    let kept = trimmed(state.scopes);
    assert forall|i: int| 0 <= i < state.closures.len() implies (#[trigger] state.closures[i]).scope
        < kept.len() && kept[state.closures[i].scope as int].captured by {
        assert(state.scopes[state.closures[i].scope as int].captured);
    }
    assert(ordered(Seq::<FrameView>::empty(), 0));
    assert forall|statements: Seq<StmtView>| (#[trigger] state.loaded(statements)).wf() by {
        let frames = seq![FrameView::Program { statements, next: 0 }];
        assert(frames.drop_last() =~= Seq::empty());
        assert(frames.last() == FrameView::Program { statements, next: 0 });
        assert(ordered(frames, 0));
    }
}

proof fn lemma_invoke_well_formed(state: InterpreterView, callee: ValueView, values: Seq<ValueView>)
    requires
        state.wf(),
    ensures
        state.invoke(callee, values).0.wf(),
{
    lemma_halted_well_formed(state);
    match callee {
        ValueView::Callable { fn_: Callee::Closure(id), .. } => {
            if id < state.closures.len() {
                lemma_called_well_formed(state, state.closures[id as int], values);
            }
        },
        _ => {},
    }
}

/// The machine that has run nothing is well formed.
pub proof fn fresh_is_well_formed()
    ensures
        InterpreterView::fresh().wf(),
{
    let bare = seq![root()];
    let a = defined(bare, 0, "time"@, native_value("time"@, 0, Native::Time));
    let b = defined(a, 0, "print"@, native_value("print"@, 1, Native::Print));
    let c = defined(b, 0, "println"@, native_value("println"@, 1, Native::Println));
    lemma_defined_shape(bare, 0, "time"@, native_value("time"@, 0, Native::Time));
    lemma_defined_shape(a, 0, "print"@, native_value("print"@, 1, Native::Print));
    lemma_defined_shape(b, 0, "println"@, native_value("println"@, 1, Native::Println));
    lemma_defined_shape(c, 0, "exit"@, native_value("exit"@, 1, Native::Exit));
}

/// Whatever the machine runs, the scopes stay a tree under the root, never
/// with a cycle, and every handle that the machine holds stays that of a
/// scope, though scopes are released: a step keeps the machine well formed.
/// So does taking a program or an expression to run, and entering a call by
/// hand.
pub proof fn step_keeps_well_formed(state: InterpreterView, event: EventView)
    requires
        state.wf(),
    ensures
        state.step(event).0.wf(),
        forall|statements: Seq<StmtView>| (#[trigger] state.loaded(statements)).wf(),
        forall|e: ExprView| (#[trigger] state.evaluating(e)).wf(),
        forall|parent: nat| parent < state.scopes.len() ==> (#[trigger] state.entered(parent)).wf(),
{
    assert(ordered(Seq::<FrameView>::empty(), state.environment));
    lemma_halted_well_formed(state);
    assert forall|parent: nat| parent < state.scopes.len() implies (#[trigger] state.entered(
        parent,
    )).wf() by {
        lemma_extended_shape(state.scopes, parent);
        lemma_ordered_enter(state.frames, state.environment, state.scopes.len(), true);
    }
    let rest = InterpreterView { frames: state.frames.drop_last(), ..state };
    if state.frames.len() > 0 {
        match state.frames.last() {
            FrameView::Leave { scope } => {
                lemma_ordered_grows(rest.frames, scope, state.environment);
            },
            FrameView::Call { scope } => {
                lemma_ordered_grows(rest.frames, scope, state.environment);
            },
            _ => {},
        }
        assert(rest.wf());
    }
    match state.control {
        ControlView::Eval(e) => {
            match e {
                ExprView::Assign { name, value } => {
                    lemma_ordered_push(
                        state.frames,
                        state.environment,
                        FrameView::Assign { name },
                    );
                },
                ExprView::Unary { operator, right } => {
                    lemma_ordered_push(
                        state.frames,
                        state.environment,
                        FrameView::Unary { operator },
                    );
                },
                ExprView::Binary { left, operator, right } => {
                    lemma_ordered_push(
                        state.frames,
                        state.environment,
                        FrameView::Left { operator, right: *right },
                    );
                },
                ExprView::Logical { left, operator, right } => {
                    lemma_ordered_push(
                        state.frames,
                        state.environment,
                        FrameView::Logical { operator, right: *right },
                    );
                },
                ExprView::Call { callee, paren, arguments } => {
                    lemma_ordered_push(
                        state.frames,
                        state.environment,
                        FrameView::Callee { arguments },
                    );
                },
                _ => {},
            }
        },
        ControlView::Exec(s) => {
            match s {
                StmtView::Echo { expression } => {
                    lemma_ordered_push(state.frames, state.environment, FrameView::Echo);
                },
                StmtView::Let { name, initializer } => {
                    lemma_ordered_push(
                        state.frames,
                        state.environment,
                        FrameView::Bind { name },
                    );
                },
                StmtView::Block { statements } => {
                    lemma_extended_shape(state.scopes, state.environment);
                    lemma_ordered_enter(
                        state.frames,
                        state.environment,
                        state.scopes.len(),
                        false,
                    );
                    lemma_ordered_push(
                        state.frames.push(FrameView::Leave { scope: state.environment }),
                        state.scopes.len(),
                        FrameView::List { statements, next: 0 },
                    );
                },
                StmtView::If { predicate, then_branch, otherwise } => {
                    lemma_ordered_push(
                        state.frames,
                        state.environment,
                        FrameView::Branch {
                            then_branch: *then_branch,
                            otherwise: match otherwise {
                                Some(e) => Some(*e),
                                None => None,
                            },
                        },
                    );
                },
                StmtView::While { condition, body } => {
                    lemma_ordered_push(
                        state.frames,
                        state.environment,
                        FrameView::Test { condition, body: *body },
                    );
                },
                StmtView::Function { name, params, body } => {
                    lemma_defined_shape(
                        state.scopes,
                        state.environment,
                        name.lexeme,
                        ValueView::Callable {
                            name: name.lexeme,
                            arity: params.len(),
                            fn_: Callee::Closure(state.closures.len() as usize),
                        },
                    );
                },
                StmtView::Return { keyword, value } => {
                    lemma_ordered_push(state.frames, state.environment, FrameView::Return);
                },
                _ => {},
            }
        },
        ControlView::Deliver(v) => {
            if state.frames.len() > 0 {
                lemma_halted_well_formed(rest);
                match state.frames.last() {
                    FrameView::Program { statements, next } => {
                        lemma_ordered_push(
                            rest.frames,
                            rest.environment,
                            FrameView::Program { statements, next: next + 1 },
                        );
                    },
                    FrameView::List { statements, next } => {
                        lemma_ordered_push(
                            rest.frames,
                            rest.environment,
                            FrameView::List { statements, next: next + 1 },
                        );
                    },
                    FrameView::Leave { scope } => {
                        lemma_left_well_formed(rest, scope, rest.frames);
                    },
                    FrameView::Call { scope } => {
                        lemma_left_well_formed(rest, scope, rest.frames);
                    },
                    FrameView::Loop { condition, body } => {
                        lemma_ordered_push(
                            rest.frames,
                            rest.environment,
                            FrameView::Test { condition, body },
                        );
                    },
                    FrameView::Test { condition, body } => {
                        lemma_ordered_push(
                            rest.frames,
                            rest.environment,
                            FrameView::Loop { condition, body },
                        );
                        lemma_extended_shape(rest.scopes, rest.environment);
                        lemma_ordered_enter(
                            rest.frames.push(FrameView::Loop { condition, body }),
                            rest.environment,
                            rest.scopes.len(),
                            false,
                        );
                    },
                    FrameView::Bind { name } => {
                        lemma_defined_shape(rest.scopes, rest.environment, name.lexeme, v);
                    },
                    FrameView::Assign { name } => {
                        lemma_assigned_shape(rest.scopes, rest.environment, name.lexeme, v);
                    },
                    FrameView::Left { operator, right } => {
                        lemma_ordered_push(
                            rest.frames,
                            rest.environment,
                            FrameView::Right { operator, left: v },
                        );
                    },
                    FrameView::Callee { arguments } => {
                        lemma_invoke_well_formed(rest, v, Seq::empty());
                        lemma_ordered_push(
                            rest.frames,
                            rest.environment,
                            FrameView::Arguments { callee: v, arguments, values: Seq::empty() },
                        );
                    },
                    FrameView::Arguments { callee, arguments, values } => {
                        lemma_invoke_well_formed(rest, callee, values.push(v));
                        lemma_ordered_push(
                            rest.frames,
                            rest.environment,
                            FrameView::Arguments { callee, arguments, values: values.push(v) },
                        );
                    },
                    _ => {},
                }
            }
        },
        ControlView::Break => {
            if state.frames.len() > 0 {
                match state.frames.last() {
                    FrameView::Leave { scope } => {
                        lemma_left_well_formed(rest, scope, rest.frames);
                    },
                    FrameView::Call { scope } => {
                        lemma_left_well_formed(rest, scope, rest.frames);
                    },
                    _ => {},
                }
            }
        },
        ControlView::Return(v) => {
            if state.frames.len() > 0 {
                match state.frames.last() {
                    FrameView::Leave { scope } => {
                        lemma_left_well_formed(rest, scope, rest.frames);
                    },
                    FrameView::Call { scope } => {
                        lemma_left_well_formed(rest, scope, rest.frames);
                    },
                    _ => {},
                }
            }
        },
        ControlView::Await(request) => {},
    }
}

/// An operator other than `==` and `!=` takes two numbers or two strings.
/// Applied to anything else it is an error that names the operator and the
/// types of both operands; `==` and `!=` are defined on every pair of values
/// and never an error.
pub proof fn operators_check_their_operands(
    state: InterpreterView,
    operator: TokenType,
    left: ValueView,
    right: ValueView,
)
    ensures
        operator == TokenType::EqualEqual ==> state.binary(operator, left, right) == state.moved(
            ControlView::Deliver(ValueView::from_bool(left.equals(right))),
        ),
        operator == TokenType::BangEqual ==> state.binary(operator, left, right) == state.moved(
            ControlView::Deliver(ValueView::from_bool(!left.equals(right))),
        ),
        operator != TokenType::EqualEqual && operator != TokenType::BangEqual && !(left is Number
            && right is Number) && !(left is StringValue && right is StringValue) ==> state.binary(
            operator,
            left,
            right,
        ) == state.failed(operands_message(operator, left, right)),
{
}

/// What is called must be a callable, and the call must give it as many
/// arguments as its arity says. Anything else is an error that names the
/// type of what was called, or the callable with its arity and the count
/// given; no argument is evaluated then.
pub proof fn calls_check_callee_and_arity(
    state: InterpreterView,
    v: ValueView,
    arguments: Seq<ExprView>,
)
    ensures
        !(v is Callable) ==> state.callee(v, arguments) == state.failed(
            v.type_text() + " is not callable"@,
        ),
        v is Callable && arguments.len() != v->arity ==> state.callee(v, arguments)
            == state.failed(arity_message(v->name, v->arity, arguments.len())),
        v is Callable && arguments.len() == v->arity && v->arity > 0 ==> state.callee(v, arguments)
            == state.pushed(
            FrameView::Arguments { callee: v, arguments, values: Seq::empty() },
            ControlView::Eval(arguments[0]),
        ),
{
}

/// Every call runs in a scope of its own. The scope is new, enclosed by the
/// scope that the closure captured when it was declared, whoever calls; it
/// binds each parameter to its argument; and no scope that was there before
/// the call is changed by entering it. So two calls of one function never
/// share their locals.
pub proof fn calls_have_their_own_scope(
    state: InterpreterView,
    closure: ClosureView,
    values: Seq<ValueView>,
    i: int,
)
    requires
        closure.params.len() == values.len(),
        0 <= i < values.len(),
        forall|j: int| i < j < values.len() ==> closure.params[j].lexeme != closure.params[i].lexeme,
    ensures
        ({
            let inside = state.called(closure, values);
            &&& inside.environment == state.scopes.len()
            &&& inside.scopes.len() == state.scopes.len() + 1
            &&& inside.scopes[inside.environment as int].enclosing == Some(closure.scope)
            &&& inside.scopes.take(state.scopes.len() as int) == state.scopes
            &&& inside.frames == state.frames.push(FrameView::Call { scope: state.environment }).push(
                FrameView::List { statements: closure.body, next: 0 },
            )
            &&& lookup(inside.scopes, inside.environment, closure.params[i].lexeme) == Some(
                values[i],
            )
        }),
{
    let entered = state.entered(closure.scope);
    let n = values.len();
    lemma_bound_shape(entered.scopes, entered.environment, closure.params, values, n);
    lemma_bound_binds(entered.scopes, entered.environment, closure.params, values, n, i);
    let inside = state.called(closure, values);
    assert(inside.scopes.take(state.scopes.len() as int) =~= state.scopes);
    lemma_bound_links(entered.scopes, entered.environment, closure.params, values, n);
}

proof fn lemma_bound_links(
    scopes: Seq<ScopeView>,
    scope: nat,
    params: Seq<TokenView>,
    values: Seq<ValueView>,
    n: nat,
)
    requires
        scope < scopes.len(),
    ensures
        bound(scopes, scope, params, values, n)[scope as int].enclosing
            == scopes[scope as int].enclosing,
    decreases n,
{
    if !(n == 0 || n > params.len() || n > values.len()) {
        let before = bound(scopes, scope, params, values, (n - 1) as nat);
        lemma_bound_links(scopes, scope, params, values, (n - 1) as nat);
        lemma_bound_shape(scopes, scope, params, values, (n - 1) as nat);
        lemma_defined_shape(before, scope, params[n - 1].lexeme, values[n - 1]);
    }
}

proof fn lemma_bound_binds(
    scopes: Seq<ScopeView>,
    scope: nat,
    params: Seq<TokenView>,
    values: Seq<ValueView>,
    n: nat,
    i: int,
)
    requires
        scope < scopes.len(),
        n <= params.len(),
        n <= values.len(),
        0 <= i < n,
        forall|j: int| i < j < n ==> params[j].lexeme != params[i].lexeme,
    ensures
        bound(scopes, scope, params, values, n)[scope as int].bindings.dom().contains(
            params[i].lexeme,
        ),
        bound(scopes, scope, params, values, n)[scope as int].bindings[params[i].lexeme]
            == values[i],
    decreases n,
{
    let before = bound(scopes, scope, params, values, (n - 1) as nat);
    lemma_bound_shape(scopes, scope, params, values, (n - 1) as nat);
    if i < n - 1 {
        lemma_bound_binds(scopes, scope, params, values, (n - 1) as nat, i);
    }
}

} // verus!
