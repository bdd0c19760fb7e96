//! Statements.

use crate::expr::{expr_text, Expr, ExprView};
use crate::tokenizer::{token_views, Token, TokenView};
use vstd::prelude::*;

verus! {

/// A statement: what has an effect.
#[derive(Debug)]
#[allow(inconsistent_fields)]
pub enum Stmt {
    Expression { expression: Expr },
    Echo { expression: Expr },
    Let { name: Token, initializer: Expr },
    Block { statements: Vec<Box<Stmt>> },
    If { predicate: Expr, then_branch: Box<Stmt>, otherwise: Option<Box<Stmt>> },
    While { condition: Expr, body: Box<Stmt> },
    Break,
    Function { name: Token, params: Vec<Token>, body: Vec<Box<Stmt>> },
    Return { keyword: Token, value: Option<Expr> },
}

/// The mathematical model of a statement.
#[allow(inconsistent_fields)]
pub enum StmtView {
    Expression { expression: ExprView },
    Echo { expression: ExprView },
    Let { name: TokenView, initializer: ExprView },
    Block { statements: Seq<StmtView> },
    If { predicate: ExprView, then_branch: Box<StmtView>, otherwise: Option<Box<StmtView>> },
    While { condition: ExprView, body: Box<StmtView> },
    Break,
    Function { name: TokenView, params: Seq<TokenView>, body: Seq<StmtView> },
    Return { keyword: TokenView, value: Option<ExprView> },
}

impl Stmt {
    /// The model of the statement.
    pub open spec fn model(&self) -> StmtView
        decreases self,
    {
        match self {
            Stmt::Expression { expression } => StmtView::Expression { expression: expression@ },
            Stmt::Echo { expression } => StmtView::Echo { expression: expression@ },
            Stmt::Let { name, initializer } => StmtView::Let {
                name: name@,
                initializer: initializer@,
            },
            Stmt::Block { statements } => StmtView::Block {
                statements: Seq::new(
                    statements.len() as nat,
                    |i: int|
                        if 0 <= i < statements.len() {
                            statements[i].model()
                        } else {
                            arbitrary()
                        },
                ),
            },
            Stmt::If { predicate, then_branch, otherwise } => StmtView::If {
                predicate: predicate@,
                then_branch: Box::new(then_branch.model()),
                otherwise: match otherwise {
                    Some(s) => Some(Box::new(s.model())),
                    None => None,
                },
            },
            Stmt::While { condition, body } => StmtView::While {
                condition: condition@,
                body: Box::new(body.model()),
            },
            Stmt::Break => StmtView::Break,
            Stmt::Function { name, params, body } => StmtView::Function {
                name: name@,
                params: token_views(params@),
                body: Seq::new(
                    body.len() as nat,
                    |i: int|
                        if 0 <= i < body.len() {
                            body[i].model()
                        } else {
                            arbitrary()
                        },
                ),
            },
            Stmt::Return { keyword, value } => StmtView::Return {
                keyword: keyword@,
                value: match value {
                    Some(e) => Some(e@),
                    None => None,
                },
            },
        }
    }
}

impl View for Stmt {
    type V = StmtView;

    open spec fn view(&self) -> StmtView {
        self.model()
    }
}

/// The models of a list of statements.
pub open spec fn stmt_views(statements: Seq<Box<Stmt>>) -> Seq<StmtView> {
    Seq::new(statements.len(), |i: int| statements[i]@)
}

/// The model of a block holds the models of its statements, and the model of
/// a function declaration those of its body.
pub proof fn lemma_list_view(s: Stmt)
    ensures
        s matches Stmt::Block { statements } ==> s@ == (StmtView::Block {
            statements: stmt_views(statements@),
        }),
        s matches Stmt::Function { name, params, body } ==> s@ == (StmtView::Function {
            name: name@,
            params: token_views(params@),
            body: stmt_views(body@),
        }),
{
    match s {
        Stmt::Block { statements } => {
            assert(s@->Block_statements =~= stmt_views(statements@));
        },
        Stmt::Function { name, params, body } => {
            assert(s@->Function_body =~= stmt_views(body@));
        },
        _ => {},
    }
}

/// The printed forms of the first `n` statements of a list, one after the
/// other.
pub open spec fn block_text(statements: Seq<StmtView>, n: nat) -> Seq<char>
    decreases statements, n,
{
    if n == 0 || n > statements.len() {
        Seq::empty()
    } else {
        block_text(statements, (n - 1) as nat) + stmt_text(statements[n - 1])
    }
}

/// The printed form of a statement.
pub open spec fn stmt_text(s: StmtView) -> Seq<char>
    decreases s,
{
    match s {
        StmtView::Expression { expression } => expr_text(expression),
        StmtView::Echo { expression } => "(print "@ + expr_text(expression) + ")"@,
        StmtView::Let { name, initializer } => "(let "@ + name.lexeme + ")"@,
        StmtView::Block { statements } => "(block "@ + block_text(statements, statements.len())
            + ")"@,
        StmtView::If { predicate, then_branch, otherwise } => "(if "@ + expr_text(predicate)
            + " "@ + stmt_text(*then_branch) + match otherwise {
            Some(e) => " "@ + stmt_text(*e),
            None => Seq::empty(),
        } + ")"@,
        StmtView::While { condition, body } => "(while "@ + expr_text(condition) + " "@
            + stmt_text(*body) + ")"@,
        StmtView::Break => "(break)"@,
        StmtView::Function { name, params, body } => "(fn "@ + name.lexeme + ")"@,
        StmtView::Return { keyword, value } => match value {
            Some(e) => "(return "@ + expr_text(e) + ")"@,
            None => "(return)"@,
        },
    }
}

impl Stmt {
    /// The printed form of the statement.
    pub fn to_string(&self) -> (s: String)
        ensures
            s@ == stmt_text(self@),
        decreases self,
    {
        match self {
            Stmt::Expression { expression } => expression.to_string(),
            Stmt::Echo { expression } => {
                let mut s = String::from_str("(print ");
                s.append(expression.to_string().as_str());
                s.append(")");
                s
            },
            Stmt::Let { name, initializer: _ } => {
                let mut s = String::from_str("(let ");
                s.append(name.lexeme.as_str());
                s.append(")");
                s
            },
            Stmt::Block { statements } => {
                let mut s = String::from_str("(block ");
                let mut i: usize = 0;
                let ghost head = s@;
                let ghost models = self@->Block_statements;
                while i < statements.len()
                    invariant
                        i <= statements.len(),
                        models.len() == statements.len(),
                        forall|j: int| 0 <= j < statements.len() ==> models[j] == statements[j]@,
                        forall|j: int|
                            0 <= j < statements.len() ==> decreases_to!(self => statements[j]),
                        s@ == head + block_text(models, i as nat),
                    decreases statements.len() - i,
                {
                    s.append(statements[i].to_string().as_str());
                    i += 1;
                }
                s.append(")");
                s
            },
            Stmt::If { predicate, then_branch, otherwise } => {
                let mut s = String::from_str("(if ");
                s.append(predicate.to_string().as_str());
                s.append(" ");
                s.append(then_branch.to_string().as_str());
                match otherwise {
                    Some(e) => {
                        s.append(" ");
                        s.append(e.to_string().as_str());
                    },
                    None => {},
                }
                s.append(")");
                s
            },
            Stmt::While { condition, body } => {
                let mut s = String::from_str("(while ");
                s.append(condition.to_string().as_str());
                s.append(" ");
                s.append(body.to_string().as_str());
                s.append(")");
                s
            },
            Stmt::Break => String::from_str("(break)"),
            Stmt::Function { name, params: _, body: _ } => {
                let mut s = String::from_str("(fn ");
                s.append(name.lexeme.as_str());
                s.append(")");
                s
            },
            Stmt::Return { keyword: _, value } => match value {
                Some(e) => {
                    let mut s = String::from_str("(return ");
                    s.append(e.to_string().as_str());
                    s.append(")");
                    s
                },
                None => String::from_str("(return)"),
            },
        }
    }
}

} // verus!
