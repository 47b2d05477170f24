//! The syntax tree the parser builds: expressions (things with a value) and
//! statements (instructions), each with the span of source it came from.

use vstd::prelude::*;
use crate::error::Span;

verus! {

#[derive(Debug, Clone, Copy, PartialEq, Eq, Structural)]
pub enum BinaryOp {
    Add,
    Sub,
    Mul,
    Div,
    Equal,
    NotEqual,
    Less,
    Greater,
    LessEqual,
    GreaterEqual,
    And,
    Or,
}

#[derive(Debug, Clone, Copy, PartialEq, Eq, Structural)]
pub enum UnaryOp {
    Not,
    Negate,
}

/// An expression: something that has a value.
#[derive(Debug)]
pub struct Expr {
    pub kind: ExprKind,
    pub span: Span,
}

#[derive(Debug)]
pub enum ExprKind {
    StringLiteral(String),
    CharLiteral(char),
    NumberLiteral(i64),
    /// A decimal literal, kept as the digits were written.
    FloatLiteral(String),
    BoolLiteral(bool),
    ArrayLiteral(Vec<Expr>),
    Variable(String),
    UnaryOp { op: UnaryOp, operand: Box<Expr> },
    BinaryOp { left: Box<Expr>, op: BinaryOp, right: Box<Expr> },
    FunctionCall { name: String, args: Vec<Expr> },
    Range { start: Box<Expr>, end: Box<Expr> },
}

/// A statement: a complete instruction.
#[derive(Debug)]
pub struct Stmt {
    pub kind: StmtKind,
    pub span: Span,
}

#[derive(Debug)]
pub enum StmtKind {
    ExpressionStatement(Expr),
    VariableDeclaration { name: String, value: Expr },
    FunctionDef { name: String, params: Vec<String>, body: Vec<Stmt> },
    IfStatement { condition: Expr, then_branch: Vec<Stmt>, else_branch: Option<Vec<Stmt>> },
    WhileLoop { condition: Expr, body: Vec<Stmt> },
    ForLoop { variable: String, iterable: Expr, body: Vec<Stmt> },
    ReturnStatement { value: Option<Expr> },
}

/// A program is its list of statements.
pub type Program = Vec<Stmt>;

impl Expr {
    pub fn new(kind: ExprKind, span: Span) -> (e: Expr)
        ensures
            e.kind == kind,
            e.span == span,
    {
        Expr { kind, span }
    }
}

impl Stmt {
    pub fn new(kind: StmtKind, span: Span) -> (s: Stmt)
        ensures
            s.kind == kind,
            s.span == span,
    {
        Stmt { kind, span }
    }
}

// ---------------------------------------------------------------------------
// Plain-value forms of the tree
// ---------------------------------------------------------------------------

pub struct ExprView {
    pub kind: ExprViewKind,
    pub span: Span,
}

pub enum ExprViewKind {
    StringLiteral(Seq<char>),
    CharLiteral(char),
    NumberLiteral(i64),
    FloatLiteral(Seq<char>),
    BoolLiteral(bool),
    ArrayLiteral(Seq<ExprView>),
    Variable(Seq<char>),
    UnaryOp { op: UnaryOp, operand: Box<ExprView> },
    BinaryOp { left: Box<ExprView>, op: BinaryOp, right: Box<ExprView> },
    FunctionCall { name: Seq<char>, args: Seq<ExprView> },
    Range { start: Box<ExprView>, end: Box<ExprView> },
}

pub struct StmtView {
    pub kind: StmtViewKind,
    pub span: Span,
}

pub enum StmtViewKind {
    ExpressionStatement(ExprView),
    VariableDeclaration { name: Seq<char>, value: ExprView },
    FunctionDef { name: Seq<char>, params: Seq<Seq<char>>, body: Seq<StmtView> },
    IfStatement { condition: ExprView, then_branch: Seq<StmtView>, else_branch: Option<Seq<StmtView>> },
    WhileLoop { condition: ExprView, body: Seq<StmtView> },
    ForLoop { variable: Seq<char>, iterable: ExprView, body: Seq<StmtView> },
    ReturnStatement { value: Option<ExprView> },
}

impl Expr {
    pub open spec fn view_of(&self) -> ExprView
        decreases self,
    {
        let kind = match &self.kind {
            ExprKind::StringLiteral(s) => ExprViewKind::StringLiteral(s@),
            ExprKind::CharLiteral(c) => ExprViewKind::CharLiteral(*c),
            ExprKind::NumberLiteral(n) => ExprViewKind::NumberLiteral(*n),
            ExprKind::FloatLiteral(s) => ExprViewKind::FloatLiteral(s@),
            ExprKind::BoolLiteral(b) => ExprViewKind::BoolLiteral(*b),
            ExprKind::ArrayLiteral(items) => ExprViewKind::ArrayLiteral(
                Seq::new(
                    items@.len(),
                    |i: int|
                        if 0 <= i < items@.len() {
                            items@[i].view_of()
                        } else {
                            vstd::pervasive::arbitrary()
                        },
                ),
            ),
            ExprKind::Variable(s) => ExprViewKind::Variable(s@),
            ExprKind::UnaryOp { op, operand } => ExprViewKind::UnaryOp {
                op: *op,
                operand: Box::new(operand.view_of()),
            },
            ExprKind::BinaryOp { left, op, right } => ExprViewKind::BinaryOp {
                left: Box::new(left.view_of()),
                op: *op,
                right: Box::new(right.view_of()),
            },
            ExprKind::FunctionCall { name, args } => ExprViewKind::FunctionCall {
                name: name@,
                args: Seq::new(
                    args@.len(),
                    |i: int|
                        if 0 <= i < args@.len() {
                            args@[i].view_of()
                        } else {
                            vstd::pervasive::arbitrary()
                        },
                ),
            },
            ExprKind::Range { start, end } => ExprViewKind::Range {
                start: Box::new(start.view_of()),
                end: Box::new(end.view_of()),
            },
        };
        ExprView { kind, span: self.span }
    }
}

impl View for Expr {
    type V = ExprView;

    open spec fn view(&self) -> ExprView {
        self.view_of()
    }
}

/// The views of a list of expressions.
pub open spec fn exprs_view(v: Seq<Expr>) -> Seq<ExprView> {
    Seq::new(v.len(), |i: int| v[i]@)
}

/// The views of a list of names.
pub open spec fn names_view(v: Seq<String>) -> Seq<Seq<char>> {
    Seq::new(v.len(), |i: int| v[i]@)
}

impl Stmt {
    pub open spec fn view_of(&self) -> StmtView
        decreases self,
    {
        let kind = match &self.kind {
            StmtKind::ExpressionStatement(e) => StmtViewKind::ExpressionStatement(e@),
            StmtKind::VariableDeclaration { name, value } => StmtViewKind::VariableDeclaration {
                name: name@,
                value: value@,
            },
            StmtKind::FunctionDef { name, params, body } => StmtViewKind::FunctionDef {
                name: name@,
                params: names_view(params@),
                body: Seq::new(
                    body@.len(),
                    |i: int|
                        if 0 <= i < body@.len() {
                            body@[i].view_of()
                        } else {
                            vstd::pervasive::arbitrary()
                        },
                ),
            },
            StmtKind::IfStatement { condition, then_branch, else_branch } =>
                StmtViewKind::IfStatement {
                condition: condition@,
                then_branch: Seq::new(
                    then_branch@.len(),
                    |i: int|
                        if 0 <= i < then_branch@.len() {
                            then_branch@[i].view_of()
                        } else {
                            vstd::pervasive::arbitrary()
                        },
                ),
                else_branch: match else_branch {
                    Some(b) => Some(
                        Seq::new(
                            b@.len(),
                            |i: int|
                                if 0 <= i < b@.len() {
                                    b@[i].view_of()
                                } else {
                                    vstd::pervasive::arbitrary()
                                },
                        ),
                    ),
                    None => None,
                },
            },
            StmtKind::WhileLoop { condition, body } => StmtViewKind::WhileLoop {
                condition: condition@,
                body: Seq::new(
                    body@.len(),
                    |i: int|
                        if 0 <= i < body@.len() {
                            body@[i].view_of()
                        } else {
                            vstd::pervasive::arbitrary()
                        },
                ),
            },
            StmtKind::ForLoop { variable, iterable, body } => StmtViewKind::ForLoop {
                variable: variable@,
                iterable: iterable@,
                body: Seq::new(
                    body@.len(),
                    |i: int|
                        if 0 <= i < body@.len() {
                            body@[i].view_of()
                        } else {
                            vstd::pervasive::arbitrary()
                        },
                ),
            },
            StmtKind::ReturnStatement { value } => StmtViewKind::ReturnStatement {
                value: match value {
                    Some(e) => Some(e@),
                    None => None,
                },
            },
        };
        StmtView { kind, span: self.span }
    }
}

impl View for Stmt {
    type V = StmtView;

    open spec fn view(&self) -> StmtView {
        self.view_of()
    }
}

/// The views of a list of statements.
pub open spec fn stmts_view(v: Seq<Stmt>) -> Seq<StmtView> {
    Seq::new(v.len(), |i: int| v[i]@)
}

} // verus!
