//! The abstract syntax of XPL programs, and its mathematical model.
use vstd::prelude::*;

verus! {

/// An arithmetic operator.
#[derive(Clone, Copy, Debug, PartialEq, Eq, Structural)]
pub enum BinOp {
    Add,
    Subtract,
    Multiply,
    Divide,
    Modulus,
}

/// An expression.
#[derive(Debug, PartialEq)]
pub enum Expr {
    LiteralInt(i64),
    LiteralStr(String),
    VarRef(String),
    Call(String, Vec<Expr>),
    BinaryOp(BinOp, Box<Expr>, Box<Expr>),
}

/// A statement.
#[derive(Debug, PartialEq)]
pub enum Stmt {
    Assign { var: String, expr: Expr },
    Print(Expr),
    If { cond: Expr, then_body: Vec<Stmt>, else_body: Vec<Stmt> },
    Return(Expr),
    Call(String, Vec<Expr>),
    Loop { count: Expr, body: Vec<Stmt> },
}

/// A declared parameter of a function.
#[derive(Debug, PartialEq)]
pub struct Param {
    pub name: String,
    pub ptype: Option<String>,
    pub description: Option<String>,
}

/// A function definition.
#[derive(Debug, PartialEq)]
pub struct Function {
    pub name: String,
    pub description: Option<String>,
    pub params: Vec<Param>,
    pub body: Vec<Stmt>,
}

/// A parsed program: its description and its function table, which holds
/// at most one function of each name.
#[derive(Debug, PartialEq)]
pub struct Program {
    pub description: Option<String>,
    pub functions: Vec<Function>,
}

/// Model of an expression, with text as character sequences.
pub enum ExprM {
    LiteralInt(i64),
    LiteralStr(Seq<char>),
    VarRef(Seq<char>),
    Call(Seq<char>, Seq<ExprM>),
    BinaryOp(BinOp, Box<ExprM>, Box<ExprM>),
}

/// Model of a statement.
pub enum StmtM {
    Assign { var: Seq<char>, expr: ExprM },
    Print(ExprM),
    If { cond: ExprM, then_body: Seq<StmtM>, else_body: Seq<StmtM> },
    Return(ExprM),
    Call(Seq<char>, Seq<ExprM>),
    Loop { count: ExprM, body: Seq<StmtM> },
}

/// Model of a parameter.
pub struct ParamM {
    pub name: Seq<char>,
    pub ptype: Option<Seq<char>>,
    pub description: Option<Seq<char>>,
}

/// Model of a function.
pub struct FunctionM {
    pub name: Seq<char>,
    pub description: Option<Seq<char>>,
    pub params: Seq<ParamM>,
    pub body: Seq<StmtM>,
}

/// Model of a program.
pub struct ProgramM {
    pub description: Option<Seq<char>>,
    pub functions: Seq<FunctionM>,
}

pub open spec fn opt_text(o: Option<String>) -> Option<Seq<char>> {
    match o {
        Some(s) => Some(s@),
        None => None,
    }
}

pub open spec fn expr_model(e: Expr) -> ExprM
    decreases e,
{
    match e {
        Expr::LiteralInt(i) => ExprM::LiteralInt(i),
        Expr::LiteralStr(s) => ExprM::LiteralStr(s@),
        Expr::VarRef(s) => ExprM::VarRef(s@),
        Expr::Call(n, args) => ExprM::Call(n@, exprs_model(args@)),
        Expr::BinaryOp(op, l, r) => ExprM::BinaryOp(
            op,
            Box::new(expr_model(*l)),
            Box::new(expr_model(*r)),
        ),
    }
}

pub open spec fn exprs_model(s: Seq<Expr>) -> Seq<ExprM>
    decreases s,
{
    if s.len() == 0 {
        seq![]
    } else {
        exprs_model(s.drop_last()).push(expr_model(s.last()))
    }
}

pub open spec fn stmt_model(s: Stmt) -> StmtM
    decreases s,
{
    match s {
        Stmt::Assign { var, expr } => StmtM::Assign { var: var@, expr: expr_model(expr) },
        Stmt::Print(e) => StmtM::Print(expr_model(e)),
        Stmt::If { cond, then_body, else_body } => StmtM::If {
            cond: expr_model(cond),
            then_body: stmts_model(then_body@),
            else_body: stmts_model(else_body@),
        },
        Stmt::Return(e) => StmtM::Return(expr_model(e)),
        Stmt::Call(n, args) => StmtM::Call(n@, exprs_model(args@)),
        Stmt::Loop { count, body } => StmtM::Loop {
            count: expr_model(count),
            body: stmts_model(body@),
        },
    }
}

pub open spec fn stmts_model(s: Seq<Stmt>) -> Seq<StmtM>
    decreases s,
{
    if s.len() == 0 {
        seq![]
    } else {
        stmts_model(s.drop_last()).push(stmt_model(s.last()))
    }
}

impl View for Expr {
    type V = ExprM;

    open spec fn view(&self) -> ExprM {
        expr_model(*self)
    }
}

impl View for Stmt {
    type V = StmtM;

    open spec fn view(&self) -> StmtM {
        stmt_model(*self)
    }
}

impl View for Param {
    type V = ParamM;

    open spec fn view(&self) -> ParamM {
        ParamM {
            name: self.name@,
            ptype: opt_text(self.ptype),
            description: opt_text(self.description),
        }
    }
}

impl View for Function {
    type V = FunctionM;

    open spec fn view(&self) -> FunctionM {
        FunctionM {
            name: self.name@,
            description: opt_text(self.description),
            params: self.params@.map_values(|p: Param| p@),
            body: stmts_model(self.body@),
        }
    }
}

impl View for Program {
    type V = ProgramM;

    open spec fn view(&self) -> ProgramM {
        ProgramM {
            description: opt_text(self.description),
            functions: self.functions@.map_values(|f: Function| f@),
        }
    }
}

} // verus!
