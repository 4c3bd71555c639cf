//! Node types of an alternative abstract syntax tree, in which every binary
//! operator is a `Binary` node tagged by its `BinOp`. Auxiliary nonterminals
//! introduced by left factoring (`ExpRest`, `NewRest`, ...) have no node of
//! their own: their result is absorbed by the parent node.

use vstd::prelude::*;

verus! {

#[derive(Debug, PartialEq)]
pub enum Type {
    Int,
    IntArray,
    Boolean,
    Class(String),
}

#[derive(Debug, PartialEq)]
pub struct VarDecl {
    pub ty: Type,
    pub name: String,
}

#[derive(Debug, PartialEq)]
pub struct MethodDecl {
    pub return_type: Type,
    pub name: String,
    pub params: Vec<VarDecl>,
    pub vars: Vec<VarDecl>,
    pub body: Vec<Stmt>,
    pub return_expr: Expr,
}

#[derive(Debug, PartialEq)]
pub struct ClassDecl {
    pub name: String,
    pub extends: Option<String>,
    pub vars: Vec<VarDecl>,
    pub methods: Vec<MethodDecl>,
}

#[derive(Debug, PartialEq)]
pub struct MainClass {
    pub name: String,
    pub args_name: String,
    pub body: Vec<Stmt>,
}

#[derive(Debug, PartialEq)]
pub struct Program {
    pub main: MainClass,
    pub classes: Vec<ClassDecl>,
}

#[derive(Debug, PartialEq)]
pub enum Stmt {
    Block(Vec<Stmt>),
    If(Expr, Box<Stmt>, Box<Stmt>),
    While(Expr, Box<Stmt>),
    Println(Expr),
    /// `lhs = expr;`
    Assign(String, Expr),
    /// `lhs[index] = expr;`
    ArrayAssign(String, Expr, Expr),
}

#[derive(Debug, Clone, Copy, PartialEq, Eq)]
pub enum BinOp {
    /// `&&`
    And,
    /// `<`
    Lt,
    /// `>`
    Gt,
    /// `+`
    Add,
    /// `-`
    Sub,
    /// `*`
    Mul,
}

#[derive(Debug, PartialEq)]
pub enum Expr {
    Number(String),
    Id(String),
    Bool(bool),
    This,
    /// `new ClassName()`
    NewObject(String),
    /// `new int[size]`
    NewIntArray(Box<Expr>),
    /// `!expr`
    Not(Box<Expr>),
    /// `lhs op rhs`
    Binary(BinOp, Box<Expr>, Box<Expr>),
    /// `array[index]`
    Index(Box<Expr>, Box<Expr>),
    /// `target.length`
    Length(Box<Expr>),
    /// `target.method(args)`
    Call(Box<Expr>, String, Vec<Expr>),
}

} // verus!
