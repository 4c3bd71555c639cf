//! Abstract syntax tree for the MiniJava variant, mirroring the official
//! grammar.
//!
//! Every node carries the source line/column of its leading token so the
//! semantic analyzer can report precise diagnostics. `Program::pretty` renders
//! the tree for the `--ast` flag; its output is specified by `pretty_program`.

use vstd::prelude::*;
use crate::text::{push_char, string_of};

verus! {

broadcast use vstd::string::group_string_axioms;

/// A primitive or user-defined type.
#[derive(Debug)]
pub enum Type {
    Int,
    Boolean,
    IntArray,
    /// User-defined class type (`Id`).
    Class(String),
}

/// Model of a type: class names are character sequences.
pub enum TypeV {
    Int,
    Boolean,
    IntArray,
    Class(Seq<char>),
}

impl View for Type {
    type V = TypeV;

    open spec fn view(&self) -> TypeV {
        match self {
            Type::Int => TypeV::Int,
            Type::Boolean => TypeV::Boolean,
            Type::IntArray => TypeV::IntArray,
            Type::Class(n) => TypeV::Class(n@),
        }
    }
}

impl Clone for Type {
    fn clone(&self) -> (r: Self)
        ensures
            r@ == self@,
    {
        match self {
            Type::Int => Type::Int,
            Type::Boolean => Type::Boolean,
            Type::IntArray => Type::IntArray,
            Type::Class(n) => Type::Class(n.clone()),
        }
    }
}

/// How a type is written in source and in diagnostics.
pub open spec fn type_display(t: TypeV) -> Seq<char> {
    match t {
        TypeV::Int => "int"@,
        TypeV::Boolean => "boolean"@,
        TypeV::IntArray => "int[]"@,
        TypeV::Class(name) => name,
    }
}

impl Type {
    pub fn display(&self) -> (r: String)
        ensures
            r@ == type_display(self@),
    {
        match self {
            Type::Int => string_of("int"),
            Type::Boolean => string_of("boolean"),
            Type::IntArray => string_of("int[]"),
            Type::Class(name) => name.clone(),
        }
    }

    /// Equality of types (class types compare by name).
    pub fn same(&self, other: &Type) -> (r: bool)
        ensures
            r == (self@ == other@),
    {
        match (self, other) {
            (Type::Int, Type::Int) => true,
            (Type::Boolean, Type::Boolean) => true,
            (Type::IntArray, Type::IntArray) => true,
            (Type::Class(a), Type::Class(b)) => *a == *b,
            _ => false,
        }
    }
}

#[derive(Debug)]
pub struct VarDecl {
    pub name: String,
    pub ty: Type,
    pub line: usize,
    pub column: usize,
}

#[derive(Debug)]
pub struct MethodDecl {
    pub name: String,
    pub ret_type: Type,
    pub params: Vec<VarDecl>,
    pub locals: Vec<VarDecl>,
    pub body: Vec<Stmt>,
    pub ret_expr: Exp,
    pub line: usize,
    pub column: usize,
}

#[derive(Debug)]
pub struct ClassDecl {
    pub name: String,
    pub parent: Option<String>,
    pub fields: Vec<VarDecl>,
    pub methods: Vec<MethodDecl>,
    pub line: usize,
    pub column: usize,
}

#[derive(Debug)]
pub struct MainClass {
    pub name: String,
    /// The `String[] args` parameter name.
    pub arg_name: String,
    pub body: Vec<Stmt>,
    pub line: usize,
    pub column: usize,
}

#[derive(Debug)]
pub struct Program {
    pub main: MainClass,
    pub classes: Vec<ClassDecl>,
}

#[derive(Debug)]
pub enum Stmt {
    /// `Id '=' Exp ';'`
    Assign { name: String, value: Exp, line: usize, column: usize },
    /// `Id '[' Exp ']' '=' Exp ';'`
    ArrayAssign { name: String, index: Exp, value: Exp, line: usize, column: usize },
    /// `'if' '(' Exp ')' '{' L_com '}' ('else' '{' L_com '}')?`
    If {
        cond: Exp,
        then_body: Vec<Stmt>,
        else_body: Option<Vec<Stmt>>,
        line: usize,
        column: usize,
    },
    /// `'while' '(' Exp ')' '{' L_com '}'`
    While { cond: Exp, body: Vec<Stmt>, line: usize, column: usize },
    /// `'System' '.' 'out' '.' 'println' '(' Exp ')' ';'`
    Println { value: Exp, line: usize, column: usize },
}

#[derive(Debug)]
pub struct Exp {
    pub kind: ExpKind,
    pub line: usize,
    pub column: usize,
}

#[derive(Debug)]
pub enum ExpKind {
    And(Box<Exp>, Box<Exp>),
    Less(Box<Exp>, Box<Exp>),
    Add(Box<Exp>, Box<Exp>),
    Sub(Box<Exp>, Box<Exp>),
    Mul(Box<Exp>, Box<Exp>),
    Not(Box<Exp>),
    /// `array '[' index ']'`
    Index { array: Box<Exp>, index: Box<Exp> },
    /// `receiver '.' 'length'`
    Length(Box<Exp>),
    /// `receiver '.' method '(' args ')'`
    Call { receiver: Box<Exp>, method: String, args: Vec<Exp> },
    /// `'new' Id '(' ')'`
    NewObject(String),
    /// `'new' 'int' '[' size ']'`
    NewArray(Box<Exp>),
    Id(String),
    Num(String),
    True,
    False,
    This,
}


// -------------------------------------------------------------------------
// Model of the tree: strings as character sequences, lists as sequences.
// -------------------------------------------------------------------------

pub struct VarDeclV {
    pub name: Seq<char>,
    pub ty: TypeV,
    pub line: usize,
    pub column: usize,
}

pub enum ExpKindV {
    And(Box<ExpV>, Box<ExpV>),
    Less(Box<ExpV>, Box<ExpV>),
    Add(Box<ExpV>, Box<ExpV>),
    Sub(Box<ExpV>, Box<ExpV>),
    Mul(Box<ExpV>, Box<ExpV>),
    Not(Box<ExpV>),
    Index { array: Box<ExpV>, index: Box<ExpV> },
    Length(Box<ExpV>),
    Call { receiver: Box<ExpV>, method: Seq<char>, args: Seq<ExpV> },
    NewObject(Seq<char>),
    NewArray(Box<ExpV>),
    Id(Seq<char>),
    Num(Seq<char>),
    True,
    False,
    This,
}

pub struct ExpV {
    pub kind: ExpKindV,
    pub line: usize,
    pub column: usize,
}

pub enum StmtV {
    Assign { name: Seq<char>, value: ExpV, line: usize, column: usize },
    ArrayAssign { name: Seq<char>, index: ExpV, value: ExpV, line: usize, column: usize },
    If {
        cond: ExpV,
        then_body: Seq<StmtV>,
        else_body: Option<Seq<StmtV>>,
        line: usize,
        column: usize,
    },
    While { cond: ExpV, body: Seq<StmtV>, line: usize, column: usize },
    Println { value: ExpV, line: usize, column: usize },
}

pub struct MethodDeclV {
    pub name: Seq<char>,
    pub ret_type: TypeV,
    pub params: Seq<VarDeclV>,
    pub locals: Seq<VarDeclV>,
    pub body: Seq<StmtV>,
    pub ret_expr: ExpV,
    pub line: usize,
    pub column: usize,
}

pub struct ClassDeclV {
    pub name: Seq<char>,
    pub parent: Option<Seq<char>>,
    pub fields: Seq<VarDeclV>,
    pub methods: Seq<MethodDeclV>,
    pub line: usize,
    pub column: usize,
}

pub struct MainClassV {
    pub name: Seq<char>,
    pub arg_name: Seq<char>,
    pub body: Seq<StmtV>,
    pub line: usize,
    pub column: usize,
}

pub struct ProgramV {
    pub main: MainClassV,
    pub classes: Seq<ClassDeclV>,
}

pub open spec fn var_view(v: VarDecl) -> VarDeclV {
    VarDeclV { name: v.name@, ty: v.ty@, line: v.line, column: v.column }
}

pub open spec fn vars_view(vs: Seq<VarDecl>) -> Seq<VarDeclV> {
    vs.map_values(|v: VarDecl| var_view(v))
}

pub open spec fn exp_view(e: Exp) -> ExpV
    decreases e,
{
    let kind = match e.kind {
        ExpKind::And(a, b) => ExpKindV::And(Box::new(exp_view(*a)), Box::new(exp_view(*b))),
        ExpKind::Less(a, b) => ExpKindV::Less(Box::new(exp_view(*a)), Box::new(exp_view(*b))),
        ExpKind::Add(a, b) => ExpKindV::Add(Box::new(exp_view(*a)), Box::new(exp_view(*b))),
        ExpKind::Sub(a, b) => ExpKindV::Sub(Box::new(exp_view(*a)), Box::new(exp_view(*b))),
        ExpKind::Mul(a, b) => ExpKindV::Mul(Box::new(exp_view(*a)), Box::new(exp_view(*b))),
        ExpKind::Not(a) => ExpKindV::Not(Box::new(exp_view(*a))),
        ExpKind::Index { array, index } => ExpKindV::Index {
            array: Box::new(exp_view(*array)),
            index: Box::new(exp_view(*index)),
        },
        ExpKind::Length(a) => ExpKindV::Length(Box::new(exp_view(*a))),
        ExpKind::Call { receiver, method, args } => ExpKindV::Call {
            receiver: Box::new(exp_view(*receiver)),
            method: method@,
            args: exps_view(args@),
        },
        ExpKind::NewObject(n) => ExpKindV::NewObject(n@),
        ExpKind::NewArray(a) => ExpKindV::NewArray(Box::new(exp_view(*a))),
        ExpKind::Id(n) => ExpKindV::Id(n@),
        ExpKind::Num(n) => ExpKindV::Num(n@),
        ExpKind::True => ExpKindV::True,
        ExpKind::False => ExpKindV::False,
        ExpKind::This => ExpKindV::This,
    };
    ExpV { kind, line: e.line, column: e.column }
}

pub open spec fn exps_view(es: Seq<Exp>) -> Seq<ExpV>
    decreases es,
{
    if es.len() == 0 {
        Seq::empty()
    } else {
        exps_view(es.subrange(0, es.len() - 1)).push(exp_view(es[es.len() - 1]))
    }
}

pub open spec fn stmt_view(s: Stmt) -> StmtV
    decreases s,
{
    match s {
        Stmt::Assign { name, value, line, column } => StmtV::Assign {
            name: name@,
            value: exp_view(value),
            line,
            column,
        },
        Stmt::ArrayAssign { name, index, value, line, column } => StmtV::ArrayAssign {
            name: name@,
            index: exp_view(index),
            value: exp_view(value),
            line,
            column,
        },
        Stmt::If { cond, then_body, else_body, line, column } => StmtV::If {
            cond: exp_view(cond),
            then_body: stmts_view(then_body@),
            else_body: match else_body {
                Some(b) => Some(stmts_view(b@)),
                None => None,
            },
            line,
            column,
        },
        Stmt::While { cond, body, line, column } => StmtV::While {
            cond: exp_view(cond),
            body: stmts_view(body@),
            line,
            column,
        },
        Stmt::Println { value, line, column } => StmtV::Println { value: exp_view(value), line, column },
    }
}

pub open spec fn stmts_view(ss: Seq<Stmt>) -> Seq<StmtV>
    decreases ss,
{
    if ss.len() == 0 {
        Seq::empty()
    } else {
        stmts_view(ss.subrange(0, ss.len() - 1)).push(stmt_view(ss[ss.len() - 1]))
    }
}

pub open spec fn method_view(m: MethodDecl) -> MethodDeclV {
    MethodDeclV {
        name: m.name@,
        ret_type: m.ret_type@,
        params: vars_view(m.params@),
        locals: vars_view(m.locals@),
        body: stmts_view(m.body@),
        ret_expr: exp_view(m.ret_expr),
        line: m.line,
        column: m.column,
    }
}

pub open spec fn class_view(c: ClassDecl) -> ClassDeclV {
    ClassDeclV {
        name: c.name@,
        parent: match c.parent {
            Some(p) => Some(p@),
            None => None,
        },
        fields: vars_view(c.fields@),
        methods: c.methods@.map_values(|m: MethodDecl| method_view(m)),
        line: c.line,
        column: c.column,
    }
}

pub open spec fn main_view(m: MainClass) -> MainClassV {
    MainClassV { name: m.name@, arg_name: m.arg_name@, body: stmts_view(m.body@), line: m.line, column: m.column }
}

pub open spec fn program_view(p: Program) -> ProgramV {
    ProgramV { main: main_view(p.main), classes: p.classes@.map_values(|c: ClassDecl| class_view(c)) }
}

/// The model of a list with one more expression.
pub proof fn lemma_exps_view_push(es: Seq<Exp>, e: Exp)
    ensures
        exps_view(es.push(e)) == exps_view(es).push(exp_view(e)),
{
    assert(es.push(e).subrange(0, es.len() as int) =~= es);
}

/// The model of a list with one more statement.
pub proof fn lemma_stmts_view_push(ss: Seq<Stmt>, s: Stmt)
    ensures
        stmts_view(ss.push(s)) == stmts_view(ss).push(stmt_view(s)),
{
    assert(ss.push(s).subrange(0, ss.len() as int) =~= ss);
}

// -------------------------------------------------------------------------
// Pretty-printer for the `--ast` flag.
// -------------------------------------------------------------------------

pub open spec fn max_nat(a: nat, b: nat) -> nat {
    if a >= b { a } else { b }
}

/// Nesting height of an expression, two levels of indentation per node.
pub open spec fn exp_height(e: Exp) -> nat
    decreases e,
{
    match e.kind {
        ExpKind::And(a, b) => 2 + max_nat(exp_height(*a), exp_height(*b)),
        ExpKind::Less(a, b) => 2 + max_nat(exp_height(*a), exp_height(*b)),
        ExpKind::Add(a, b) => 2 + max_nat(exp_height(*a), exp_height(*b)),
        ExpKind::Sub(a, b) => 2 + max_nat(exp_height(*a), exp_height(*b)),
        ExpKind::Mul(a, b) => 2 + max_nat(exp_height(*a), exp_height(*b)),
        ExpKind::Not(a) => 2 + exp_height(*a),
        ExpKind::Index { array, index } => 2 + max_nat(exp_height(*array), exp_height(*index)),
        ExpKind::Length(a) => 2 + exp_height(*a),
        ExpKind::Call { receiver, method, args } => 2 + max_nat(
            exp_height(*receiver),
            exps_height(args@),
        ),
        ExpKind::NewArray(a) => 2 + exp_height(*a),
        _ => 2,
    }
}

pub open spec fn exps_height(es: Seq<Exp>) -> nat
    decreases es,
{
    if es.len() == 0 {
        0
    } else {
        max_nat(exps_height(es.subrange(0, es.len() - 1)), exp_height(es[es.len() - 1]))
    }
}

/// Nesting height of a statement, two levels of indentation per node.
pub open spec fn stmt_height(s: Stmt) -> nat
    decreases s,
{
    match s {
        Stmt::Assign { value, .. } => 2 + exp_height(value),
        Stmt::ArrayAssign { index, value, .. } => 2 + max_nat(exp_height(index), exp_height(value)),
        Stmt::If { cond, then_body, else_body, .. } => 2 + max_nat(
            exp_height(cond),
            max_nat(
                stmts_height(then_body@),
                match else_body {
                    Some(b) => stmts_height(b@),
                    None => 0,
                },
            ),
        ),
        Stmt::While { cond, body, .. } => 2 + max_nat(exp_height(cond), stmts_height(body@)),
        Stmt::Println { value, .. } => 2 + exp_height(value),
    }
}

pub open spec fn stmts_height(ss: Seq<Stmt>) -> nat
    decreases ss,
{
    if ss.len() == 0 {
        0
    } else {
        max_nat(stmts_height(ss.subrange(0, ss.len() - 1)), stmt_height(ss[ss.len() - 1]))
    }
}

/// `depth` levels of two-space indentation.
pub open spec fn indent_spec(depth: nat) -> Seq<char> {
    Seq::new(2 * depth, |i: int| ' ')
}

/// One output line at the given depth.
pub open spec fn out_line(depth: nat, text: Seq<char>) -> Seq<char> {
    indent_spec(depth) + text + seq!['\n']
}

/// Rendering of an expression at the given depth.
pub open spec fn pretty_exp(e: Exp, d: nat) -> Seq<char>
    decreases e,
{
    match e.kind {
        ExpKind::And(a, b) => out_line(d, "And"@) + pretty_exp(*a, d + 1) + pretty_exp(*b, d + 1),
        ExpKind::Less(a, b) => out_line(d, "Less"@) + pretty_exp(*a, d + 1) + pretty_exp(*b, d + 1),
        ExpKind::Add(a, b) => out_line(d, "Add"@) + pretty_exp(*a, d + 1) + pretty_exp(*b, d + 1),
        ExpKind::Sub(a, b) => out_line(d, "Sub"@) + pretty_exp(*a, d + 1) + pretty_exp(*b, d + 1),
        ExpKind::Mul(a, b) => out_line(d, "Mul"@) + pretty_exp(*a, d + 1) + pretty_exp(*b, d + 1),
        ExpKind::Not(a) => out_line(d, "Not"@) + pretty_exp(*a, d + 1),
        ExpKind::Index { array, index } => out_line(d, "Index"@) + pretty_exp(*array, d + 1)
            + pretty_exp(*index, d + 1),
        ExpKind::Length(a) => out_line(d, "Length"@) + pretty_exp(*a, d + 1),
        ExpKind::Call { receiver, method, args } => out_line(d, "Call ."@ + method@ + "()"@)
            + pretty_exp(*receiver, d + 1) + pretty_exps(args@, d + 1),
        ExpKind::NewObject(name) => out_line(d, "NewObject "@ + name@),
        ExpKind::NewArray(size) => out_line(d, "NewArray int[]"@) + pretty_exp(*size, d + 1),
        ExpKind::Id(name) => out_line(d, "Id "@ + name@),
        ExpKind::Num(n) => out_line(d, "Num "@ + n@),
        ExpKind::True => out_line(d, "True"@),
        ExpKind::False => out_line(d, "False"@),
        ExpKind::This => out_line(d, "This"@),
    }
}

/// Rendering of a list of expressions, one after the other.
pub open spec fn pretty_exps(es: Seq<Exp>, d: nat) -> Seq<char>
    decreases es,
{
    if es.len() == 0 {
        Seq::empty()
    } else {
        pretty_exps(es.subrange(0, es.len() - 1), d) + pretty_exp(es[es.len() - 1], d)
    }
}

/// Rendering of a statement at the given depth.
pub open spec fn pretty_stmt(s: Stmt, d: nat) -> Seq<char>
    decreases s,
{
    match s {
        Stmt::Assign { name, value, .. } => out_line(d, "Assign "@ + name@) + pretty_exp(
            value,
            d + 1,
        ),
        Stmt::ArrayAssign { name, index, value, .. } => out_line(d, "ArrayAssign "@ + name@)
            + out_line(d + 1, "index:"@) + pretty_exp(index, d + 2) + out_line(d + 1, "value:"@)
            + pretty_exp(value, d + 2),
        Stmt::If { cond, then_body, else_body, .. } => out_line(d, "If"@) + out_line(
            d + 1,
            "cond:"@,
        ) + pretty_exp(cond, d + 2) + out_line(d + 1, "then:"@) + pretty_stmts(then_body@, d + 2)
            + match else_body {
            Some(b) => out_line(d + 1, "else:"@) + pretty_stmts(b@, d + 2),
            None => Seq::empty(),
        },
        Stmt::While { cond, body, .. } => out_line(d, "While"@) + out_line(d + 1, "cond:"@)
            + pretty_exp(cond, d + 2) + out_line(d + 1, "body:"@) + pretty_stmts(body@, d + 2),
        Stmt::Println { value, .. } => out_line(d, "Println"@) + pretty_exp(value, d + 1),
    }
}

/// Rendering of a list of statements, one after the other.
pub open spec fn pretty_stmts(ss: Seq<Stmt>, d: nat) -> Seq<char>
    decreases ss,
{
    if ss.len() == 0 {
        Seq::empty()
    } else {
        pretty_stmts(ss.subrange(0, ss.len() - 1), d) + pretty_stmt(ss[ss.len() - 1], d)
    }
}

proof fn lemma_exps_height(es: Seq<Exp>, i: int)
    requires
        0 <= i < es.len(),
    ensures
        exp_height(es[i]) <= exps_height(es),
    decreases es.len(),
{
    if i < es.len() - 1 {
        lemma_exps_height(es.subrange(0, es.len() - 1), i);
        assert(es.subrange(0, es.len() - 1)[i] == es[i]);
    }
}

proof fn lemma_stmts_height(ss: Seq<Stmt>, i: int)
    requires
        0 <= i < ss.len(),
    ensures
        stmt_height(ss[i]) <= stmts_height(ss),
    decreases ss.len(),
{
    if i < ss.len() - 1 {
        lemma_stmts_height(ss.subrange(0, ss.len() - 1), i);
        assert(ss.subrange(0, ss.len() - 1)[i] == ss[i]);
    }
}

fn indent(out: &mut String, depth: usize)
    ensures
        final(out)@ == old(out)@ + indent_spec(depth as nat),
{
    let mut i: usize = 0;
    while i < depth
        invariant
            i <= depth,
            out@ == old(out)@ + indent_spec(i as nat),
        decreases depth - i,
    {
        push_char(out, ' ');
        push_char(out, ' ');
        i = i + 1;
        assert(out@ =~= old(out)@ + indent_spec(i as nat));
    }
}

/// Appends `text` as one line at the given depth.
fn write_line(out: &mut String, depth: usize, text: &str)
    ensures
        final(out)@ == old(out)@ + out_line(depth as nat, text@),
{
    indent(out, depth);
    out.append(text);
    push_char(out, '\n');
    assert(final(out)@ =~= old(out)@ + out_line(depth as nat, text@));
}

/// Appends `a ++ b` as one line at the given depth.
fn write_line2(out: &mut String, depth: usize, a: &str, b: &str)
    ensures
        final(out)@ == old(out)@ + out_line(depth as nat, a@ + b@),
{
    indent(out, depth);
    out.append(a);
    out.append(b);
    push_char(out, '\n');
    assert(final(out)@ =~= old(out)@ + out_line(depth as nat, a@ + b@));
}

impl Exp {
    fn pretty(&self, out: &mut String, depth: usize)
        requires
            depth + exp_height(*self) <= usize::MAX,
        ensures
            final(out)@ == old(out)@ + pretty_exp(*self, depth as nat),
        decreases self,
    {
        let ghost o = out@;
        match &self.kind {
            ExpKind::And(a, b) => {
                write_line(out, depth, "And");
                a.pretty(out, depth + 1);
                b.pretty(out, depth + 1);
            },
            ExpKind::Less(a, b) => {
                write_line(out, depth, "Less");
                a.pretty(out, depth + 1);
                b.pretty(out, depth + 1);
            },
            ExpKind::Add(a, b) => {
                write_line(out, depth, "Add");
                a.pretty(out, depth + 1);
                b.pretty(out, depth + 1);
            },
            ExpKind::Sub(a, b) => {
                write_line(out, depth, "Sub");
                a.pretty(out, depth + 1);
                b.pretty(out, depth + 1);
            },
            ExpKind::Mul(a, b) => {
                write_line(out, depth, "Mul");
                a.pretty(out, depth + 1);
                b.pretty(out, depth + 1);
            },
            ExpKind::Not(a) => {
                write_line(out, depth, "Not");
                a.pretty(out, depth + 1);
            },
            ExpKind::Index { array, index } => {
                write_line(out, depth, "Index");
                array.pretty(out, depth + 1);
                index.pretty(out, depth + 1);
            },
            ExpKind::Length(a) => {
                write_line(out, depth, "Length");
                a.pretty(out, depth + 1);
            },
            ExpKind::Call { receiver, method, args } => {
                indent(out, depth);
                out.append("Call .");
                out.append(method.as_str());
                out.append("()");
                push_char(out, '\n');
                assert(out@ =~= o + out_line(depth as nat, "Call ."@ + method@ + "()"@));
                receiver.pretty(out, depth + 1);
                let ghost mid = out@;
                let mut i: usize = 0;
                while i < args.len()
                    invariant
                        i <= args@.len(),
                        self.kind is Call,
                        *args == self.kind->Call_args,
                        depth + 1 + exps_height(args@) <= usize::MAX,
                        out@ == mid + pretty_exps(args@.subrange(0, i as int), depth as nat + 1),
                    decreases args@.len() - i,
                {
                    proof {
                        lemma_exps_height(args@, i as int);
                        assert(decreases_to!(*self => self.kind));
                        assert(decreases_to!(self.kind => self.kind->Call_args));
                        assert(decreases_to!(self.kind->Call_args => self.kind->Call_args@));
                        assert(decreases_to!(self.kind->Call_args@ => self.kind->Call_args@[i as int]));
                    }
                    args[i].pretty(out, depth + 1);
                    proof {
                        let sub = args@.subrange(0, i + 1);
                        assert(sub.subrange(0, sub.len() - 1) =~= args@.subrange(0, i as int));
                    }
                    i = i + 1;
                }
                assert(args@.subrange(0, args@.len() as int) =~= args@);
            },
            ExpKind::NewObject(name) => {
                write_line2(out, depth, "NewObject ", name.as_str());
            },
            ExpKind::NewArray(size) => {
                write_line(out, depth, "NewArray int[]");
                size.pretty(out, depth + 1);
            },
            ExpKind::Id(name) => {
                write_line2(out, depth, "Id ", name.as_str());
            },
            ExpKind::Num(n) => {
                write_line2(out, depth, "Num ", n.as_str());
            },
            ExpKind::True => {
                write_line(out, depth, "True");
            },
            ExpKind::False => {
                write_line(out, depth, "False");
            },
            ExpKind::This => {
                write_line(out, depth, "This");
            },
        }
        assert(out@ =~= o + pretty_exp(*self, depth as nat));
    }
}


impl Stmt {
    #[verifier::rlimit(60)]
    fn pretty(&self, out: &mut String, depth: usize)
        requires
            depth + stmt_height(*self) <= usize::MAX,
        ensures
            final(out)@ == old(out)@ + pretty_stmt(*self, depth as nat),
        decreases self,
    {
        let ghost o = out@;
        match self {
            Stmt::Assign { name, value, .. } => {
                write_line2(out, depth, "Assign ", name.as_str());
                value.pretty(out, depth + 1);
            },
            Stmt::ArrayAssign { name, index, value, .. } => {
                write_line2(out, depth, "ArrayAssign ", name.as_str());
                write_line(out, depth + 1, "index:");
                index.pretty(out, depth + 2);
                write_line(out, depth + 1, "value:");
                value.pretty(out, depth + 2);
            },
            Stmt::If { cond, then_body, else_body, .. } => {
                write_line(out, depth, "If");
                write_line(out, depth + 1, "cond:");
                cond.pretty(out, depth + 2);
                write_line(out, depth + 1, "then:");
                proof {
                    assert(decreases_to!(*self => self->If_then_body));
                }
                pretty_stmt_list(then_body, out, depth + 2);
                match else_body {
                    Some(eb) => {
                        write_line(out, depth + 1, "else:");
                        proof {
                            assert(decreases_to!(*self => self->If_else_body));
                            assert(decreases_to!(self->If_else_body => self->If_else_body->0));
                        }
                        pretty_stmt_list(eb, out, depth + 2);
                    },
                    None => {},
                }
            },
            Stmt::While { cond, body, .. } => {
                write_line(out, depth, "While");
                write_line(out, depth + 1, "cond:");
                cond.pretty(out, depth + 2);
                write_line(out, depth + 1, "body:");
                proof {
                    assert(decreases_to!(*self => self->While_body));
                }
                pretty_stmt_list(body, out, depth + 2);
            },
            Stmt::Println { value, .. } => {
                write_line(out, depth, "Println");
                value.pretty(out, depth + 1);
            },
        }
        assert(out@ =~= o + pretty_stmt(*self, depth as nat));
    }
}

/// Renders a statement list, one statement after the other.
fn pretty_stmt_list(ss: &Vec<Stmt>, out: &mut String, depth: usize)
    requires
        depth + stmts_height(ss@) <= usize::MAX,
    ensures
        final(out)@ == old(out)@ + pretty_stmts(ss@, depth as nat),
    decreases ss,
{
    let mut i: usize = 0;
    while i < ss.len()
        invariant
            i <= ss@.len(),
            depth + stmts_height(ss@) <= usize::MAX,
            out@ == old(out)@ + pretty_stmts(ss@.subrange(0, i as int), depth as nat),
        decreases ss@.len() - i,
    {
        proof {
            lemma_stmts_height(ss@, i as int);
            assert(decreases_to!(*ss => ss@));
            assert(decreases_to!(ss@ => ss@[i as int]));
        }
        ss[i].pretty(out, depth);
        proof {
            let sub = ss@.subrange(0, i + 1);
            assert(sub.subrange(0, sub.len() - 1) =~= ss@.subrange(0, i as int));
        }
        i = i + 1;
    }
    assert(ss@.subrange(0, ss@.len() as int) =~= ss@);
}

/// `name: type`.
pub open spec fn var_text(v: VarDecl) -> Seq<char> {
    v.name@ + ": "@ + type_display(v.ty@)
}

/// One line per declaration, each `label name: type`.
pub open spec fn var_lines(vs: Seq<VarDecl>, d: nat, label: Seq<char>) -> Seq<char>
    decreases vs.len(),
{
    if vs.len() == 0 {
        Seq::empty()
    } else {
        var_lines(vs.drop_last(), d, label) + out_line(d, label + var_text(vs.last()))
    }
}

/// Parameters as `name: type`, separated by `, `.
pub open spec fn params_text(ps: Seq<VarDecl>) -> Seq<char>
    decreases ps.len(),
{
    if ps.len() == 0 {
        Seq::empty()
    } else if ps.len() == 1 {
        var_text(ps[0])
    } else {
        params_text(ps.drop_last()) + ", "@ + var_text(ps.last())
    }
}

pub open spec fn method_height(m: MethodDecl) -> nat {
    max_nat(stmts_height(m.body@), exp_height(m.ret_expr))
}

pub open spec fn methods_height(ms: Seq<MethodDecl>) -> nat
    decreases ms.len(),
{
    if ms.len() == 0 {
        0
    } else {
        max_nat(methods_height(ms.drop_last()), method_height(ms.last()))
    }
}

pub open spec fn classes_height(cs: Seq<ClassDecl>) -> nat
    decreases cs.len(),
{
    if cs.len() == 0 {
        0
    } else {
        max_nat(classes_height(cs.drop_last()), methods_height(cs.last().methods@))
    }
}

/// Nesting height of the whole program.
pub open spec fn program_height(p: Program) -> nat {
    max_nat(stmts_height(p.main.body@), classes_height(p.classes@))
}

pub open spec fn pretty_method(m: MethodDecl, d: nat) -> Seq<char> {
    out_line(
        d,
        "Method "@ + m.name@ + "("@ + params_text(m.params@) + ") -> "@ + type_display(
            m.ret_type@,
        ),
    ) + var_lines(m.locals@, d + 1, "Local "@) + pretty_stmts(m.body@, d + 1) + out_line(
        d + 1,
        "Return"@,
    ) + pretty_exp(m.ret_expr, d + 2)
}

pub open spec fn pretty_methods(ms: Seq<MethodDecl>, d: nat) -> Seq<char>
    decreases ms.len(),
{
    if ms.len() == 0 {
        Seq::empty()
    } else {
        pretty_methods(ms.drop_last(), d) + pretty_method(ms.last(), d)
    }
}

pub open spec fn pretty_class(c: ClassDecl, d: nat) -> Seq<char> {
    out_line(
        d,
        match c.parent {
            Some(p) => "Class "@ + c.name@ + " extends "@ + p@,
            None => "Class "@ + c.name@,
        },
    ) + var_lines(c.fields@, d + 1, "Field "@) + pretty_methods(c.methods@, d + 1)
}

pub open spec fn pretty_classes(cs: Seq<ClassDecl>, d: nat) -> Seq<char>
    decreases cs.len(),
{
    if cs.len() == 0 {
        Seq::empty()
    } else {
        pretty_classes(cs.drop_last(), d) + pretty_class(cs.last(), d)
    }
}

pub open spec fn pretty_main(m: MainClass, d: nat) -> Seq<char> {
    out_line(d, "MainClass "@ + m.name@ + " (args: "@ + m.arg_name@ + ")"@) + pretty_stmts(
        m.body@,
        d + 1,
    )
}

/// The `--ast` rendering of a program.
pub open spec fn pretty_program(p: Program) -> Seq<char> {
    "Program\n"@ + pretty_main(p.main, 1) + pretty_classes(p.classes@, 1)
}

fn push_var_lines(out: &mut String, vs: &Vec<VarDecl>, depth: usize, label: &str)
    ensures
        final(out)@ == old(out)@ + var_lines(vs@, depth as nat, label@),
{
    let mut i: usize = 0;
    while i < vs.len()
        invariant
            i <= vs@.len(),
            out@ == old(out)@ + var_lines(vs@.subrange(0, i as int), depth as nat, label@),
        decreases vs@.len() - i,
    {
        let v = &vs[i];
        let ty = v.ty.display();
        indent(out, depth);
        out.append(label);
        out.append(v.name.as_str());
        out.append(": ");
        out.append(ty.as_str());
        push_char(out, '\n');
        proof {
            let sub = vs@.subrange(0, i + 1);
            assert(sub.drop_last() =~= vs@.subrange(0, i as int));
            assert(out@ =~= old(out)@ + var_lines(sub, depth as nat, label@));
        }
        i = i + 1;
    }
    assert(vs@.subrange(0, vs@.len() as int) =~= vs@);
}

impl MethodDecl {
    fn pretty(&self, out: &mut String, depth: usize)
        requires
            depth + 2 + method_height(*self) <= usize::MAX,
        ensures
            final(out)@ == old(out)@ + pretty_method(*self, depth as nat),
    {
        let ghost o = out@;
        indent(out, depth);
        out.append("Method ");
        out.append(self.name.as_str());
        out.append("(");
        let mut i: usize = 0;
        let ghost before_params = out@;
        while i < self.params.len()
            invariant
                i <= self.params@.len(),
                out@ == before_params + params_text(self.params@.subrange(0, i as int)),
            decreases self.params@.len() - i,
        {
            let p = &self.params[i];
            let ty = p.ty.display();
            if i > 0 {
                out.append(", ");
            }
            out.append(p.name.as_str());
            out.append(": ");
            out.append(ty.as_str());
            proof {
                let sub = self.params@.subrange(0, i + 1);
                assert(sub.drop_last() =~= self.params@.subrange(0, i as int));
                if i == 0 {
                    assert(params_text(self.params@.subrange(0, 0)) =~= Seq::<char>::empty());
                }
                assert(out@ =~= before_params + params_text(sub));
            }
            i = i + 1;
        }
        assert(self.params@.subrange(0, self.params@.len() as int) =~= self.params@);
        let ret = self.ret_type.display();
        out.append(") -> ");
        out.append(ret.as_str());
        push_char(out, '\n');
        assert(out@ =~= o + out_line(
            depth as nat,
            "Method "@ + self.name@ + "("@ + params_text(self.params@) + ") -> "@ + type_display(
                self.ret_type@,
            ),
        ));
        push_var_lines(out, &self.locals, depth + 1, "Local ");
        pretty_stmt_list(&self.body, out, depth + 1);
        write_line(out, depth + 1, "Return");
        self.ret_expr.pretty(out, depth + 2);
        assert(out@ =~= o + pretty_method(*self, depth as nat));
    }
}

proof fn lemma_methods_height(ms: Seq<MethodDecl>, i: int)
    requires
        0 <= i < ms.len(),
    ensures
        method_height(ms[i]) <= methods_height(ms),
    decreases ms.len(),
{
    if i < ms.len() - 1 {
        lemma_methods_height(ms.drop_last(), i);
    }
}

proof fn lemma_classes_height(cs: Seq<ClassDecl>, i: int)
    requires
        0 <= i < cs.len(),
    ensures
        methods_height(cs[i].methods@) <= classes_height(cs),
    decreases cs.len(),
{
    if i < cs.len() - 1 {
        lemma_classes_height(cs.drop_last(), i);
    }
}

impl ClassDecl {
    fn pretty(&self, out: &mut String, depth: usize)
        requires
            depth + 3 + methods_height(self.methods@) <= usize::MAX,
        ensures
            final(out)@ == old(out)@ + pretty_class(*self, depth as nat),
    {
        let ghost o = out@;
        match &self.parent {
            Some(p) => {
                indent(out, depth);
                out.append("Class ");
                out.append(self.name.as_str());
                out.append(" extends ");
                out.append(p.as_str());
                push_char(out, '\n');
            },
            None => {
                write_line2(out, depth, "Class ", self.name.as_str());
            },
        }
        assert(out@ =~= o + out_line(
            depth as nat,
            match self.parent {
                Some(p) => "Class "@ + self.name@ + " extends "@ + p@,
                None => "Class "@ + self.name@,
            },
        ));
        push_var_lines(out, &self.fields, depth + 1, "Field ");
        let ghost mid = out@;
        let mut i: usize = 0;
        while i < self.methods.len()
            invariant
                i <= self.methods@.len(),
                depth + 3 + methods_height(self.methods@) <= usize::MAX,
                out@ == mid + pretty_methods(self.methods@.subrange(0, i as int), depth as nat + 1),
            decreases self.methods@.len() - i,
        {
            proof {
                lemma_methods_height(self.methods@, i as int);
            }
            self.methods[i].pretty(out, depth + 1);
            proof {
                let sub = self.methods@.subrange(0, i + 1);
                assert(sub.drop_last() =~= self.methods@.subrange(0, i as int));
            }
            i = i + 1;
        }
        assert(self.methods@.subrange(0, self.methods@.len() as int) =~= self.methods@);
        assert(out@ =~= o + pretty_class(*self, depth as nat));
    }
}

impl MainClass {
    fn pretty(&self, out: &mut String, depth: usize)
        requires
            depth + 1 + stmts_height(self.body@) <= usize::MAX,
        ensures
            final(out)@ == old(out)@ + pretty_main(*self, depth as nat),
    {
        let ghost o = out@;
        indent(out, depth);
        out.append("MainClass ");
        out.append(self.name.as_str());
        out.append(" (args: ");
        out.append(self.arg_name.as_str());
        out.append(")");
        push_char(out, '\n');
        assert(out@ =~= o + out_line(
            depth as nat,
            "MainClass "@ + self.name@ + " (args: "@ + self.arg_name@ + ")"@,
        ));
        pretty_stmt_list(&self.body, out, depth + 1);
        assert(out@ =~= o + pretty_main(*self, depth as nat));
    }
}

impl Program {
    /// The tree rendered one node per line, children indented two spaces
    /// deeper than their parent.
    pub fn pretty(&self) -> (r: String)
        requires
            program_height(*self) + 4 <= usize::MAX,
        ensures
            r@ == pretty_program(*self),
    {
        let mut out = String::new();
        out.append("Program\n");
        self.main.pretty(&mut out, 1);
        let ghost mid = out@;
        let mut i: usize = 0;
        while i < self.classes.len()
            invariant
                i <= self.classes@.len(),
                program_height(*self) + 4 <= usize::MAX,
                out@ == mid + pretty_classes(self.classes@.subrange(0, i as int), 1),
            decreases self.classes@.len() - i,
        {
            proof {
                lemma_classes_height(self.classes@, i as int);
            }
            self.classes[i].pretty(&mut out, 1);
            proof {
                let sub = self.classes@.subrange(0, i + 1);
                assert(sub.drop_last() =~= self.classes@.subrange(0, i as int));
            }
            i = i + 1;
        }
        assert(self.classes@.subrange(0, self.classes@.len() as int) =~= self.classes@);
        assert(out@ =~= pretty_program(*self));
        out
    }
}

// -------------------------------------------------------------------------
// Nesting height, computed.
// -------------------------------------------------------------------------

/// `h`, when it fits, for a height that is `h` exactly or beyond the
/// machine's range.
pub open spec fn height_result(r: Option<usize>, h: nat) -> bool {
    match r {
        Some(x) => x == h,
        None => h > usize::MAX,
    }
}

fn max_height(a: Option<usize>, b: Option<usize>) -> (r: Option<usize>)
    ensures
        forall|x: nat, y: nat| height_result(a, x) && height_result(b, y) ==> height_result(r, max_nat(x, y)),
{
    match (a, b) {
        (Some(x), Some(y)) => Some(if x >= y { x } else { y }),
        _ => None,
    }
}

fn plus_two(a: Option<usize>) -> (r: Option<usize>)
    ensures
        forall|x: nat| height_result(a, x) ==> height_result(r, x + 2),
{
    match a {
        Some(x) => x.checked_add(2),
        None => None,
    }
}

impl Exp {
    /// `exp_height`, when it fits in a `usize`.
    pub fn height(&self) -> (r: Option<usize>)
        ensures
            height_result(r, exp_height(*self)),
        decreases self,
    {
        match &self.kind {
            ExpKind::And(a, b) => plus_two(max_height(a.height(), b.height())),
            ExpKind::Less(a, b) => plus_two(max_height(a.height(), b.height())),
            ExpKind::Add(a, b) => plus_two(max_height(a.height(), b.height())),
            ExpKind::Sub(a, b) => plus_two(max_height(a.height(), b.height())),
            ExpKind::Mul(a, b) => plus_two(max_height(a.height(), b.height())),
            ExpKind::Not(a) => plus_two(a.height()),
            ExpKind::Index { array, index } => plus_two(max_height(array.height(), index.height())),
            ExpKind::Length(a) => plus_two(a.height()),
            ExpKind::Call { receiver, method, args } => {
                let mut acc: Option<usize> = Some(0);
                let mut i: usize = 0;
                assert(args@.subrange(0, 0) =~= Seq::<Exp>::empty());
                while i < args.len()
                    invariant
                        i <= args@.len(),
                        self.kind is Call,
                        *args == self.kind->Call_args,
                        height_result(acc, exps_height(args@.subrange(0, i as int))),
                    decreases args@.len() - i,
                {
                    proof {
                        assert(decreases_to!(*self => self.kind));
                        assert(decreases_to!(self.kind => self.kind->Call_args));
                        assert(decreases_to!(self.kind->Call_args => self.kind->Call_args@));
                        assert(decreases_to!(self.kind->Call_args@ => self.kind->Call_args@[i as int]));
                    }
                    let h = args[i].height();
                    proof {
                        let sub = args@.subrange(0, i + 1);
                        assert(sub.subrange(0, sub.len() - 1) =~= args@.subrange(0, i as int));
                    }
                    acc = max_height(acc, h);
                    i = i + 1;
                }
                assert(args@.subrange(0, args@.len() as int) =~= args@);
                plus_two(max_height(receiver.height(), acc))
            },
            ExpKind::NewArray(a) => plus_two(a.height()),
            _ => Some(2),
        }
    }
}

impl Stmt {
    /// `stmt_height`, when it fits in a `usize`.
    pub fn height(&self) -> (r: Option<usize>)
        ensures
            height_result(r, stmt_height(*self)),
        decreases self, 0nat,
    {
        match self {
            Stmt::Assign { value, .. } => plus_two(value.height()),
            Stmt::ArrayAssign { index, value, .. } => plus_two(max_height(index.height(), value.height())),
            Stmt::If { cond, then_body, else_body, .. } => {
                proof {
                    assert(decreases_to!(*self => self->If_then_body));
                    assert(decreases_to!(self->If_then_body => self->If_then_body@));
                }
                let t = stmts_height_exec(then_body);
                let e = match else_body {
                    Some(b) => {
                        proof {
                            assert(decreases_to!(*self => self->If_else_body));
                            assert(decreases_to!(self->If_else_body => self->If_else_body->0));
                            assert(decreases_to!(self->If_else_body->0 => self->If_else_body->0@));
                        }
                        stmts_height_exec(b)
                    },
                    None => Some(0),
                };
                plus_two(max_height(cond.height(), max_height(t, e)))
            },
            Stmt::While { cond, body, .. } => {
                proof {
                    assert(decreases_to!(*self => self->While_body));
                    assert(decreases_to!(self->While_body => self->While_body@));
                }
                plus_two(max_height(cond.height(), stmts_height_exec(body)))
            },
            Stmt::Println { value, .. } => plus_two(value.height()),
        }
    }
}

fn stmts_height_exec(ss: &Vec<Stmt>) -> (r: Option<usize>)
    ensures
        height_result(r, stmts_height(ss@)),
    decreases ss@, 1nat,
{
    let mut acc: Option<usize> = Some(0);
    let mut i: usize = 0;
    assert(ss@.subrange(0, 0) =~= Seq::<Stmt>::empty());
    while i < ss.len()
        invariant
            i <= ss@.len(),
            height_result(acc, stmts_height(ss@.subrange(0, i as int))),
        decreases ss@.len() - i,
    {
        proof {
            assert(decreases_to!(ss@ => ss@[i as int]));
        }
        let h = ss[i].height();
        proof {
            let sub = ss@.subrange(0, i + 1);
            assert(sub.subrange(0, sub.len() - 1) =~= ss@.subrange(0, i as int));
        }
        acc = max_height(acc, h);
        i = i + 1;
    }
    assert(ss@.subrange(0, ss@.len() as int) =~= ss@);
    acc
}

impl Program {
    /// `program_height`, when it fits in a `usize`: the bound `pretty`
    /// needs.
    pub fn height(&self) -> (r: Option<usize>)
        ensures
            height_result(r, program_height(*self)),
    {
        let mut acc: Option<usize> = Some(0);
        let mut k: usize = 0;
        while k < self.classes.len()
            invariant
                k <= self.classes@.len(),
                height_result(acc, classes_height(self.classes@.take(k as int))),
            decreases self.classes@.len() - k,
        {
            let c = &self.classes[k];
            let mut m_acc: Option<usize> = Some(0);
            let mut j: usize = 0;
            while j < c.methods.len()
                invariant
                    j <= c.methods@.len(),
                    height_result(m_acc, methods_height(c.methods@.take(j as int))),
                decreases c.methods@.len() - j,
            {
                let m = &c.methods[j];
                let mh = max_height(stmts_height_exec(&m.body), m.ret_expr.height());
                proof {
                    assert(c.methods@.take(j + 1).drop_last() =~= c.methods@.take(j as int));
                }
                m_acc = max_height(m_acc, mh);
                j = j + 1;
            }
            proof {
                assert(c.methods@.take(j as int) =~= c.methods@);
                assert(self.classes@.take(k + 1).drop_last() =~= self.classes@.take(k as int));
            }
            acc = max_height(acc, m_acc);
            k = k + 1;
        }
        assert(self.classes@.take(k as int) =~= self.classes@);
        max_height(stmts_height_exec(&self.main.body), acc)
    }
}

/// Which kind of node an expression is.
pub open spec fn kind_tag(k: ExpKind) -> int {
    match k {
        ExpKind::And(..) => 0,
        ExpKind::Less(..) => 1,
        ExpKind::Add(..) => 2,
        ExpKind::Sub(..) => 3,
        ExpKind::Mul(..) => 4,
        ExpKind::Not(..) => 5,
        ExpKind::Index { .. } => 6,
        ExpKind::Length(..) => 7,
        ExpKind::Call { .. } => 8,
        ExpKind::NewObject(..) => 9,
        ExpKind::NewArray(..) => 10,
        ExpKind::Id(..) => 11,
        ExpKind::Num(..) => 12,
        ExpKind::True => 13,
        ExpKind::False => 14,
        ExpKind::This => 15,
    }
}

/// The first four characters of a node's own line, after its indentation.
pub open spec fn line_head(e: Exp, d: nat) -> Seq<char> {
    pretty_exp(e, d).subrange((2 * d) as int, (2 * d + 4) as int)
}

proof fn lemma_line_start(d: nat, text: Seq<char>, rest: Seq<char>, k: int)
    requires
        0 <= k <= text.len(),
    ensures
        (out_line(d, text) + rest).len() >= 2 * d + text.len() + 1,
        k < text.len() ==> (out_line(d, text) + rest)[2 * d + k] == text[k],
        k == text.len() ==> (out_line(d, text) + rest)[2 * d + k] == '\n',
        forall|j: int| 0 <= j < 2 * d ==> #[trigger] (out_line(d, text) + rest)[j] == ' ',
{
    let x = out_line(d, text);
    assert((x + rest)[2 * d + k] == x[2 * d + k]);
    assert forall|j: int| 0 <= j < 2 * d implies #[trigger] (out_line(d, text) + rest)[j] == ' ' by {
        assert((x + rest)[j] == x[j]);
        assert(x[j] == indent_spec(d)[j]);
    }
}

/// The characters that open an expression's own line.
proof fn lemma_head_chars(e: Exp, d: nat)
    ensures
        ({
            let p = pretty_exp(e, d);
            let i = (2 * d) as int;
            &&& p.len() >= i + 4
            &&& forall|j: int| 0 <= j < i ==> #[trigger] p[j] == ' '
            &&& match e.kind {
                ExpKind::And(..) => p[i] == 'A' && p[i + 1] == 'n' && p[i + 2] == 'd' && p[i + 3] == '\n',
                ExpKind::Less(..) => p[i] == 'L' && p[i + 1] == 'e' && p[i + 2] == 's',
                ExpKind::Add(..) => p[i] == 'A' && p[i + 1] == 'd' && p[i + 2] == 'd',
                ExpKind::Sub(..) => p[i] == 'S' && p[i + 1] == 'u',
                ExpKind::Mul(..) => p[i] == 'M',
                ExpKind::Not(..) => p[i] == 'N' && p[i + 1] == 'o',
                ExpKind::Index { .. } => p[i] == 'I' && p[i + 1] == 'n',
                ExpKind::Length(..) => p[i] == 'L' && p[i + 1] == 'e' && p[i + 2] == 'n',
                ExpKind::Call { .. } => p[i] == 'C',
                ExpKind::NewObject(..) => p[i] == 'N' && p[i + 1] == 'e' && p[i + 2] == 'w' && p[i + 3] == 'O',
                ExpKind::NewArray(..) => p[i] == 'N' && p[i + 1] == 'e' && p[i + 2] == 'w' && p[i + 3] == 'A',
                ExpKind::Id(..) => p[i] == 'I' && p[i + 1] == 'd',
                ExpKind::Num(..) => p[i] == 'N' && p[i + 1] == 'u',
                ExpKind::True => p[i] == 'T' && p[i + 1] == 'r',
                ExpKind::False => p[i] == 'F',
                ExpKind::This => p[i] == 'T' && p[i + 1] == 'h',
            }
        }),
{
    reveal_strlit("And");
    reveal_strlit("Less");
    reveal_strlit("Add");
    reveal_strlit("Sub");
    reveal_strlit("Mul");
    reveal_strlit("Not");
    reveal_strlit("Index");
    reveal_strlit("Length");
    reveal_strlit("Call .");
    reveal_strlit("NewObject ");
    reveal_strlit("NewArray int[]");
    reveal_strlit("Id ");
    reveal_strlit("Num ");
    reveal_strlit("True");
    reveal_strlit("False");
    reveal_strlit("This");
    match e.kind {
        ExpKind::And(a, b) => {
            let rest = pretty_exp(*a, d + 1) + pretty_exp(*b, d + 1);
            assert(pretty_exp(e, d) =~= out_line(d, "And"@) + rest);
            lemma_line_start(d, "And"@, rest, 0);
            lemma_line_start(d, "And"@, rest, 1);
            lemma_line_start(d, "And"@, rest, 2);
            lemma_line_start(d, "And"@, rest, 3);
        },
        ExpKind::Less(a, b) => {
            let rest = pretty_exp(*a, d + 1) + pretty_exp(*b, d + 1);
            assert(pretty_exp(e, d) =~= out_line(d, "Less"@) + rest);
            lemma_line_start(d, "Less"@, rest, 0);
            lemma_line_start(d, "Less"@, rest, 1);
            lemma_line_start(d, "Less"@, rest, 2);
        },
        ExpKind::Add(a, b) => {
            let rest = pretty_exp(*a, d + 1) + pretty_exp(*b, d + 1);
            assert(pretty_exp(e, d) =~= out_line(d, "Add"@) + rest);
            lemma_line_start(d, "Add"@, rest, 0);
            lemma_line_start(d, "Add"@, rest, 1);
            lemma_line_start(d, "Add"@, rest, 2);
        },
        ExpKind::Sub(a, b) => {
            let rest = pretty_exp(*a, d + 1) + pretty_exp(*b, d + 1);
            assert(pretty_exp(e, d) =~= out_line(d, "Sub"@) + rest);
            lemma_line_start(d, "Sub"@, rest, 0);
            lemma_line_start(d, "Sub"@, rest, 1);
        },
        ExpKind::Mul(a, b) => {
            let rest = pretty_exp(*a, d + 1) + pretty_exp(*b, d + 1);
            assert(pretty_exp(e, d) =~= out_line(d, "Mul"@) + rest);
            lemma_line_start(d, "Mul"@, rest, 0);
        },
        ExpKind::Not(a) => {
            let rest = pretty_exp(*a, d + 1);
            assert(pretty_exp(e, d) =~= out_line(d, "Not"@) + rest);
            lemma_line_start(d, "Not"@, rest, 0);
            lemma_line_start(d, "Not"@, rest, 1);
        },
        ExpKind::Index { array, index } => {
            let rest = pretty_exp(*array, d + 1) + pretty_exp(*index, d + 1);
            assert(pretty_exp(e, d) =~= out_line(d, "Index"@) + rest);
            lemma_line_start(d, "Index"@, rest, 0);
            lemma_line_start(d, "Index"@, rest, 1);
        },
        ExpKind::Length(a) => {
            let rest = pretty_exp(*a, d + 1);
            assert(pretty_exp(e, d) =~= out_line(d, "Length"@) + rest);
            lemma_line_start(d, "Length"@, rest, 0);
            lemma_line_start(d, "Length"@, rest, 1);
            lemma_line_start(d, "Length"@, rest, 2);
        },
        ExpKind::Call { receiver, method, args } => {
            let text = "Call ."@ + method@ + "()"@;
            let rest = pretty_exp(*receiver, d + 1) + pretty_exps(args@, d + 1);
            assert(pretty_exp(e, d) =~= out_line(d, text) + rest);
            assert(text[0] == 'C');
            lemma_line_start(d, text, rest, 0);
        },
        ExpKind::NewObject(name) => {
            let text = "NewObject "@ + name@;
            assert(pretty_exp(e, d) =~= out_line(d, text) + Seq::<char>::empty());
            assert(text[0] == 'N' && text[1] == 'e' && text[2] == 'w' && text[3] == 'O');
            lemma_line_start(d, text, Seq::empty(), 0);
            lemma_line_start(d, text, Seq::empty(), 1);
            lemma_line_start(d, text, Seq::empty(), 2);
            lemma_line_start(d, text, Seq::empty(), 3);
        },
        ExpKind::NewArray(size) => {
            let rest = pretty_exp(*size, d + 1);
            assert(pretty_exp(e, d) =~= out_line(d, "NewArray int[]"@) + rest);
            lemma_line_start(d, "NewArray int[]"@, rest, 0);
            lemma_line_start(d, "NewArray int[]"@, rest, 1);
            lemma_line_start(d, "NewArray int[]"@, rest, 2);
            lemma_line_start(d, "NewArray int[]"@, rest, 3);
        },
        ExpKind::Id(name) => {
            let text = "Id "@ + name@;
            assert(pretty_exp(e, d) =~= out_line(d, text) + Seq::<char>::empty());
            assert(text[0] == 'I' && text[1] == 'd');
            lemma_line_start(d, text, Seq::empty(), 0);
            lemma_line_start(d, text, Seq::empty(), 1);
        },
        ExpKind::Num(n) => {
            let text = "Num "@ + n@;
            assert(pretty_exp(e, d) =~= out_line(d, text) + Seq::<char>::empty());
            assert(text[0] == 'N' && text[1] == 'u');
            lemma_line_start(d, text, Seq::empty(), 0);
            lemma_line_start(d, text, Seq::empty(), 1);
        },
        ExpKind::True => {
            assert(pretty_exp(e, d) =~= out_line(d, "True"@) + Seq::<char>::empty());
            lemma_line_start(d, "True"@, Seq::empty(), 0);
            lemma_line_start(d, "True"@, Seq::empty(), 1);
        },
        ExpKind::False => {
            assert(pretty_exp(e, d) =~= out_line(d, "False"@) + Seq::<char>::empty());
            lemma_line_start(d, "False"@, Seq::empty(), 0);
        },
        ExpKind::This => {
            assert(pretty_exp(e, d) =~= out_line(d, "This"@) + Seq::<char>::empty());
            lemma_line_start(d, "This"@, Seq::empty(), 0);
            lemma_line_start(d, "This"@, Seq::empty(), 1);
        },
    }
}

/// Each expression node is printed on its own line, indented by its depth,
/// under a label that names its kind: nodes of different kinds never start
/// their lines alike.
pub proof fn law_node_labels_distinct(e1: Exp, e2: Exp, d: nat)
    ensures
        pretty_exp(e1, d).len() >= 2 * d + 4,
        forall|j: int| 0 <= j < 2 * d ==> #[trigger] pretty_exp(e1, d)[j] == ' ',
        kind_tag(e1.kind) != kind_tag(e2.kind) ==> line_head(e1, d) != line_head(e2, d),
{
    lemma_head_chars(e1, d);
    lemma_head_chars(e2, d);
    let i = (2 * d) as int;
    if line_head(e1, d) == line_head(e2, d) {
        let h1 = line_head(e1, d);
        let h2 = line_head(e2, d);
        assert(h1[0] == pretty_exp(e1, d)[i] && h2[0] == pretty_exp(e2, d)[i]);
        assert(h1[1] == pretty_exp(e1, d)[i + 1] && h2[1] == pretty_exp(e2, d)[i + 1]);
        assert(h1[2] == pretty_exp(e1, d)[i + 2] && h2[2] == pretty_exp(e2, d)[i + 2]);
        assert(h1[3] == pretty_exp(e1, d)[i + 3] && h2[3] == pretty_exp(e2, d)[i + 3]);
        assert(pretty_exp(e1, d)[i] == pretty_exp(e2, d)[i]);
        assert(pretty_exp(e1, d)[i + 1] == pretty_exp(e2, d)[i + 1]);
        assert(pretty_exp(e1, d)[i + 2] == pretty_exp(e2, d)[i + 2]);
        assert(pretty_exp(e1, d)[i + 3] == pretty_exp(e2, d)[i + 3]);
    }
}

} // verus!
