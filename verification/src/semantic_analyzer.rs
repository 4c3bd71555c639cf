//! Static semantic analysis over the AST produced by the parser.
//!
//! The rules: operator typing, array indexing and `.length`, assignment
//! compatibility, class instantiation, single inheritance with
//! dynamic-dispatch override checking, unique names within a scope, and the
//! rule that an entirely empty class is a semantic error.
//!
//! All errors are collected (analysis does not stop at the first one) and
//! returned sorted by source position. `analyze` is specified by
//! `analyze_spec`, which states each rule over the AST.

use vstd::prelude::*;
use crate::ast::{
    type_display, ClassDecl, Exp, ExpKind, MainClass, MethodDecl, Program, Stmt, Type, TypeV,
    VarDecl,
};
use crate::text::{cat2, cat3, cat4, cat5, decimal, decimal_string, str_eq, string_of};

verus! {

broadcast use vstd::string::group_string_axioms;

#[derive(Debug, Clone, PartialEq, Eq)]
pub struct SemanticError {
    pub line: usize,
    pub column: usize,
    pub msg: String,
}

/// Model of a diagnostic.
pub struct ErrV {
    pub line: usize,
    pub column: usize,
    pub msg: Seq<char>,
}

impl View for SemanticError {
    type V = ErrV;

    open spec fn view(&self) -> ErrV {
        ErrV { line: self.line, column: self.column, msg: self.msg@ }
    }
}

pub open spec fn err(line: usize, column: usize, msg: Seq<char>) -> ErrV {
    ErrV { line, column, msg }
}

pub open spec fn errs_view(v: Seq<SemanticError>) -> Seq<ErrV> {
    v.map_values(|e: SemanticError| e@)
}

pub open spec fn no_errs() -> Seq<ErrV> {
    Seq::empty()
}

fn push_err(errors: &mut Vec<SemanticError>, line: usize, column: usize, msg: String)
    ensures
        errs_view(final(errors)@) == errs_view(old(errors)@).push(err(line, column, msg@)),
{
    errors.push(SemanticError { line, column, msg });
    assert(errs_view(errors@) =~= errs_view(old(errors)@).push(err(line, column, msg@)));
}

// -------------------------------------------------------------------------
// The class table.
// -------------------------------------------------------------------------

/// Model of a class-table entry: its name, the class it extends and its
/// declared members, in source order.
pub struct ClassV {
    pub name: Seq<char>,
    pub parent: Option<Seq<char>>,
    pub fields: Seq<VarDecl>,
    pub methods: Seq<MethodDecl>,
}

pub open spec fn opt_name(o: Option<String>) -> Option<Seq<char>> {
    match o {
        Some(s) => Some(s@),
        None => None,
    }
}

pub open spec fn class_v(c: ClassDecl) -> ClassV {
    ClassV {
        name: c.name@,
        parent: opt_name(c.parent),
        fields: c.fields@,
        methods: c.methods@,
    }
}

/// The main class is a type name too; it has no parent and no members.
pub open spec fn main_v(m: MainClass) -> ClassV {
    ClassV { name: m.name@, parent: None, fields: Seq::empty(), methods: Seq::empty() }
}

/// The first entry of `t` named `n`.
pub open spec fn find_class(t: Seq<ClassV>, n: Seq<char>) -> Option<ClassV>
    decreases t.len(),
{
    if t.len() == 0 {
        None
    } else {
        match find_class(t.drop_last(), n) {
            Some(c) => Some(c),
            None => if t.last().name == n {
                Some(t.last())
            } else {
                None
            },
        }
    }
}

pub open spec fn has_class(t: Seq<ClassV>, n: Seq<char>) -> bool {
    find_class(t, n) is Some
}

/// The table after registering the main class and the first `k` class
/// declarations; a declaration whose name is already taken is not entered.
pub open spec fn table_upto(p: Program, k: nat) -> Seq<ClassV>
    decreases k,
{
    if k == 0 {
        seq![main_v(p.main)]
    } else {
        let t = table_upto(p, (k - 1) as nat);
        let c = p.classes@[k - 1];
        if has_class(t, c.name@) {
            t
        } else {
            t.push(class_v(c))
        }
    }
}

pub open spec fn class_table(p: Program) -> Seq<ClassV> {
    table_upto(p, p.classes@.len())
}

/// The type of the last of the first `k` declarations named `n`.
pub open spec fn last_var(vs: Seq<VarDecl>, n: Seq<char>, k: nat) -> Option<TypeV>
    decreases k,
{
    if k == 0 {
        None
    } else if vs[k - 1].name@ == n {
        Some(vs[k - 1].ty@)
    } else {
        last_var(vs, n, (k - 1) as nat)
    }
}

/// The type of the last declaration named `n` (a later one replaces an
/// earlier one).
pub open spec fn var_type(vs: Seq<VarDecl>, n: Seq<char>) -> Option<TypeV> {
    last_var(vs, n, vs.len())
}

/// The last of the first `k` methods named `n`.
pub open spec fn last_method(ms: Seq<MethodDecl>, n: Seq<char>, k: nat) -> Option<MethodDecl>
    decreases k,
{
    if k == 0 {
        None
    } else if ms[k - 1].name@ == n {
        Some(ms[k - 1])
    } else {
        last_method(ms, n, (k - 1) as nat)
    }
}

pub open spec fn method_named(ms: Seq<MethodDecl>, n: Seq<char>) -> Option<MethodDecl> {
    last_method(ms, n, ms.len())
}

/// Whether `vs[i]` repeats the name of an earlier declaration.
pub open spec fn named_before(vs: Seq<VarDecl>, i: int) -> bool {
    exists|j: int| 0 <= j < i && #[trigger] vs[j].name@ == vs[i].name@
}

pub open spec fn method_named_before(ms: Seq<MethodDecl>, i: int) -> bool {
    exists|j: int| 0 <= j < i && #[trigger] ms[j].name@ == ms[i].name@
}

pub open spec fn redeclared_msg(what: Seq<char>, name: Seq<char>) -> Seq<char> {
    what + " '"@ + name + "' is declared more than once"@
}

/// A diagnostic for each of the first `k` declarations that repeats a name.
pub open spec fn dup_var_errs(vs: Seq<VarDecl>, what: Seq<char>, k: nat) -> Seq<ErrV>
    decreases k,
{
    if k == 0 {
        no_errs()
    } else {
        let i = k - 1;
        dup_var_errs(vs, what, (k - 1) as nat) + if named_before(vs, i) {
            seq![err(vs[i].line, vs[i].column, redeclared_msg(what, vs[i].name@))]
        } else {
            no_errs()
        }
    }
}

pub open spec fn dup_method_errs(ms: Seq<MethodDecl>, k: nat) -> Seq<ErrV>
    decreases k,
{
    if k == 0 {
        no_errs()
    } else {
        let i = k - 1;
        dup_method_errs(ms, (k - 1) as nat) + if method_named_before(ms, i) {
            seq![err(ms[i].line, ms[i].column, redeclared_msg("method"@, ms[i].name@))]
        } else {
            no_errs()
        }
    }
}

/// Diagnostics of entering declaration `c` into table `t`.
pub open spec fn decl_errs(t: Seq<ClassV>, c: ClassDecl) -> Seq<ErrV> {
    if has_class(t, c.name@) {
        seq![err(c.line, c.column, redeclared_msg("class"@, c.name@))]
    } else {
        dup_var_errs(c.fields@, "field"@, c.fields@.len()) + dup_method_errs(
            c.methods@,
            c.methods@.len(),
        )
    }
}

pub open spec fn table_errs_upto(p: Program, k: nat) -> Seq<ErrV>
    decreases k,
{
    if k == 0 {
        no_errs()
    } else {
        table_errs_upto(p, (k - 1) as nat) + decl_errs(
            table_upto(p, (k - 1) as nat),
            p.classes@[k - 1],
        )
    }
}

/// A class-table entry: the main class or a class declaration.
pub enum ClassRef<'a> {
    Main(&'a MainClass),
    Decl(&'a ClassDecl),
}

impl<'a> View for ClassRef<'a> {
    type V = ClassV;

    open spec fn view(&self) -> ClassV {
        match self {
            ClassRef::Main(m) => main_v(**m),
            ClassRef::Decl(c) => class_v(**c),
        }
    }
}

pub open spec fn table_view(es: Seq<ClassRef>) -> Seq<ClassV> {
    es.map_values(|e: ClassRef| e@)
}

impl<'a> ClassRef<'a> {
    fn name(&self) -> (r: &'a String)
        ensures
            r@ == self@.name,
    {
        match self {
            ClassRef::Main(m) => &m.name,
            ClassRef::Decl(c) => &c.name,
        }
    }

    fn parent(&self) -> (r: Option<&'a String>)
        ensures
            match r {
                Some(s) => self@.parent == Some(s@),
                None => self@.parent is None,
            },
    {
        match self {
            ClassRef::Main(_) => None,
            ClassRef::Decl(c) => match &c.parent {
                Some(p) => Some(p),
                None => None,
            },
        }
    }

    /// The last field named `n`.
    fn field_type(&self, n: &str) -> (r: Option<Type>)
        ensures
            opt_type_view(r) == var_type(self@.fields, n@),
    {
        match self {
            ClassRef::Main(_) => None,
            ClassRef::Decl(c) => find_var(&c.fields, n),
        }
    }

    /// The last method named `n`.
    fn method(&self, n: &str) -> (r: Option<&'a MethodDecl>)
        ensures
            match r {
                Some(m) => method_named(self@.methods, n@) == Some(*m),
                None => method_named(self@.methods, n@) is None,
            },
    {
        match self {
            ClassRef::Main(_) => None,
            ClassRef::Decl(c) => find_method(&c.methods, n),
        }
    }
}

pub open spec fn opt_type_view(o: Option<Type>) -> Option<TypeV> {
    match o {
        Some(t) => Some(t@),
        None => None,
    }
}

fn find_var(vs: &Vec<VarDecl>, n: &str) -> (r: Option<Type>)
    ensures
        opt_type_view(r) == var_type(vs@, n@),
{
    let mut found: Option<Type> = None;
    let mut i: usize = 0;
    while i < vs.len()
        invariant
            i <= vs@.len(),
            opt_type_view(found) == last_var(vs@, n@, i as nat),
        decreases vs@.len() - i,
    {
        if str_eq(vs[i].name.as_str(), n) {
            found = Some(vs[i].ty.clone());
        }
        i = i + 1;
    }
    found
}

fn find_method<'a>(ms: &'a Vec<MethodDecl>, n: &str) -> (r: Option<&'a MethodDecl>)
    ensures
        match r {
            Some(m) => method_named(ms@, n@) == Some(*m),
            None => method_named(ms@, n@) is None,
        },
{
    let mut found: Option<&'a MethodDecl> = None;
    let mut i: usize = 0;
    while i < ms.len()
        invariant
            i <= ms@.len(),
            match found {
                Some(m) => last_method(ms@, n@, i as nat) == Some(*m),
                None => last_method(ms@, n@, i as nat) is None,
            },
        decreases ms@.len() - i,
    {
        if str_eq(ms[i].name.as_str(), n) {
            found = Some(&ms[i]);
        }
        i = i + 1;
    }
    found
}

/// The first entry of the table named `n`.
fn lookup_class<'a>(t: &Vec<ClassRef<'a>>, n: &str) -> (r: Option<ClassRef<'a>>)
    ensures
        match r {
            Some(c) => find_class(table_view(t@), n@) == Some(c@),
            None => find_class(table_view(t@), n@) is None,
        },
{
    let mut i: usize = 0;
    while i < t.len()
        invariant
            i <= t@.len(),
            find_class(table_view(t@).take(i as int), n@) is None,
        decreases t@.len() - i,
    {
        proof {
            assert(table_view(t@).take(i + 1).drop_last() =~= table_view(t@).take(i as int));
        }
        if str_eq(t[i].name().as_str(), n) {
            proof {
                lemma_find_class_prefix(table_view(t@), n@, i + 1);
            }
            return Some(t[i].copy());
        }
        i = i + 1;
    }
    assert(table_view(t@).take(i as int) =~= table_view(t@));
    None
}

/// Once a prefix of `t` holds a class named `n`, so does `t`, with the same
/// first entry.
proof fn lemma_find_class_prefix(t: Seq<ClassV>, n: Seq<char>, k: int)
    requires
        0 <= k <= t.len(),
        find_class(t.take(k), n) is Some,
    ensures
        find_class(t, n) == find_class(t.take(k), n),
    decreases t.len() - k,
{
    if k < t.len() {
        assert(t.take(k + 1).drop_last() =~= t.take(k));
        lemma_find_class_prefix(t, n, k + 1);
    } else {
        assert(t.take(k) =~= t);
    }
}

impl<'a> ClassRef<'a> {
    fn copy(&self) -> (r: ClassRef<'a>)
        ensures
            r@ == self@,
    {
        match self {
            ClassRef::Main(m) => ClassRef::Main(m),
            ClassRef::Decl(c) => ClassRef::Decl(c),
        }
    }
}

fn redeclared(what: &str, name: &str) -> (r: String)
    ensures
        r@ == redeclared_msg(what@, name@),
{
    cat4(what, " '", name, "' is declared more than once")
}

/// Whether `vs[i]` repeats an earlier name.
fn var_named_before(vs: &Vec<VarDecl>, i: usize) -> (r: bool)
    requires
        i < vs@.len(),
    ensures
        r == named_before(vs@, i as int),
{
    let mut j: usize = 0;
    while j < i
        invariant
            j <= i < vs@.len(),
            forall|k: int| 0 <= k < j ==> vs@[k].name@ != vs@[i as int].name@,
        decreases i - j,
    {
        if str_eq(vs[j].name.as_str(), vs[i].name.as_str()) {
            return true;
        }
        j = j + 1;
    }
    false
}

fn check_dup_vars(vs: &Vec<VarDecl>, what: &str, errors: &mut Vec<SemanticError>)
    ensures
        errs_view(final(errors)@) == errs_view(old(errors)@) + dup_var_errs(vs@, what@, vs@.len()),
{
    let mut i: usize = 0;
    while i < vs.len()
        invariant
            i <= vs@.len(),
            errs_view(errors@) == errs_view(old(errors)@) + dup_var_errs(vs@, what@, i as nat),
        decreases vs@.len() - i,
    {
        let ghost before = errs_view(errors@);
        if var_named_before(vs, i) {
            push_err(errors, vs[i].line, vs[i].column, redeclared(what, vs[i].name.as_str()));
        }
        assert(errs_view(errors@) =~= errs_view(old(errors)@) + dup_var_errs(vs@, what@, (i + 1) as nat));
        i = i + 1;
    }
}

fn check_dup_methods(ms: &Vec<MethodDecl>, errors: &mut Vec<SemanticError>)
    ensures
        errs_view(final(errors)@) == errs_view(old(errors)@) + dup_method_errs(ms@, ms@.len()),
{
    let mut i: usize = 0;
    while i < ms.len()
        invariant
            i <= ms@.len(),
            errs_view(errors@) == errs_view(old(errors)@) + dup_method_errs(ms@, i as nat),
        decreases ms@.len() - i,
    {
        let mut seen = false;
        let mut j: usize = 0;
        while j < i
            invariant
                j <= i < ms@.len(),
                seen == exists|k: int| 0 <= k < j && #[trigger] ms@[k].name@ == ms@[i as int].name@,
            decreases i - j,
        {
            if str_eq(ms[j].name.as_str(), ms[i].name.as_str()) {
                seen = true;
            }
            j = j + 1;
        }
        if seen {
            push_err(errors, ms[i].line, ms[i].column, redeclared("method", ms[i].name.as_str()));
        }
        assert(errs_view(errors@) =~= errs_view(old(errors)@) + dup_method_errs(ms@, (i + 1) as nat));
        i = i + 1;
    }
}

/// Registers the main class and every class declaration whose name is not
/// taken yet, reporting repeated classes, fields and methods.
fn build_class_table<'a>(p: &'a Program, errors: &mut Vec<SemanticError>) -> (t: Vec<ClassRef<'a>>)
    ensures
        table_view(t@) == class_table(*p),
        errs_view(final(errors)@) == errs_view(old(errors)@) + table_errs_upto(*p, p.classes@.len()),
{
    let mut t: Vec<ClassRef<'a>> = Vec::new();
    t.push(ClassRef::Main(&p.main));
    assert(table_view(t@) =~= table_upto(*p, 0));
    let mut k: usize = 0;
    while k < p.classes.len()
        invariant
            k <= p.classes@.len(),
            table_view(t@) == table_upto(*p, k as nat),
            errs_view(errors@) == errs_view(old(errors)@) + table_errs_upto(*p, k as nat),
        decreases p.classes@.len() - k,
    {
        let c = &p.classes[k];
        let ghost before = errs_view(errors@);
        match lookup_class(&t, c.name.as_str()) {
            Some(_) => {
                push_err(errors, c.line, c.column, redeclared("class", c.name.as_str()));
            },
            None => {
                check_dup_vars(&c.fields, "field", errors);
                check_dup_methods(&c.methods, errors);
                t.push(ClassRef::Decl(c));
            },
        }
        proof {
            reveal_strlit("class");
            reveal_strlit("field");
        }
        assert(table_view(t@) =~= table_upto(*p, (k + 1) as nat));
        assert(errs_view(errors@) =~= errs_view(old(errors)@) + table_errs_upto(*p, (k + 1) as nat));
        k = k + 1;
    }
    t
}

// -------------------------------------------------------------------------
// Class-level rules.
// -------------------------------------------------------------------------

/// Following `extends` links from `cur` for at most `fuel` steps comes back
/// to `start`; running out of steps counts as a cycle.
pub open spec fn cycle_walk(t: Seq<ClassV>, start: Seq<char>, cur: Seq<char>, fuel: nat) -> bool
    decreases fuel,
{
    if fuel == 0 {
        true
    } else {
        match find_class(t, cur) {
            None => false,
            Some(info) => match info.parent {
                None => false,
                Some(p) => if p == start {
                    true
                } else {
                    cycle_walk(t, start, p, (fuel - 1) as nat)
                },
            },
        }
    }
}

pub open spec fn has_cycle(t: Seq<ClassV>, start: Seq<char>) -> bool {
    cycle_walk(t, start, start, t.len() + 1)
}

/// Same parameter types, in order, and the same return type.
pub open spec fn same_sig(a: MethodDecl, b: MethodDecl) -> bool {
    &&& a.params@.len() == b.params@.len()
    &&& forall|i: int| 0 <= i < a.params@.len() ==> #[trigger] a.params@[i].ty@ == b.params@[i].ty@
    &&& a.ret_type@ == b.ret_type@
}

pub open spec fn override_msg(m: Seq<char>, owner: Seq<char>) -> Seq<char> {
    "method '"@ + m + "' overrides '"@ + owner + "::"@ + m + "' with an incompatible signature"@
}

/// Search of the ancestors, nearest first, for the method that `m`
/// overrides; a diagnostic if its signature differs. The search gives up
/// after `fuel` classes.
pub open spec fn override_walk(t: Seq<ClassV>, m: MethodDecl, anc: Option<Seq<char>>, fuel: nat) -> Seq<ErrV>
    decreases fuel,
{
    match anc {
        None => no_errs(),
        Some(name) => if fuel == 0 {
            no_errs()
        } else {
            match find_class(t, name) {
                None => no_errs(),
                Some(info) => match method_named(info.methods, m.name@) {
                    Some(pm) => if same_sig(pm, m) {
                        no_errs()
                    } else {
                        seq![err(m.line, m.column, override_msg(m.name@, name))]
                    },
                    None => override_walk(t, m, info.parent, (fuel - 1) as nat),
                },
            }
        }
    }
}

pub open spec fn override_errs(t: Seq<ClassV>, c: ClassDecl, m: MethodDecl) -> Seq<ErrV> {
    override_walk(t, m, opt_name(c.parent), 1000)
}

/// A class type must name an entry of the table.
pub open spec fn type_errs(t: Seq<ClassV>, ty: TypeV, line: usize, column: usize) -> Seq<ErrV> {
    match ty {
        TypeV::Class(n) => if has_class(t, n) {
            no_errs()
        } else {
            seq![err(line, column, "unknown type '"@ + n + "'"@)]
        },
        _ => no_errs(),
    }
}

pub open spec fn var_type_errs(t: Seq<ClassV>, vs: Seq<VarDecl>, k: nat) -> Seq<ErrV>
    decreases k,
{
    if k == 0 {
        no_errs()
    } else {
        var_type_errs(t, vs, (k - 1) as nat) + type_errs(
            t,
            vs[k - 1].ty@,
            vs[k - 1].line,
            vs[k - 1].column,
        )
    }
}

pub open spec fn is_param(ps: Seq<VarDecl>, n: Seq<char>) -> bool {
    exists|j: int| 0 <= j < ps.len() && #[trigger] ps[j].name@ == n
}

/// Locals share the method scope with the parameters: a local may not
/// repeat a parameter's name nor an earlier local's.
pub open spec fn local_errs(ps: Seq<VarDecl>, ls: Seq<VarDecl>, k: nat) -> Seq<ErrV>
    decreases k,
{
    if k == 0 {
        no_errs()
    } else {
        let l = ls[k - 1];
        local_errs(ps, ls, (k - 1) as nat) + if is_param(ps, l.name@) {
            seq![err(l.line, l.column, "local variable '"@ + l.name@ + "' redeclares a parameter"@)]
        } else if named_before(ls, k - 1) {
            seq![err(l.line, l.column, redeclared_msg("local variable"@, l.name@))]
        } else {
            no_errs()
        }
    }
}

pub open spec fn method_rule_errs(t: Seq<ClassV>, c: ClassDecl, m: MethodDecl) -> Seq<ErrV> {
    type_errs(t, m.ret_type@, m.line, m.column)
        + var_type_errs(t, m.params@, m.params@.len())
        + var_type_errs(t, m.locals@, m.locals@.len())
        + dup_var_errs(m.params@, "parameter"@, m.params@.len())
        + local_errs(m.params@, m.locals@, m.locals@.len())
        + override_errs(t, c, m)
}

pub open spec fn methods_rule_errs(t: Seq<ClassV>, c: ClassDecl, k: nat) -> Seq<ErrV>
    decreases k,
{
    if k == 0 {
        no_errs()
    } else {
        methods_rule_errs(t, c, (k - 1) as nat) + method_rule_errs(t, c, c.methods@[k - 1])
    }
}

pub open spec fn empty_class_msg(n: Seq<char>) -> Seq<char> {
    "class '"@ + n + "' is empty: a class must declare at least one field or method"@
}

pub open spec fn parent_errs(t: Seq<ClassV>, c: ClassDecl) -> Seq<ErrV> {
    match opt_name(c.parent) {
        None => no_errs(),
        Some(pn) => if !has_class(t, pn) {
            seq![err(c.line, c.column, "class '"@ + c.name@ + "' extends unknown class '"@ + pn + "'"@)]
        } else if has_cycle(t, c.name@) {
            seq![err(c.line, c.column, "inheritance cycle involving class '"@ + c.name@ + "'"@)]
        } else {
            no_errs()
        },
    }
}

pub open spec fn class_rule_errs(t: Seq<ClassV>, c: ClassDecl) -> Seq<ErrV> {
    (if c.fields@.len() == 0 && c.methods@.len() == 0 {
        seq![err(c.line, c.column, empty_class_msg(c.name@))]
    } else {
        no_errs()
    }) + parent_errs(t, c) + var_type_errs(t, c.fields@, c.fields@.len()) + methods_rule_errs(
        t,
        c,
        c.methods@.len(),
    )
}

pub open spec fn rules_errs_upto(p: Program, t: Seq<ClassV>, k: nat) -> Seq<ErrV>
    decreases k,
{
    if k == 0 {
        no_errs()
    } else {
        rules_errs_upto(p, t, (k - 1) as nat) + class_rule_errs(t, p.classes@[k - 1])
    }
}

fn has_cycle_exec<'a>(t: &Vec<ClassRef<'a>>, start: &'a str) -> (r: bool)
    ensures
        r == has_cycle(table_view(t@), start@),
{
    let ghost tv = table_view(t@);
    let mut cur: &'a str = start;
    let mut steps: u128 = 0;
    loop
        invariant
            steps <= tv.len() + 1,
            tv == table_view(t@),
            tv.len() == t@.len(),
            cycle_walk(tv, start@, cur@, (tv.len() + 1 - steps) as nat) == has_cycle(tv, start@),
        decreases tv.len() + 1 - steps,
    {
        if steps > t.len() as u128 {
            return true;
        }
        steps = steps + 1;
        match lookup_class(t, cur) {
            None => {
                return false;
            },
            Some(info) => match info.parent() {
                None => {
                    return false;
                },
                Some(p) => {
                    if str_eq(p.as_str(), start) {
                        return true;
                    }
                    cur = p.as_str();
                },
            },
        }
    }
}

fn same_sig_exec(a: &MethodDecl, b: &MethodDecl) -> (r: bool)
    ensures
        r == same_sig(*a, *b),
{
    if a.params.len() != b.params.len() {
        return false;
    }
    let mut i: usize = 0;
    while i < a.params.len()
        invariant
            i <= a.params@.len(),
            a.params@.len() == b.params@.len(),
            forall|j: int| 0 <= j < i ==> #[trigger] a.params@[j].ty@ == b.params@[j].ty@,
        decreases a.params@.len() - i,
    {
        if !a.params[i].ty.same(&b.params[i].ty) {
            return false;
        }
        i = i + 1;
    }
    a.ret_type.same(&b.ret_type)
}

fn check_override<'a>(t: &Vec<ClassRef<'a>>, c: &'a ClassDecl, m: &MethodDecl, errors: &mut Vec<SemanticError>)
    ensures
        errs_view(final(errors)@) == errs_view(old(errors)@) + override_errs(table_view(t@), *c, *m),
{
    let ghost tv = table_view(t@);
    let mut anc: Option<&'a String> = match &c.parent {
        Some(p) => Some(p),
        None => None,
    };
    let mut guard: usize = 0;
    loop
        invariant
            guard <= 1000,
            tv == table_view(t@),
            errs_view(errors@) == errs_view(old(errors)@),
            override_walk(tv, *m, opt_ref_name(anc), (1000 - guard) as nat)
                == override_errs(tv, *c, *m),
        decreases 1000 - guard,
    {
        let name = match anc {
            None => {
                return;
            },
            Some(n) => n,
        };
        if guard >= 1000 {
            return;
        }
        guard = guard + 1;
        let info = match lookup_class(t, name.as_str()) {
            None => {
                return;
            },
            Some(i) => i,
        };
        match info.method(m.name.as_str()) {
            Some(pm) => {
                if !same_sig_exec(pm, m) {
                    let msg = cat5("method '", m.name.as_str(), "' overrides '", name.as_str(), "::");
                    let msg = cat3(msg.as_str(), m.name.as_str(), "' with an incompatible signature");
                    push_err(errors, m.line, m.column, msg);
                    assert(errs_view(errors@) =~= errs_view(old(errors)@) + override_errs(tv, *c, *m));
                }
                return;
            },
            None => {
                anc = info.parent();
            },
        }
    }
}

pub open spec fn opt_ref_name(o: Option<&String>) -> Option<Seq<char>> {
    match o {
        Some(s) => Some(s@),
        None => None,
    }
}

fn check_type(t: &Vec<ClassRef>, ty: &Type, line: usize, column: usize, errors: &mut Vec<SemanticError>)
    ensures
        errs_view(final(errors)@) == errs_view(old(errors)@) + type_errs(table_view(t@), ty@, line, column),
{
    match ty {
        Type::Class(n) => {
            if lookup_class(t, n.as_str()).is_none() {
                push_err(errors, line, column, cat3("unknown type '", n.as_str(), "'"));
                return;
            }
        },
        _ => {},
    }
    assert(errs_view(errors@) =~= errs_view(old(errors)@) + type_errs(table_view(t@), ty@, line, column));
}

fn check_var_types(t: &Vec<ClassRef>, vs: &Vec<VarDecl>, errors: &mut Vec<SemanticError>)
    ensures
        errs_view(final(errors)@) == errs_view(old(errors)@) + var_type_errs(table_view(t@), vs@, vs@.len()),
{
    let mut i: usize = 0;
    while i < vs.len()
        invariant
            i <= vs@.len(),
            errs_view(errors@) == errs_view(old(errors)@) + var_type_errs(table_view(t@), vs@, i as nat),
        decreases vs@.len() - i,
    {
        check_type(t, &vs[i].ty, vs[i].line, vs[i].column, errors);
        assert(errs_view(errors@) =~= errs_view(old(errors)@) + var_type_errs(table_view(t@), vs@, (i + 1) as nat));
        i = i + 1;
    }
}

fn is_param_exec(ps: &Vec<VarDecl>, n: &str) -> (r: bool)
    ensures
        r == is_param(ps@, n@),
{
    let mut j: usize = 0;
    while j < ps.len()
        invariant
            j <= ps@.len(),
            forall|k: int| 0 <= k < j ==> ps@[k].name@ != n@,
        decreases ps@.len() - j,
    {
        if str_eq(ps[j].name.as_str(), n) {
            return true;
        }
        j = j + 1;
    }
    false
}

fn check_locals(ps: &Vec<VarDecl>, ls: &Vec<VarDecl>, errors: &mut Vec<SemanticError>)
    ensures
        errs_view(final(errors)@) == errs_view(old(errors)@) + local_errs(ps@, ls@, ls@.len()),
{
    let mut i: usize = 0;
    while i < ls.len()
        invariant
            i <= ls@.len(),
            errs_view(errors@) == errs_view(old(errors)@) + local_errs(ps@, ls@, i as nat),
        decreases ls@.len() - i,
    {
        let l = &ls[i];
        if is_param_exec(ps, l.name.as_str()) {
            push_err(errors, l.line, l.column, cat3("local variable '", l.name.as_str(), "' redeclares a parameter"));
        } else if var_named_before(ls, i) {
            push_err(errors, l.line, l.column, redeclared("local variable", l.name.as_str()));
        }
        assert(errs_view(errors@) =~= errs_view(old(errors)@) + local_errs(ps@, ls@, (i + 1) as nat));
        i = i + 1;
    }
}

fn check_class_rules<'a>(p: &'a Program, t: &Vec<ClassRef<'a>>, errors: &mut Vec<SemanticError>)
    ensures
        errs_view(final(errors)@) == errs_view(old(errors)@) + rules_errs_upto(*p, table_view(t@), p.classes@.len()),
{
    let ghost tv = table_view(t@);
    let mut k: usize = 0;
    while k < p.classes.len()
        invariant
            k <= p.classes@.len(),
            tv == table_view(t@),
            errs_view(errors@) == errs_view(old(errors)@) + rules_errs_upto(*p, tv, k as nat),
        decreases p.classes@.len() - k,
    {
        let c = &p.classes[k];
        let ghost e0 = errs_view(errors@);
        if c.fields.len() == 0 && c.methods.len() == 0 {
            push_err(errors, c.line, c.column, cat3("class '", c.name.as_str(), "' is empty: a class must declare at least one field or method"));
        }
        let ghost e1 = errs_view(errors@);
        match &c.parent {
            Some(pn) => {
                if lookup_class(t, pn.as_str()).is_none() {
                    push_err(errors, c.line, c.column, cat5("class '", c.name.as_str(), "' extends unknown class '", pn.as_str(), "'"));
                } else if has_cycle_exec(t, c.name.as_str()) {
                    push_err(errors, c.line, c.column, cat3("inheritance cycle involving class '", c.name.as_str(), "'"));
                }
            },
            None => {},
        }
        assert(errs_view(errors@) =~= e1 + parent_errs(tv, *c));
        let ghost e2 = errs_view(errors@);
        check_var_types(t, &c.fields, errors);
        let ghost e3 = errs_view(errors@);
        let mut j: usize = 0;
        while j < c.methods.len()
            invariant
                j <= c.methods@.len(),
                tv == table_view(t@),
                k < p.classes@.len(),
                *c == p.classes@[k as int],
                errs_view(errors@) == e3 + methods_rule_errs(tv, *c, j as nat),
            decreases c.methods@.len() - j,
        {
            let m = &c.methods[j];
            let ghost f0 = errs_view(errors@);
            check_type(t, &m.ret_type, m.line, m.column, errors);
            check_var_types(t, &m.params, errors);
            check_var_types(t, &m.locals, errors);
            check_dup_vars(&m.params, "parameter", errors);
            check_locals(&m.params, &m.locals, errors);
            check_override(t, c, m, errors);
            assert(errs_view(errors@) =~= f0 + method_rule_errs(tv, *c, *m));
            assert(errs_view(errors@) =~= e3 + methods_rule_errs(tv, *c, (j + 1) as nat));
            j = j + 1;
        }
        assert(errs_view(errors@) =~= e0 + class_rule_errs(tv, *c));
        assert(errs_view(errors@) =~= errs_view(old(errors)@) + rules_errs_upto(*p, tv, (k + 1) as nat));
        k = k + 1;
    }
}

// -------------------------------------------------------------------------
// Typing of statements and expressions.
// -------------------------------------------------------------------------

/// What an expression is checked against: the class table, the class whose
/// method is checked (`None` in the static main), and the method's
/// parameters and locals.
pub struct CtxV {
    pub table: Seq<ClassV>,
    pub current: Option<Seq<char>>,
    pub params: Seq<VarDecl>,
    pub locals: Seq<VarDecl>,
}

/// The field named `f` of class `cn` or of its nearest ancestor that has
/// one; the search gives up after `fuel` classes.
pub open spec fn chain_field(t: Seq<ClassV>, cn: Seq<char>, f: Seq<char>, fuel: nat) -> Option<TypeV>
    decreases fuel,
{
    if fuel == 0 {
        None
    } else {
        match find_class(t, cn) {
            None => None,
            Some(info) => match var_type(info.fields, f) {
                Some(ty) => Some(ty),
                None => match info.parent {
                    None => None,
                    Some(p) => chain_field(t, p, f, (fuel - 1) as nat),
                },
            },
        }
    }
}

/// Name resolution: locals, then parameters, then the fields of the current
/// class and its ancestors.
pub open spec fn lookup_var(c: CtxV, n: Seq<char>) -> Option<TypeV> {
    match var_type(c.locals, n) {
        Some(ty) => Some(ty),
        None => match var_type(c.params, n) {
            Some(ty) => Some(ty),
            None => match c.current {
                Some(cn) => chain_field(c.table, cn, n, c.table.len() + 1),
                None => None,
            },
        },
    }
}

/// The method named `m` in class `cn` or its nearest ancestor that has one.
pub open spec fn method_walk(t: Seq<ClassV>, cn: Seq<char>, m: Seq<char>, fuel: nat) -> Option<MethodDecl>
    decreases fuel,
{
    if fuel == 0 {
        None
    } else {
        match find_class(t, cn) {
            None => None,
            Some(info) => match method_named(info.methods, m) {
                Some(md) => Some(md),
                None => match info.parent {
                    None => None,
                    Some(p) => method_walk(t, p, m, (fuel - 1) as nat),
                },
            },
        }
    }
}

pub open spec fn lookup_method(t: Seq<ClassV>, cn: Seq<char>, m: Seq<char>) -> Option<MethodDecl> {
    method_walk(t, cn, m, t.len() + 1)
}

/// `cur` is `sup` or reaches it through `extends` links within `fuel` steps.
pub open spec fn sub_walk(t: Seq<ClassV>, cur: Seq<char>, sup: Seq<char>, fuel: nat) -> bool
    decreases fuel,
{
    if fuel == 0 {
        false
    } else if cur == sup {
        true
    } else {
        match find_class(t, cur) {
            None => false,
            Some(info) => match info.parent {
                None => false,
                Some(p) => sub_walk(t, p, sup, (fuel - 1) as nat),
            },
        }
    }
}

pub open spec fn is_subclass(t: Seq<ClassV>, sub: Seq<char>, sup: Seq<char>) -> bool {
    sub_walk(t, sub, sup, t.len() + 1)
}

/// Assignment and argument compatibility: the same type, or a subclass
/// instance stored into a superclass-typed target.
pub open spec fn assignable(t: Seq<ClassV>, target: TypeV, value: TypeV) -> bool {
    target == value || match (target, value) {
        (TypeV::Class(sup), TypeV::Class(sub)) => is_subclass(t, sub, sup),
        _ => false,
    }
}

pub open spec fn quoted(s: Seq<char>) -> Seq<char> {
    "'"@ + s + "'"@
}

/// The diagnostic when an expression of type `actual` stands where
/// `expected` is required.
pub open spec fn expect_tail(e: Exp, actual: Option<TypeV>, expected: TypeV, what: Seq<char>) -> Seq<ErrV> {
    match actual {
        Some(a) => if a != expected {
            seq![err(e.line, e.column, what + " must be "@ + quoted(type_display(expected)) + ", found "@ + quoted(type_display(a)))]
        } else {
            no_errs()
        },
        None => no_errs(),
    }
}

/// The diagnostics of checking `e`, whose typing gave `r`, against
/// `expected`.
pub open spec fn expect_of(r: (Option<TypeV>, Seq<ErrV>), e: Exp, expected: TypeV, what: Seq<char>) -> Seq<ErrV> {
    r.1 + expect_tail(e, r.0, expected, what)
}

pub open spec fn param_types(o: Option<MethodDecl>) -> Seq<TypeV> {
    match o {
        Some(m) => m.params@.map_values(|p: VarDecl| p.ty@),
        None => Seq::empty(),
    }
}

pub open spec fn arity_msg(m: Seq<char>, expected: nat, found: nat) -> Seq<char> {
    "method '"@ + m + "' expects "@ + decimal(expected) + " argument(s), found "@ + decimal(found)
}

pub open spec fn arg_msg(a: TypeV, p: TypeV) -> Seq<char> {
    "argument type "@ + quoted(type_display(a)) + " is not compatible with parameter type "@
        + quoted(type_display(p))
}

/// The type of `e`, when it can be given one, and the diagnostics found on
/// the way, in order. A sub-expression without a type gives no further
/// diagnostics about its use.
pub open spec fn type_of_spec(c: CtxV, e: Exp) -> (Option<TypeV>, Seq<ErrV>)
    decreases e, 0nat,
{
    match e.kind {
        ExpKind::Num(_) => (Some(TypeV::Int), no_errs()),
        ExpKind::True => (Some(TypeV::Boolean), no_errs()),
        ExpKind::False => (Some(TypeV::Boolean), no_errs()),
        ExpKind::This => match c.current {
            Some(n) => (Some(TypeV::Class(n)), no_errs()),
            None => (None, seq![err(e.line, e.column, "'this' cannot be used in static main"@)]),
        },
        ExpKind::Id(name) => match lookup_var(c, name@) {
            Some(ty) => (Some(ty), no_errs()),
            None => (None, seq![err(e.line, e.column, "undefined variable "@ + quoted(name@))]),
        },
        ExpKind::Add(a, b) => (Some(TypeV::Int), expect_of(type_of_spec(c, *a), *a, TypeV::Int, "arithmetic operand"@)
            + expect_of(type_of_spec(c, *b), *b, TypeV::Int, "arithmetic operand"@)),
        ExpKind::Sub(a, b) => (Some(TypeV::Int), expect_of(type_of_spec(c, *a), *a, TypeV::Int, "arithmetic operand"@)
            + expect_of(type_of_spec(c, *b), *b, TypeV::Int, "arithmetic operand"@)),
        ExpKind::Mul(a, b) => (Some(TypeV::Int), expect_of(type_of_spec(c, *a), *a, TypeV::Int, "arithmetic operand"@)
            + expect_of(type_of_spec(c, *b), *b, TypeV::Int, "arithmetic operand"@)),
        ExpKind::Less(a, b) => (Some(TypeV::Boolean), expect_of(type_of_spec(c, *a), *a, TypeV::Int, "'<' operand"@)
            + expect_of(type_of_spec(c, *b), *b, TypeV::Int, "'<' operand"@)),
        ExpKind::And(a, b) => (Some(TypeV::Boolean), expect_of(type_of_spec(c, *a), *a, TypeV::Boolean, "'&&' operand"@)
            + expect_of(type_of_spec(c, *b), *b, TypeV::Boolean, "'&&' operand"@)),
        ExpKind::Not(a) => (Some(TypeV::Boolean), expect_of(type_of_spec(c, *a), *a, TypeV::Boolean, "'!' operand"@)),
        ExpKind::Index { array, index } => {
            let ra = type_of_spec(c, *array);
            let tail = match ra.0 {
                Some(at) => if at != TypeV::IntArray {
                    seq![err(array.line, array.column, "cannot index type "@ + quoted(type_display(at)) + ": not an int array"@)]
                } else {
                    no_errs()
                },
                None => no_errs(),
            };
            (Some(TypeV::Int), ra.1 + tail + expect_of(type_of_spec(c, *index), *index, TypeV::Int, "array index"@))
        },
        ExpKind::Length(a) => {
            let ra = type_of_spec(c, *a);
            let tail = match ra.0 {
                Some(at) => if at != TypeV::IntArray {
                    seq![err(a.line, a.column, "'.length' requires an int array, found "@ + quoted(type_display(at)))]
                } else {
                    no_errs()
                },
                None => no_errs(),
            };
            (Some(TypeV::Int), ra.1 + tail)
        },
        ExpKind::NewArray(size) => (Some(TypeV::IntArray), expect_of(type_of_spec(c, *size), *size, TypeV::Int, "array size"@)),
        ExpKind::NewObject(name) => if has_class(c.table, name@) {
            (Some(TypeV::Class(name@)), no_errs())
        } else {
            (None, seq![err(e.line, e.column, "cannot instantiate unknown class "@ + quoted(name@))])
        },
        ExpKind::Call { receiver, method, args } => {
            let rr = type_of_spec(c, *receiver);
            match rr.0 {
                None => (None, rr.1),
                Some(TypeV::Class(cn)) => match lookup_method(c.table, cn, method@) {
                    None => (None, rr.1 + seq![err(e.line, e.column, "class "@ + quoted(cn) + " has no method "@ + quoted(method@))]
                        + args_errs(c, args@, Seq::empty(), args@.len())),
                    Some(md) => (Some(md.ret_type@), rr.1 + (if md.params@.len() != args@.len() {
                        seq![err(e.line, e.column, arity_msg(method@, md.params@.len(), args@.len()))]
                    } else {
                        no_errs()
                    }) + args_errs(c, args@, param_types(Some(md)), args@.len())),
                },
                Some(other) => (None, rr.1 + seq![err(receiver.line, receiver.column, "method call requires a class instance, found "@ + quoted(type_display(other)))]),
            }
        },
    }
}

/// The diagnostics of the first `k` arguments of a call to a method with
/// parameter types `ps`; an argument beyond the parameters is only typed.
pub open spec fn args_errs(c: CtxV, args: Seq<Exp>, ps: Seq<TypeV>, k: nat) -> Seq<ErrV>
    decreases args, k,
{
    if k == 0 || k > args.len() {
        no_errs()
    } else {
        let a = args[k - 1];
        let r = type_of_spec(c, a);
        args_errs(c, args, ps, (k - 1) as nat) + r.1 + if k - 1 < ps.len() {
            match r.0 {
                Some(at) => if !assignable(c.table, ps[k - 1], at) {
                    seq![err(a.line, a.column, arg_msg(at, ps[k - 1]))]
                } else {
                    no_errs()
                },
                None => no_errs(),
            }
        } else {
            no_errs()
        }
    }
}

pub open spec fn assign_msg(v: TypeV, name: Seq<char>, t: TypeV) -> Seq<char> {
    "cannot assign value of type "@ + quoted(type_display(v)) + " to "@ + quoted(name) + " of type "@
        + quoted(type_display(t))
}

/// The diagnostics of a statement, in order.
pub open spec fn stmt_errs(c: CtxV, s: Stmt) -> Seq<ErrV>
    decreases s, 0nat,
{
    match s {
        Stmt::Assign { name, value, line, column } => {
            let rv = type_of_spec(c, value);
            rv.1 + match (lookup_var(c, name@), rv.0) {
                (Some(t), Some(v)) => if !assignable(c.table, t, v) {
                    seq![err(line, column, assign_msg(v, name@, t))]
                } else {
                    no_errs()
                },
                (None, _) => seq![err(line, column, "undefined variable "@ + quoted(name@))],
                _ => no_errs(),
            }
        },
        Stmt::ArrayAssign { name, index, value, line, column } => (match lookup_var(c, name@) {
            Some(TypeV::IntArray) => no_errs(),
            Some(other) => seq![err(line, column, "cannot index "@ + quoted(name@) + " of type "@ + quoted(type_display(other)) + ": not an int array"@)],
            None => seq![err(line, column, "undefined variable "@ + quoted(name@))],
        }) + expect_of(type_of_spec(c, index), index, TypeV::Int, "array index"@) + expect_of(
            type_of_spec(c, value),
            value,
            TypeV::Int,
            "array element"@,
        ),
        Stmt::If { cond, then_body, else_body, .. } => expect_of(type_of_spec(c, cond), cond, TypeV::Boolean, "if condition"@)
            + stmts_errs(c, then_body@, then_body@.len()) + match else_body {
            Some(b) => stmts_errs(c, b@, b@.len()),
            None => no_errs(),
        },
        Stmt::While { cond, body, .. } => expect_of(type_of_spec(c, cond), cond, TypeV::Boolean, "while condition"@)
            + stmts_errs(c, body@, body@.len()),
        Stmt::Println { value, .. } => expect_of(type_of_spec(c, value), value, TypeV::Int, "println argument"@),
    }
}

/// The diagnostics of the first `k` statements of `ss`.
pub open spec fn stmts_errs(c: CtxV, ss: Seq<Stmt>, k: nat) -> Seq<ErrV>
    decreases ss, k,
{
    if k == 0 || k > ss.len() {
        no_errs()
    } else {
        stmts_errs(c, ss, (k - 1) as nat) + stmt_errs(c, ss[k - 1])
    }
}

/// The diagnostics of a method: its body, then its return expression.
pub open spec fn method_errs(c: CtxV, m: MethodDecl) -> Seq<ErrV> {
    let r = type_of_spec(c, m.ret_expr);
    stmts_errs(c, m.body@, m.body@.len()) + r.1 + match r.0 {
        Some(rt) => if !assignable(c.table, m.ret_type@, rt) {
            seq![err(m.ret_expr.line, m.ret_expr.column, "return type mismatch: method returns "@
                + quoted(type_display(m.ret_type@)) + " but expression has type "@ + quoted(type_display(rt)))]
        } else {
            no_errs()
        },
        None => no_errs(),
    }
}

/// The static main: no `this`, no fields, no variables.
pub open spec fn main_ctx(t: Seq<ClassV>) -> CtxV {
    CtxV { table: t, current: None, params: Seq::empty(), locals: Seq::empty() }
}

pub open spec fn method_ctx(t: Seq<ClassV>, c: ClassDecl, m: MethodDecl) -> CtxV {
    CtxV { table: t, current: Some(c.name@), params: m.params@, locals: m.locals@ }
}

pub open spec fn class_methods_errs(t: Seq<ClassV>, c: ClassDecl, k: nat) -> Seq<ErrV>
    decreases k,
{
    if k == 0 {
        no_errs()
    } else {
        class_methods_errs(t, c, (k - 1) as nat) + method_errs(
            method_ctx(t, c, c.methods@[k - 1]),
            c.methods@[k - 1],
        )
    }
}

pub open spec fn all_methods_errs(p: Program, t: Seq<ClassV>, k: nat) -> Seq<ErrV>
    decreases k,
{
    if k == 0 {
        no_errs()
    } else {
        all_methods_errs(p, t, (k - 1) as nat) + class_methods_errs(
            t,
            p.classes@[k - 1],
            p.classes@[k - 1].methods@.len(),
        )
    }
}

/// Every diagnostic of `p`, in the order they are found: building the class
/// table, the class-level rules, the main body, then each method.
pub open spec fn collected_errs(p: Program) -> Seq<ErrV> {
    let t = class_table(p);
    table_errs_upto(p, p.classes@.len()) + rules_errs_upto(p, t, p.classes@.len())
        + stmts_errs(main_ctx(t), p.main.body@, p.main.body@.len()) + all_methods_errs(
        p,
        t,
        p.classes@.len(),
    )
}

// ---------- executable lookups ----------

fn chain_field_exec<'a>(t: &Vec<ClassRef<'a>>, cn: &'a str, f: &str) -> (r: Option<Type>)
    ensures
        opt_type_view(r) == chain_field(table_view(t@), cn@, f@, table_view(t@).len() + 1),
{
    let ghost tv = table_view(t@);
    let mut cur: &'a str = cn;
    let mut steps: u128 = 0;
    loop
        invariant
            steps <= tv.len() + 1,
            tv == table_view(t@),
            tv.len() == t@.len(),
            chain_field(tv, cur@, f@, (tv.len() + 1 - steps) as nat) == chain_field(tv, cn@, f@, tv.len() + 1),
        decreases tv.len() + 1 - steps,
    {
        if steps > t.len() as u128 {
            return None;
        }
        steps = steps + 1;
        match lookup_class(t, cur) {
            None => {
                return None;
            },
            Some(info) => {
                match info.field_type(f) {
                    Some(ty) => {
                        return Some(ty);
                    },
                    None => {},
                }
                match info.parent() {
                    None => {
                        return None;
                    },
                    Some(p) => {
                        cur = p.as_str();
                    },
                }
            },
        }
    }
}

fn method_walk_exec<'a>(t: &Vec<ClassRef<'a>>, cn: &str, m: &str) -> (r: Option<&'a MethodDecl>)
    ensures
        match r {
            Some(md) => lookup_method(table_view(t@), cn@, m@) == Some(*md),
            None => lookup_method(table_view(t@), cn@, m@) is None,
        },
{
    let ghost tv = table_view(t@);
    let mut cur: String = cn.to_string();
    let mut steps: u128 = 0;
    loop
        invariant
            steps <= tv.len() + 1,
            tv == table_view(t@),
            tv.len() == t@.len(),
            method_walk(tv, cur@, m@, (tv.len() + 1 - steps) as nat) == lookup_method(tv, cn@, m@),
        decreases tv.len() + 1 - steps,
    {
        if steps > t.len() as u128 {
            return None;
        }
        steps = steps + 1;
        match lookup_class(t, cur.as_str()) {
            None => {
                return None;
            },
            Some(info) => {
                match info.method(m) {
                    Some(md) => {
                        return Some(md);
                    },
                    None => {},
                }
                match info.parent() {
                    None => {
                        return None;
                    },
                    Some(p) => {
                        cur = p.clone();
                    },
                }
            },
        }
    }
}

fn is_subclass_exec(t: &Vec<ClassRef>, sub: &str, sup: &str) -> (r: bool)
    ensures
        r == is_subclass(table_view(t@), sub@, sup@),
{
    let ghost tv = table_view(t@);
    let mut cur: String = sub.to_string();
    let mut steps: u128 = 0;
    loop
        invariant
            steps <= tv.len() + 1,
            tv == table_view(t@),
            tv.len() == t@.len(),
            sub_walk(tv, cur@, sup@, (tv.len() + 1 - steps) as nat) == is_subclass(tv, sub@, sup@),
        decreases tv.len() + 1 - steps,
    {
        if steps > t.len() as u128 {
            return false;
        }
        steps = steps + 1;
        if str_eq(cur.as_str(), sup) {
            return true;
        }
        match lookup_class(t, cur.as_str()) {
            None => {
                return false;
            },
            Some(info) => match info.parent() {
                None => {
                    return false;
                },
                Some(p) => {
                    cur = p.clone();
                },
            },
        }
    }
}

fn assignable_exec(t: &Vec<ClassRef>, target: &Type, value: &Type) -> (r: bool)
    ensures
        r == assignable(table_view(t@), target@, value@),
{
    if target.same(value) {
        return true;
    }
    match (target, value) {
        (Type::Class(sup), Type::Class(sub)) => is_subclass_exec(t, sub.as_str(), sup.as_str()),
        _ => false,
    }
}

fn quote(s: &str) -> (r: String)
    ensures
        r@ == quoted(s@),
{
    cat3("'", s, "'")
}

/// What a method body or the main body is checked against.
struct Checker<'a> {
    table: &'a Vec<ClassRef<'a>>,
    current: Option<&'a String>,
    params: &'a Vec<VarDecl>,
    locals: &'a Vec<VarDecl>,
}

impl<'a> View for Checker<'a> {
    type V = CtxV;

    closed spec fn view(&self) -> CtxV {
        CtxV {
            table: table_view(self.table@),
            current: opt_ref_name(self.current),
            params: self.params@,
            locals: self.locals@,
        }
    }
}

pub open spec fn opt_method_view(o: Option<&MethodDecl>) -> Option<MethodDecl> {
    match o {
        Some(m) => Some(*m),
        None => None,
    }
}

impl<'a> Checker<'a> {
    fn lookup_var_exec(&self, n: &str) -> (r: Option<Type>)
        ensures
            opt_type_view(r) == lookup_var(self@, n@),
    {
        match find_var(self.locals, n) {
            Some(t) => Some(t),
            None => match find_var(self.params, n) {
                Some(t) => Some(t),
                None => match self.current {
                    Some(cn) => chain_field_exec(self.table, cn.as_str(), n),
                    None => None,
                },
            },
        }
    }

    /// Types `e` and requires it to have type `expected`.
    fn expect(&self, e: &Exp, expected: &Type, what: &str, errors: &mut Vec<SemanticError>)
        ensures
            errs_view(final(errors)@) == errs_view(old(errors)@) + expect_of(
                type_of_spec(self@, *e),
                *e,
                expected@,
                what@,
            ),
        decreases e, 3nat,
    {
        let r = self.type_of(e, errors);
        let ghost mid = errs_view(errors@);
        match r {
            Some(actual) => {
                if !actual.same(expected) {
                    let msg = cat4(what, " must be ", quote(expected.display().as_str()).as_str(), ", found ");
                    push_err(errors, e.line, e.column, cat2(msg.as_str(), quote(actual.display().as_str()).as_str()));
                }
            },
            None => {},
        }
        assert(errs_view(errors@) =~= errs_view(old(errors)@) + expect_of(type_of_spec(self@, *e), *e, expected@, what@));
    }


    fn type_of_call(&self, e: &Exp, errors: &mut Vec<SemanticError>) -> (r: Option<Type>)
        requires
            e.kind is Call,
        ensures
            opt_type_view(r) == type_of_spec(self@, *e).0,
            errs_view(final(errors)@) == errs_view(old(errors)@) + type_of_spec(self@, *e).1,
        decreases e, 1nat,
    {
        let ghost e0 = errs_view(errors@);
        let (receiver, method, args) = match &e.kind {
            ExpKind::Call { receiver, method, args } => (receiver, method, args),
            _ => {
                return None;
            },
        };
        let rt = self.type_of(receiver, errors);
        let cn = match rt {
            None => {
                return None;
            },
            Some(Type::Class(cn)) => cn,
            Some(other) => {
                push_err(errors, receiver.line, receiver.column, cat2("method call requires a class instance, found ", quote(other.display().as_str()).as_str()));
                return None;
            },
        };
        let md = method_walk_exec(self.table, cn.as_str(), method.as_str());
        match md {
            None => {
                push_err(errors, e.line, e.column, cat4("class ", quote(cn.as_str()).as_str(), " has no method ", quote(method.as_str()).as_str()));
            },
            Some(m) => {
                if m.params.len() != args.len() {
                    let msg = cat5("method '", method.as_str(), "' expects ", decimal_string(m.params.len()).as_str(), " argument(s), found ");
                    push_err(errors, e.line, e.column, cat2(msg.as_str(), decimal_string(args.len()).as_str()));
                }
            },
        }
        let ghost mid = errs_view(errors@);
        let ghost ps = param_types(opt_method_view(md));
        let nparams: usize = match md {
            Some(m) => m.params.len(),
            None => 0,
        };
        let mut i: usize = 0;
        while i < args.len()
            invariant
                i <= args@.len(),
                e.kind is Call,
                *args == e.kind->Call_args,
                ps == param_types(opt_method_view(md)),
                nparams == ps.len(),
                match md {
                    Some(m) => nparams == m.params@.len(),
                    None => nparams == 0,
                },
                errs_view(errors@) == mid + args_errs(self@, args@, ps, i as nat),
            decreases args@.len() - i,
        {
            proof {
                assert(decreases_to!(*e => e.kind));
                assert(decreases_to!(e.kind => e.kind->Call_args));
                assert(decreases_to!(e.kind->Call_args => e.kind->Call_args@));
                assert(decreases_to!(e.kind->Call_args@ => e.kind->Call_args@[i as int]));
            }
            let ghost before = errs_view(errors@);
            let at = self.type_of(&args[i], errors);
            if i < nparams {
                match (md, at) {
                    (Some(m), Some(a)) => {
                        if !assignable_exec(self.table, &m.params[i].ty, &a) {
                            let msg = cat4("argument type ", quote(a.display().as_str()).as_str(), " is not compatible with parameter type ", quote(m.params[i].ty.display().as_str()).as_str());
                            push_err(errors, args[i].line, args[i].column, msg);
                        }
                    },
                    _ => {},
                }
            }
            assert(errs_view(errors@) =~= mid + args_errs(self@, args@, ps, (i + 1) as nat));
            i = i + 1;
        }
        assert(errs_view(errors@) =~= e0 + type_of_spec(self@, *e).1);
        match md {
            Some(m) => Some(m.ret_type.clone()),
            None => None,
        }
    }

    /// The type of `e`, with its diagnostics appended to `errors`.
    #[verifier::rlimit(90)]
    #[verifier::spinoff_prover]
    fn type_of(&self, e: &Exp, errors: &mut Vec<SemanticError>) -> (r: Option<Type>)
        ensures
            opt_type_view(r) == type_of_spec(self@, *e).0,
            errs_view(final(errors)@) == errs_view(old(errors)@) + type_of_spec(self@, *e).1,
        decreases e, 2nat,
    {
        let ghost e0 = errs_view(errors@);
        match &e.kind {
            ExpKind::Num(_) => {
                assert(errs_view(errors@) =~= e0 + no_errs());
                Some(Type::Int)
            },
            ExpKind::True => {
                assert(errs_view(errors@) =~= e0 + no_errs());
                Some(Type::Boolean)
            },
            ExpKind::False => {
                assert(errs_view(errors@) =~= e0 + no_errs());
                Some(Type::Boolean)
            },
            ExpKind::This => match self.current {
                Some(c) => {
                    assert(errs_view(errors@) =~= e0 + no_errs());
                    Some(Type::Class(c.clone()))
                },
                None => {
                    push_err(errors, e.line, e.column, string_of("'this' cannot be used in static main"));
                    None
                },
            },
            ExpKind::Id(name) => match self.lookup_var_exec(name.as_str()) {
                Some(t) => {
                    assert(errs_view(errors@) =~= e0 + no_errs());
                    Some(t)
                },
                None => {
                    push_err(errors, e.line, e.column, cat2("undefined variable ", quote(name.as_str()).as_str()));
                    None
                },
            },
            ExpKind::Add(a, b) => {
                self.expect(a, &Type::Int, "arithmetic operand", errors);
                self.expect(b, &Type::Int, "arithmetic operand", errors);
                assert(errs_view(errors@) =~= e0 + type_of_spec(self@, *e).1);
                Some(Type::Int)
            },
            ExpKind::Sub(a, b) => {
                self.expect(a, &Type::Int, "arithmetic operand", errors);
                self.expect(b, &Type::Int, "arithmetic operand", errors);
                assert(errs_view(errors@) =~= e0 + type_of_spec(self@, *e).1);
                Some(Type::Int)
            },
            ExpKind::Mul(a, b) => {
                self.expect(a, &Type::Int, "arithmetic operand", errors);
                self.expect(b, &Type::Int, "arithmetic operand", errors);
                assert(errs_view(errors@) =~= e0 + type_of_spec(self@, *e).1);
                Some(Type::Int)
            },
            ExpKind::Less(a, b) => {
                self.expect(a, &Type::Int, "'<' operand", errors);
                self.expect(b, &Type::Int, "'<' operand", errors);
                assert(errs_view(errors@) =~= e0 + type_of_spec(self@, *e).1);
                Some(Type::Boolean)
            },
            ExpKind::And(a, b) => {
                self.expect(a, &Type::Boolean, "'&&' operand", errors);
                self.expect(b, &Type::Boolean, "'&&' operand", errors);
                assert(errs_view(errors@) =~= e0 + type_of_spec(self@, *e).1);
                Some(Type::Boolean)
            },
            ExpKind::Not(a) => {
                self.expect(a, &Type::Boolean, "'!' operand", errors);
                Some(Type::Boolean)
            },
            ExpKind::Index { array, index } => {
                let at = self.type_of(array, errors);
                match at {
                    Some(t) => {
                        if !t.same(&Type::IntArray) {
                            push_err(errors, array.line, array.column, cat3("cannot index type ", quote(t.display().as_str()).as_str(), ": not an int array"));
                        }
                    },
                    None => {},
                }
                self.expect(index, &Type::Int, "array index", errors);
                assert(errs_view(errors@) =~= e0 + type_of_spec(self@, *e).1);
                Some(Type::Int)
            },
            ExpKind::Length(a) => {
                let at = self.type_of(a, errors);
                match at {
                    Some(t) => {
                        if !t.same(&Type::IntArray) {
                            push_err(errors, a.line, a.column, cat2("'.length' requires an int array, found ", quote(t.display().as_str()).as_str()));
                        }
                    },
                    None => {},
                }
                assert(errs_view(errors@) =~= e0 + type_of_spec(self@, *e).1);
                Some(Type::Int)
            },
            ExpKind::NewArray(size) => {
                self.expect(size, &Type::Int, "array size", errors);
                Some(Type::IntArray)
            },
            ExpKind::NewObject(name) => {
                if lookup_class(self.table, name.as_str()).is_some() {
                    assert(errs_view(errors@) =~= e0 + no_errs());
                    Some(Type::Class(name.clone()))
                } else {
                    push_err(errors, e.line, e.column, cat2("cannot instantiate unknown class ", quote(name.as_str()).as_str()));
                    None
                }
            },
            ExpKind::Call { .. } => self.type_of_call(e, errors),
        }
    }
}

impl<'a> Checker<'a> {
    fn check_stmt(&self, st: &Stmt, errors: &mut Vec<SemanticError>)
        ensures
            errs_view(final(errors)@) == errs_view(old(errors)@) + stmt_errs(self@, *st),
        decreases st, 0nat,
    {
        let ghost e0 = errs_view(errors@);
        match st {
            Stmt::Assign { name, value, line, column } => {
                let target = self.lookup_var_exec(name.as_str());
                let vt = self.type_of(value, errors);
                match (target, vt) {
                    (Some(t), Some(v)) => {
                        if !assignable_exec(self.table, &t, &v) {
                            let msg = cat5("cannot assign value of type ", quote(v.display().as_str()).as_str(), " to ", quote(name.as_str()).as_str(), " of type ");
                            push_err(errors, *line, *column, cat2(msg.as_str(), quote(t.display().as_str()).as_str()));
                        }
                    },
                    (None, _) => {
                        push_err(errors, *line, *column, cat2("undefined variable ", quote(name.as_str()).as_str()));
                    },
                    _ => {},
                }
                assert(errs_view(errors@) =~= e0 + stmt_errs(self@, *st));
            },
            Stmt::ArrayAssign { name, index, value, line, column } => {
                match self.lookup_var_exec(name.as_str()) {
                    Some(Type::IntArray) => {},
                    Some(other) => {
                        push_err(errors, *line, *column, cat5("cannot index ", quote(name.as_str()).as_str(), " of type ", quote(other.display().as_str()).as_str(), ": not an int array"));
                    },
                    None => {
                        push_err(errors, *line, *column, cat2("undefined variable ", quote(name.as_str()).as_str()));
                    },
                }
                self.expect(index, &Type::Int, "array index", errors);
                self.expect(value, &Type::Int, "array element", errors);
                assert(errs_view(errors@) =~= e0 + stmt_errs(self@, *st));
            },
            Stmt::If { cond, then_body, else_body, .. } => {
                self.expect(cond, &Type::Boolean, "if condition", errors);
                proof {
                    assert(decreases_to!(*st => st->If_then_body));
                    assert(decreases_to!(st->If_then_body => st->If_then_body@));
                }
                self.check_stmts(then_body, errors);
                match else_body {
                    Some(b) => {
                        proof {
                            assert(decreases_to!(*st => st->If_else_body));
                            assert(decreases_to!(st->If_else_body => st->If_else_body->0));
                            assert(decreases_to!(st->If_else_body->0 => st->If_else_body->0@));
                        }
                        self.check_stmts(b, errors);
                    },
                    None => {},
                }
                assert(errs_view(errors@) =~= e0 + stmt_errs(self@, *st));
            },
            Stmt::While { cond, body, .. } => {
                self.expect(cond, &Type::Boolean, "while condition", errors);
                proof {
                    assert(decreases_to!(*st => st->While_body));
                    assert(decreases_to!(st->While_body => st->While_body@));
                }
                self.check_stmts(body, errors);
                assert(errs_view(errors@) =~= e0 + stmt_errs(self@, *st));
            },
            Stmt::Println { value, .. } => {
                self.expect(value, &Type::Int, "println argument", errors);
            },
        }
    }

    fn check_stmts(&self, ss: &Vec<Stmt>, errors: &mut Vec<SemanticError>)
        ensures
            errs_view(final(errors)@) == errs_view(old(errors)@) + stmts_errs(self@, ss@, ss@.len()),
        decreases ss@, 0nat,
    {
        let mut i: usize = 0;
        while i < ss.len()
            invariant
                i <= ss@.len(),
                errs_view(errors@) == errs_view(old(errors)@) + stmts_errs(self@, ss@, i as nat),
            decreases ss@.len() - i,
        {
            proof {
                assert(decreases_to!(ss@ => ss@[i as int]));
            }
            self.check_stmt(&ss[i], errors);
            assert(errs_view(errors@) =~= errs_view(old(errors)@) + stmts_errs(self@, ss@, (i + 1) as nat));
            i = i + 1;
        }
    }

    fn check_method(&self, m: &MethodDecl, errors: &mut Vec<SemanticError>)
        ensures
            errs_view(final(errors)@) == errs_view(old(errors)@) + method_errs(self@, *m),
    {
        let ghost e0 = errs_view(errors@);
        self.check_stmts(&m.body, errors);
        let rt = self.type_of(&m.ret_expr, errors);
        match rt {
            Some(t) => {
                if !assignable_exec(self.table, &m.ret_type, &t) {
                    let msg = cat4("return type mismatch: method returns ", quote(m.ret_type.display().as_str()).as_str(), " but expression has type ", quote(t.display().as_str()).as_str());
                    push_err(errors, m.ret_expr.line, m.ret_expr.column, msg);
                }
            },
            None => {},
        }
        assert(errs_view(errors@) =~= e0 + method_errs(self@, *m));
    }
}

// -------------------------------------------------------------------------
// Ordering of the diagnostics.
// -------------------------------------------------------------------------

/// `a` is reported no later than `b`: by line, then by column.
pub open spec fn key_le(a: ErrV, b: ErrV) -> bool {
    a.line < b.line || (a.line == b.line && a.column <= b.column)
}

/// `e` placed after every element of `s` whose position is not after its
/// own, scanning from the back.
pub open spec fn sorted_insert(s: Seq<ErrV>, e: ErrV) -> Seq<ErrV>
    decreases s.len(),
{
    if s.len() == 0 {
        seq![e]
    } else if key_le(s.last(), e) {
        s.push(e)
    } else {
        sorted_insert(s.drop_last(), e).push(s.last())
    }
}

/// The first `k` diagnostics of `s`, stably sorted by position.
pub open spec fn sort_errs(s: Seq<ErrV>, k: nat) -> Seq<ErrV>
    decreases k,
{
    if k == 0 || k > s.len() {
        no_errs()
    } else {
        sorted_insert(sort_errs(s, (k - 1) as nat), s[k - 1])
    }
}

/// What `analyze` returns for `p`.
pub open spec fn analyze_spec(p: Program) -> Seq<ErrV> {
    sort_errs(collected_errs(p), collected_errs(p).len())
}

proof fn lemma_sorted_insert_at(s: Seq<ErrV>, e: ErrV, j: int)
    requires
        0 <= j <= s.len(),
        j == 0 || key_le(s[j - 1], e),
        forall|k: int| j <= k < s.len() ==> !key_le(#[trigger] s[k], e),
    ensures
        sorted_insert(s, e) == s.insert(j, e),
    decreases s.len(),
{
    if s.len() == 0 {
        assert(s.insert(j, e) =~= seq![e]);
    } else if j == s.len() {
        assert(s.insert(j, e) =~= s.push(e));
    } else {
        assert(!key_le(s[s.len() - 1], e));
        lemma_sorted_insert_at(s.drop_last(), e, j);
        assert(s.drop_last().insert(j, e).push(s.last()) =~= s.insert(j, e));
    }
}

fn key_le_exec(a: &SemanticError, b: &SemanticError) -> (r: bool)
    ensures
        r == key_le(a@, b@),
{
    a.line < b.line || (a.line == b.line && a.column <= b.column)
}

fn copy_err(e: &SemanticError) -> (r: SemanticError)
    ensures
        r@ == e@,
{
    SemanticError { line: e.line, column: e.column, msg: e.msg.clone() }
}

/// The diagnostics stably sorted by `(line, column)`.
fn sort_by_position(errors: &Vec<SemanticError>) -> (r: Vec<SemanticError>)
    ensures
        errs_view(r@) == sort_errs(errs_view(errors@), errors@.len()),
{
    let ghost ev = errs_view(errors@);
    let mut out: Vec<SemanticError> = Vec::new();
    let mut i: usize = 0;
    while i < errors.len()
        invariant
            i <= errors@.len(),
            ev == errs_view(errors@),
            errs_view(out@) == sort_errs(ev, i as nat),
        decreases errors@.len() - i,
    {
        let e = copy_err(&errors[i]);
        let mut j: usize = out.len();
        while j > 0 && !key_le_exec(&out[j - 1], &e)
            invariant
                j <= out@.len(),
                forall|k: int| j <= k < out@.len() ==> !key_le(#[trigger] out@[k]@, e@),
            decreases j,
        {
            j = j - 1;
        }
        proof {
            let ov = errs_view(out@);
            assert forall|k: int| j <= k < ov.len() implies !key_le(#[trigger] ov[k], e@) by {
                assert(ov[k] == out@[k]@);
            }
            lemma_sorted_insert_at(ov, e@, j as int);
        }
        let ghost prev = out@;
        out.insert(j, e);
        assert(errs_view(out@) =~= errs_view(prev).insert(j as int, errors@[i as int]@));
        i = i + 1;
    }
    out
}

// -------------------------------------------------------------------------
// Entry point.
// -------------------------------------------------------------------------

/// Returns every semantic error of `program`, sorted by position.
pub fn analyze(program: &Program) -> (r: Vec<SemanticError>)
    ensures
        errs_view(r@) == analyze_spec(*program),
{
    let mut errors: Vec<SemanticError> = Vec::new();
    let t = build_class_table(program, &mut errors);
    let ghost tv = table_view(t@);
    check_class_rules(program, &t, &mut errors);
    let empty: Vec<VarDecl> = Vec::new();
    let main_checker = Checker { table: &t, current: None, params: &empty, locals: &empty };
    assert(main_checker@ == main_ctx(tv)) by {
        assert(empty@ =~= Seq::<VarDecl>::empty());
    }
    main_checker.check_stmts(&program.main.body, &mut errors);
    let ghost before_methods = errs_view(errors@);
    let mut k: usize = 0;
    while k < program.classes.len()
        invariant
            k <= program.classes@.len(),
            tv == table_view(t@),
            tv == class_table(*program),
            errs_view(errors@) == before_methods + all_methods_errs(*program, tv, k as nat),
        decreases program.classes@.len() - k,
    {
        let c = &program.classes[k];
        let ghost ck = errs_view(errors@);
        let mut j: usize = 0;
        while j < c.methods.len()
            invariant
                j <= c.methods@.len(),
                k < program.classes@.len(),
                *c == program.classes@[k as int],
                tv == table_view(t@),
                errs_view(errors@) == ck + class_methods_errs(tv, *c, j as nat),
            decreases c.methods@.len() - j,
        {
            let m = &c.methods[j];
            let checker = Checker { table: &t, current: Some(&c.name), params: &m.params, locals: &m.locals };
            assert(checker@ == method_ctx(tv, *c, *m));
            checker.check_method(m, &mut errors);
            assert(errs_view(errors@) =~= ck + class_methods_errs(tv, *c, (j + 1) as nat));
            j = j + 1;
        }
        assert(errs_view(errors@) =~= before_methods + all_methods_errs(*program, tv, (k + 1) as nat));
        k = k + 1;
    }
    assert(errs_view(errors@) =~= collected_errs(*program));
    sort_by_position(&errors)
}

// -------------------------------------------------------------------------
// Laws.
// -------------------------------------------------------------------------

pub open spec fn sorted_by_position(s: Seq<ErrV>) -> bool {
    forall|i: int, j: int| 0 <= i < j < s.len() ==> key_le(#[trigger] s[i], #[trigger] s[j])
}

proof fn lemma_insert_bound(s: Seq<ErrV>, e: ErrV, x: ErrV)
    requires
        forall|i: int| 0 <= i < s.len() ==> key_le(#[trigger] s[i], x),
        key_le(e, x),
    ensures
        sorted_insert(s, e).len() == s.len() + 1,
        forall|i: int| 0 <= i < sorted_insert(s, e).len() ==> key_le(#[trigger] sorted_insert(s, e)[i], x),
    decreases s.len(),
{
    if s.len() > 0 && !key_le(s.last(), e) {
        lemma_insert_bound(s.drop_last(), e, x);
    }
}

proof fn lemma_insert_sorted(s: Seq<ErrV>, e: ErrV)
    requires
        sorted_by_position(s),
    ensures
        sorted_by_position(sorted_insert(s, e)),
    decreases s.len(),
{
    if s.len() == 0 {
    } else if key_le(s.last(), e) {
        let r = s.push(e);
        assert forall|i: int, j: int| 0 <= i < j < r.len() implies key_le(#[trigger] r[i], #[trigger] r[j]) by {
            if j == s.len() && i < s.len() - 1 {
                assert(key_le(s[i], s[s.len() - 1]));
            }
        }
    } else {
        let d = s.drop_last();
        assert(sorted_by_position(d)) by {
            assert forall|i: int, j: int| 0 <= i < j < d.len() implies key_le(#[trigger] d[i], #[trigger] d[j]) by {
                assert(key_le(s[i], s[j]));
            }
        }
        lemma_insert_sorted(d, e);
        assert forall|i: int| 0 <= i < d.len() implies key_le(#[trigger] d[i], s.last()) by {
            assert(key_le(s[i], s[s.len() - 1]));
        }
        lemma_insert_bound(d, e, s.last());
        let q = sorted_insert(d, e);
        let r = q.push(s.last());
        assert forall|i: int, j: int| 0 <= i < j < r.len() implies key_le(#[trigger] r[i], #[trigger] r[j]) by {
            if j < q.len() {
                assert(key_le(q[i], q[j]));
            } else {
                assert(key_le(q[i], s.last()));
            }
        }
    }
}

proof fn lemma_insert_multiset(s: Seq<ErrV>, e: ErrV)
    ensures
        sorted_insert(s, e).to_multiset() =~= s.to_multiset().insert(e),
    decreases s.len(),
{
    broadcast use vstd::seq_lib::group_to_multiset_ensures;

    if s.len() == 0 {
        assert(seq![e] =~= Seq::<ErrV>::empty().push(e));
    } else if key_le(s.last(), e) {
    } else {
        let d = s.drop_last();
        lemma_insert_multiset(d, e);
        assert(d.push(s.last()) =~= s);
    }
}

proof fn lemma_sort_errs(s: Seq<ErrV>, k: nat)
    requires
        k <= s.len(),
    ensures
        sorted_by_position(sort_errs(s, k)),
        sort_errs(s, k).to_multiset() =~= s.take(k as int).to_multiset(),
    decreases k,
{
    broadcast use vstd::seq_lib::group_to_multiset_ensures;

    if k == 0 {
        assert(s.take(0) =~= Seq::<ErrV>::empty());
    } else {
        lemma_sort_errs(s, (k - 1) as nat);
        lemma_insert_sorted(sort_errs(s, (k - 1) as nat), s[k - 1]);
        lemma_insert_multiset(sort_errs(s, (k - 1) as nat), s[k - 1]);
        assert(s.take(k - 1).push(s[k - 1]) =~= s.take(k as int));
    }
}

/// Analysis reports every diagnostic it finds, none lost and none added,
/// in order of source position: by line, then by column.
pub proof fn law_errors_sorted_and_complete(p: Program)
    ensures
        sorted_by_position(analyze_spec(p)),
        analyze_spec(p).to_multiset() == collected_errs(p).to_multiset(),
{
    let s = collected_errs(p);
    lemma_sort_errs(s, s.len());
    assert(s.take(s.len() as int) =~= s);
}

/// Every type is assignable to itself, and an instance of a class declared
/// with `extends` is assignable to its direct superclass.
pub proof fn law_subclass_assignable(t: Seq<ClassV>, sub: Seq<char>, sup: Seq<char>, ty: TypeV)
    requires
        find_class(t, sub) matches Some(info) && info.parent == Some(sup),
    ensures
        assignable(t, ty, ty),
        assignable(t, TypeV::Class(sup), TypeV::Class(sub)),
{
    lemma_find_class_len(t, sub);
    assert(t.len() + 1 >= 2);
    if sub != sup {
        assert(sub_walk(t, sup, sup, t.len() as nat));
    }
}

proof fn lemma_find_class_len(t: Seq<ClassV>, n: Seq<char>)
    ensures
        find_class(t, n) is Some ==> t.len() >= 1,
    decreases t.len(),
{
}

// -------------------------------------------------------------------------
// The extends chain.
// -------------------------------------------------------------------------

/// The class that `x` extends, as the table records it.
pub open spec fn parent_of(t: Seq<ClassV>, x: Seq<char>) -> Option<Seq<char>> {
    match find_class(t, x) {
        Some(info) => info.parent,
        None => None,
    }
}

/// The class reached from `x` after following `i` extends links, if the
/// chain is that long.
pub open spec fn chain_at(t: Seq<ClassV>, x: Seq<char>, i: nat) -> Option<Seq<char>>
    decreases i,
{
    if i == 0 {
        Some(x)
    } else {
        match parent_of(t, x) {
            Some(p) => chain_at(t, p, (i - 1) as nat),
            None => None,
        }
    }
}

proof fn lemma_chain_compose(t: Seq<ClassV>, x: Seq<char>, i: nat, j: nat)
    ensures
        chain_at(t, x, i + j) == match chain_at(t, x, i) {
            Some(y) => chain_at(t, y, j),
            None => None,
        },
    decreases i,
{
    if i > 0 {
        if let Some(p) = parent_of(t, x) {
            lemma_chain_compose(t, p, (i - 1) as nat, j);
            assert((i - 1) as nat + j == (i + j - 1) as nat);
        }
    }
}

/// Reaching `a` after `k` links is seen by a walk with more than `k` steps.
proof fn lemma_chain_hit(t: Seq<ClassV>, x: Seq<char>, a: Seq<char>, k: nat, f: nat)
    requires
        chain_at(t, x, k) == Some(a),
        k < f,
    ensures
        sub_walk(t, x, a, f),
    decreases k,
{
    if k > 0 && x != a {
        let p = parent_of(t, x)->0;
        lemma_chain_hit(t, p, a, (k - 1) as nat, (f - 1) as nat);
    }
}

/// The first place where the chain from `x` reaches `a`; every class before
/// it is in the table and is not `a`.
proof fn lemma_first_hit(t: Seq<ClassV>, x: Seq<char>, a: Seq<char>, f: nat) -> (k: nat)
    requires
        sub_walk(t, x, a, f),
    ensures
        k < f,
        chain_at(t, x, k) == Some(a),
        forall|j: nat| j < k ==> ((#[trigger] chain_at(t, x, j)) matches Some(y) && y != a && find_class(t, y) is Some),
    decreases f,
{
    if x == a {
        0
    } else {
        let p = parent_of(t, x)->0;
        let k1 = lemma_first_hit(t, p, a, (f - 1) as nat);
        assert forall|j: nat| j < k1 + 1 implies ((#[trigger] chain_at(t, x, j)) matches Some(y) && y != a
            && find_class(t, y) is Some) by {
            if j > 0 {
                assert(chain_at(t, x, j) == chain_at(t, p, (j - 1) as nat));
            }
        }
        k1 + 1
    }
}

proof fn lemma_found_name(t: Seq<ClassV>, n: Seq<char>)
    requires
        find_class(t, n) is Some,
    ensures
        t.map_values(|c: ClassV| c.name).contains(n),
    decreases t.len(),
{
    let names = t.map_values(|c: ClassV| c.name);
    if find_class(t.drop_last(), n) is Some {
        lemma_found_name(t.drop_last(), n);
        let names0 = t.drop_last().map_values(|c: ClassV| c.name);
        let i = choose|i: int| 0 <= i < names0.len() && #[trigger] names0[i] == n;
        assert(names[i] == names0[i]);
    } else {
        assert(names[t.len() - 1] == n);
    }
}

/// A chain that reaches `a` does so within as many links as the table has
/// entries, so the walk that `is_subclass` makes sees it.
proof fn lemma_walk_short(t: Seq<ClassV>, x: Seq<char>, a: Seq<char>, f: nat)
    requires
        sub_walk(t, x, a, f),
    ensures
        sub_walk(t, x, a, t.len() + 1),
{
    broadcast use vstd::seq_lib::seq_to_set_is_finite;
    let k = lemma_first_hit(t, x, a, f);
    if k <= t.len() {
        lemma_chain_hit(t, x, a, k, t.len() + 1);
    } else {
        let ws = Seq::new(k, |j: int| chain_at(t, x, j as nat)->0);
        let names = t.map_values(|c: ClassV| c.name);
        assert(ws.to_set().subset_of(names.to_set())) by {
            assert forall|n: Seq<char>| ws.to_set().contains(n) implies names.to_set().contains(n) by {
                let j = choose|j: int| 0 <= j < ws.len() && #[trigger] ws[j] == n;
                assert(chain_at(t, x, j as nat) matches Some(y) && find_class(t, y) is Some);
                lemma_found_name(t, n);
            }
        }
        vstd::set_lib::lemma_len_subset(ws.to_set(), names.to_set());
        names.lemma_cardinality_of_set();
        if ws.no_duplicates() {
            ws.unique_seq_to_set();
            assert(false);
        }
        let (i, j) = choose|i: int, j: int| 0 <= i < ws.len() && 0 <= j < ws.len() && i != j && #[trigger] ws[i] == #[trigger] ws[j];
        let (lo, hi) = if i < j { (i, j) } else { (j, i) };
        let m = (k - hi) as nat;
        lemma_chain_compose(t, x, lo as nat, m);
        lemma_chain_compose(t, x, hi as nat, m);
        assert(chain_at(t, x, lo as nat) matches Some(y) && y == ws[lo]);
        assert(chain_at(t, x, hi as nat) matches Some(y) && y == ws[hi]);
        assert((hi as nat + m) as nat == k);
        let early = (lo as nat + m) as nat;
        assert(early < k);
        assert(chain_at(t, x, early) == Some(a));
        assert(chain_at(t, x, early) matches Some(y) && y != a);
    }
}

/// Subclassing is transitive along extends chains of any length: a class
/// that reaches `b` and a `b` that reaches `a` make a class that reaches
/// `a`, so an instance of it is assignable to `a`.
pub proof fn law_subclass_transitive(t: Seq<ClassV>, c: Seq<char>, b: Seq<char>, a: Seq<char>)
    requires
        is_subclass(t, c, b),
        is_subclass(t, b, a),
    ensures
        is_subclass(t, c, a),
        assignable(t, TypeV::Class(a), TypeV::Class(c)),
{
    let k1 = lemma_first_hit(t, c, b, t.len() + 1);
    let k2 = lemma_first_hit(t, b, a, t.len() + 1);
    lemma_chain_compose(t, c, k1, k2);
    lemma_chain_hit(t, c, a, k1 + k2, k1 + k2 + 1);
    lemma_walk_short(t, c, a, k1 + k2 + 1);
}

/// An instance of a class is assignable to every class above it: to its
/// direct superclass and, through it, to whatever that one is assignable to.
pub proof fn law_extends_chain_assignable(t: Seq<ClassV>, c: Seq<char>, b: Seq<char>, a: Seq<char>)
    requires
        parent_of(t, c) == Some(b),
        is_subclass(t, b, a),
    ensures
        is_subclass(t, c, a),
        assignable(t, TypeV::Class(a), TypeV::Class(c)),
{
    lemma_find_class_len(t, c);
    assert(chain_at(t, c, 1) == chain_at(t, b, 0));
    lemma_chain_hit(t, c, b, 1, t.len() + 1);
    law_subclass_transitive(t, c, b, a);
}

} // verus!
