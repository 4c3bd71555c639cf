//! Three-address code (3AC) intermediate representation and generator.
//!
//! * [`Instr`] — one 3AC instruction: an operation code plus up to three
//!   references ([`SymRef`]) into the scoped [`SymbolTable`] (result and two
//!   operands). Instructions are chained in plain `Vec<Instr>` lists, with
//!   [`concat`] and [`render`] as the list helpers.
//! * Temporaries and labels are inserted into the symbol table by
//!   [`SymbolTable::new_temp`] and [`SymbolTable::new_label`].
//! * [`generate`] — walks the AST bottom-up: children are generated first,
//!   their code fragments are concatenated, and the instructions for the
//!   current node are appended, returning the complete fragment for the node.
//!   Its result is specified by `gen_program_spec`.

use vstd::prelude::*;
use crate::ast::{ClassDecl, Exp, ExpKind, MethodDecl, Program, Stmt, VarDecl};
use crate::symbol_table::{
    intern_result, label_result, lookup_ref, qualified_name_spec, resolve_ref, temp_result,
    SymRef, SymbolTable, SymbolTableV,
};
use crate::text::{cat2, cat4, str_eq, string_of};

verus! {

broadcast use vstd::string::group_string_axioms;

/// Operation code of a 3AC instruction.
#[derive(Debug, Clone, Copy, PartialEq, Eq, Structural)]
pub enum Opcode {
    /// `res = op1`
    Move,
    /// `res = op1 + op2`
    Add,
    /// `res = op1 - op2`
    Sub,
    /// `res = op1 * op2`
    Mul,
    /// `res = op1 < op2`
    Less,
    /// `res = op1 && op2`
    And,
    /// `res = ! op1`
    Not,
    /// `op1:` — bind the label to this point in the code
    Label,
    /// `goto op1`
    Jump,
    /// `ifFalse op1 goto op2`
    IfZ,
    /// `param op1` — push one call argument (receiver first)
    Param,
    /// `res = call op1` — invoke method `op1` with the pushed params
    Call,
    /// `return op1`
    Ret,
    /// `print op1`
    Print,
    /// `res = op1[op2]`
    ArrayLoad,
    /// `res[op1] = op2`
    ArrayStore,
    /// `res = new int[op1]`
    NewArray,
    /// `res = new op1` — instantiate class `op1`
    NewObject,
    /// `res = length op1`
    Length,
    /// `begin op1` — method (or main) prologue
    Begin,
    /// `end op1` — method (or main) epilogue
    End,
}

/// One three-address instruction: an opcode and up to three symbol-table
/// references (a result address and two operand addresses).
#[derive(Debug, Clone, Copy, PartialEq, Eq, Structural)]
pub struct Instr {
    pub op: Opcode,
    pub res: Option<SymRef>,
    pub op1: Option<SymRef>,
    pub op2: Option<SymRef>,
}

impl Instr {
    pub fn new(op: Opcode, res: Option<SymRef>, op1: Option<SymRef>, op2: Option<SymRef>) -> (r: Self)
        ensures
            r == (Instr { op, res, op1, op2 }),
    {
        Instr { op, res, op1, op2 }
    }
}

/// A chainable list of 3AC instructions.
pub type InstrList = Vec<Instr>;

/// Concatenate two instruction lists, returning `a ++ b`.
pub fn concat(a: InstrList, b: InstrList) -> (r: InstrList)
    ensures
        r@ == a@ + b@,
{
    let mut a = a;
    let mut b = b;
    a.append(&mut b);
    a
}

// -------------------------------------------------------------------------
// Rendering.
// -------------------------------------------------------------------------

/// Every reference of `i` names an entry of a table with `n` entries.
pub open spec fn refs_below(i: Instr, n: int) -> bool {
    &&& i.res matches Some(s) ==> s < n
    &&& i.op1 matches Some(s) ==> s < n
    &&& i.op2 matches Some(s) ==> s < n
}

pub open spec fn code_refs_below(code: Seq<Instr>, n: int) -> bool {
    forall|k: int| 0 <= k < code.len() ==> refs_below(#[trigger] code[k], n)
}

/// The name of a referenced entry; empty for no reference.
pub open spec fn sym_name(t: SymbolTableV, o: Option<SymRef>) -> Seq<char> {
    match o {
        Some(s) => t.entries[s as int].name,
        None => Seq::empty(),
    }
}

/// The scope-qualified name of a referenced entry; empty for no reference.
pub open spec fn sym_qname(t: SymbolTableV, o: Option<SymRef>) -> Seq<char> {
    match o {
        Some(s) => qualified_name_spec(t.entries[s as int]),
        None => Seq::empty(),
    }
}

/// One instruction as text.
pub open spec fn instr_text(i: Instr, t: SymbolTableV) -> Seq<char> {
    let res = sym_name(t, i.res);
    let op1 = sym_name(t, i.op1);
    let op2 = sym_name(t, i.op2);
    match i.op {
        Opcode::Move => "  "@ + res + " = "@ + op1,
        Opcode::Add => "  "@ + res + " = "@ + op1 + " + "@ + op2,
        Opcode::Sub => "  "@ + res + " = "@ + op1 + " - "@ + op2,
        Opcode::Mul => "  "@ + res + " = "@ + op1 + " * "@ + op2,
        Opcode::Less => "  "@ + res + " = "@ + op1 + " < "@ + op2,
        Opcode::And => "  "@ + res + " = "@ + op1 + " && "@ + op2,
        Opcode::Not => "  "@ + res + " = ! "@ + op1,
        Opcode::Label => op1 + ":"@,
        Opcode::Jump => "  goto "@ + op1,
        Opcode::IfZ => "  ifFalse "@ + op1 + " goto "@ + op2,
        Opcode::Param => "  param "@ + op1,
        Opcode::Call => "  "@ + res + " = call "@ + sym_qname(t, i.op1),
        Opcode::Ret => "  return "@ + op1,
        Opcode::Print => "  print "@ + op1,
        Opcode::ArrayLoad => "  "@ + res + " = "@ + op1 + "["@ + op2 + "]"@,
        Opcode::ArrayStore => "  "@ + res + "["@ + op1 + "] = "@ + op2,
        Opcode::NewArray => "  "@ + res + " = new int["@ + op1 + "]"@,
        Opcode::NewObject => "  "@ + res + " = new "@ + op1,
        Opcode::Length => "  "@ + res + " = length "@ + op1,
        Opcode::Begin => "begin "@ + sym_qname(t, i.op1),
        Opcode::End => "end "@ + sym_qname(t, i.op1) + "\n"@,
    }
}

/// The first `k` instructions, one per line.
pub open spec fn code_text(code: Seq<Instr>, t: SymbolTableV, k: nat) -> Seq<char>
    decreases k,
{
    if k == 0 || k > code.len() {
        Seq::empty()
    } else {
        code_text(code, t, (k - 1) as nat) + instr_text(code[k - 1], t) + "\n"@
    }
}

pub open spec fn render_spec(code: Seq<Instr>, t: SymbolTableV) -> Seq<char> {
    "three-address code:\n"@ + code_text(code, t, code.len())
}

fn name_text(symbols: &SymbolTable, o: Option<SymRef>) -> (r: String)
    requires
        o matches Some(s) ==> s < symbols@.entries.len(),
    ensures
        r@ == sym_name(symbols@, o),
{
    match o {
        Some(s) => string_of(symbols.name_of(s)),
        None => String::new(),
    }
}

fn qname_text(symbols: &SymbolTable, o: Option<SymRef>) -> (r: String)
    requires
        o matches Some(s) ==> s < symbols@.entries.len(),
    ensures
        r@ == sym_qname(symbols@, o),
{
    match o {
        Some(s) => symbols.qualified_name(s),
        None => String::new(),
    }
}

fn render_instr(instr: &Instr, symbols: &SymbolTable) -> (r: String)
    requires
        refs_below(*instr, symbols@.entries.len() as int),
    ensures
        r@ == instr_text(*instr, symbols@),
{
    let res = name_text(symbols, instr.res);
    let op1 = name_text(symbols, instr.op1);
    let op2 = name_text(symbols, instr.op2);
    let mut out = String::new();
    match instr.op {
        Opcode::Move => {
            out.append("  ");
            out.append(res.as_str());
            out.append(" = ");
            out.append(op1.as_str());
        },
        Opcode::Add => {
            out.append("  ");
            out.append(res.as_str());
            out.append(" = ");
            out.append(op1.as_str());
            out.append(" + ");
            out.append(op2.as_str());
        },
        Opcode::Sub => {
            out.append("  ");
            out.append(res.as_str());
            out.append(" = ");
            out.append(op1.as_str());
            out.append(" - ");
            out.append(op2.as_str());
        },
        Opcode::Mul => {
            out.append("  ");
            out.append(res.as_str());
            out.append(" = ");
            out.append(op1.as_str());
            out.append(" * ");
            out.append(op2.as_str());
        },
        Opcode::Less => {
            out.append("  ");
            out.append(res.as_str());
            out.append(" = ");
            out.append(op1.as_str());
            out.append(" < ");
            out.append(op2.as_str());
        },
        Opcode::And => {
            out.append("  ");
            out.append(res.as_str());
            out.append(" = ");
            out.append(op1.as_str());
            out.append(" && ");
            out.append(op2.as_str());
        },
        Opcode::Not => {
            out.append("  ");
            out.append(res.as_str());
            out.append(" = ! ");
            out.append(op1.as_str());
        },
        Opcode::Label => {
            out.append(op1.as_str());
            out.append(":");
        },
        Opcode::Jump => {
            out.append("  goto ");
            out.append(op1.as_str());
        },
        Opcode::IfZ => {
            out.append("  ifFalse ");
            out.append(op1.as_str());
            out.append(" goto ");
            out.append(op2.as_str());
        },
        Opcode::Param => {
            out.append("  param ");
            out.append(op1.as_str());
        },
        Opcode::Call => {
            let q = qname_text(symbols, instr.op1);
            out.append("  ");
            out.append(res.as_str());
            out.append(" = call ");
            out.append(q.as_str());
        },
        Opcode::Ret => {
            out.append("  return ");
            out.append(op1.as_str());
        },
        Opcode::Print => {
            out.append("  print ");
            out.append(op1.as_str());
        },
        Opcode::ArrayLoad => {
            out.append("  ");
            out.append(res.as_str());
            out.append(" = ");
            out.append(op1.as_str());
            out.append("[");
            out.append(op2.as_str());
            out.append("]");
        },
        Opcode::ArrayStore => {
            out.append("  ");
            out.append(res.as_str());
            out.append("[");
            out.append(op1.as_str());
            out.append("] = ");
            out.append(op2.as_str());
        },
        Opcode::NewArray => {
            out.append("  ");
            out.append(res.as_str());
            out.append(" = new int[");
            out.append(op1.as_str());
            out.append("]");
        },
        Opcode::NewObject => {
            out.append("  ");
            out.append(res.as_str());
            out.append(" = new ");
            out.append(op1.as_str());
        },
        Opcode::Length => {
            out.append("  ");
            out.append(res.as_str());
            out.append(" = length ");
            out.append(op1.as_str());
        },
        Opcode::Begin => {
            let q = qname_text(symbols, instr.op1);
            out.append("begin ");
            out.append(q.as_str());
        },
        Opcode::End => {
            let q = qname_text(symbols, instr.op1);
            out.append("end ");
            out.append(q.as_str());
            out.append("\n");
        },
    }
    assert(out@ =~= instr_text(*instr, symbols@));
    out
}

/// Render an instruction list as readable three-address code, resolving the
/// symbol references against `symbols`.
pub fn render(code: &[Instr], symbols: &SymbolTable) -> (r: String)
    requires
        code_refs_below(code@, symbols@.entries.len() as int),
    ensures
        r@ == render_spec(code@, symbols@),
{
    let mut out = string_of("three-address code:\n");
    let mut k: usize = 0;
    while k < code.len()
        invariant
            k <= code@.len(),
            code_refs_below(code@, symbols@.entries.len() as int),
            out@ == "three-address code:\n"@ + code_text(code@, symbols@, k as nat),
        decreases code@.len() - k,
    {
        let line = render_instr(&code[k], symbols);
        out.append(line.as_str());
        out.append("\n");
        k = k + 1;
        assert(out@ =~= "three-address code:\n"@ + code_text(code@, symbols@, k as nat));
    }
    out
}

// -------------------------------------------------------------------------
// The generator's specification.
// -------------------------------------------------------------------------

/// The last of the first `k` class declarations named `n` (a later
/// declaration of a name replaces an earlier one).
pub open spec fn last_decl(cs: Seq<ClassDecl>, n: Seq<char>, k: nat) -> Option<ClassDecl>
    decreases k,
{
    if k == 0 {
        None
    } else if cs[k - 1].name@ == n {
        Some(cs[k - 1])
    } else {
        last_decl(cs, n, (k - 1) as nat)
    }
}

pub open spec fn class_named(cs: Seq<ClassDecl>, n: Seq<char>) -> Option<ClassDecl> {
    last_decl(cs, n, cs.len())
}

/// How many different names the first `k` declarations use.
pub open spec fn distinct_names(cs: Seq<ClassDecl>, k: nat) -> nat
    decreases k,
{
    if k == 0 {
        0
    } else {
        distinct_names(cs, (k - 1) as nat) + if exists|j: int|
            0 <= j < k - 1 && #[trigger] cs[j].name@ == cs[k - 1].name@ {
            0nat
        } else {
            1nat
        }
    }
}

/// What the generator works against: the class declarations, how many
/// classes an `extends` walk may visit, the scope new temporaries and labels
/// go to, the class of the method being generated, and the variables in
/// sight with their table entries (a later pair shadows an earlier one).
pub struct GenCtx {
    pub classes: Seq<ClassDecl>,
    pub fuel: nat,
    pub scope: Seq<char>,
    pub current: Option<Seq<char>>,
    pub env: Seq<(Seq<char>, SymRef)>,
}

/// The entry of the last of the first `k` pairs named `n`.
pub open spec fn env_sym(env: Seq<(Seq<char>, SymRef)>, n: Seq<char>, k: nat) -> Option<SymRef>
    decreases k,
{
    if k == 0 || k > env.len() {
        None
    } else if env[k - 1].0 == n {
        Some(env[k - 1].1)
    } else {
        env_sym(env, n, (k - 1) as nat)
    }
}

/// A variable use: the variable in sight, else the name resolved from the
/// current scope outward, else an interned name.
pub open spec fn var_result(g: GenCtx, t: SymbolTableV, n: Seq<char>) -> (SymRef, SymbolTableV) {
    match env_sym(g.env, n, g.env.len()) {
        Some(s) => (s, t),
        None => match resolve_ref(t, g.scope, n) {
            Some(s) => (s, t),
            None => intern_result(t, n, "-"@),
        },
    }
}

/// The entry found in `scope`, else the interned name.
pub open spec fn lookup_or_intern(t: SymbolTableV, scope: Seq<char>, n: Seq<char>) -> (SymRef, SymbolTableV) {
    match lookup_ref(t, scope, n) {
        Some(s) => (s, t),
        None => intern_result(t, n, "-"@),
    }
}

pub open spec fn global_scope(cn: Seq<char>) -> Seq<char> {
    "global::"@ + cn
}

/// The entry of method `m` declared in class `cn` or its nearest ancestor,
/// visiting at most `fuel` classes.
pub open spec fn method_ref_walk(g: GenCtx, t: SymbolTableV, cn: Seq<char>, m: Seq<char>, fuel: nat) -> Option<SymRef>
    decreases fuel,
{
    if fuel == 0 {
        None
    } else {
        match lookup_ref(t, global_scope(cn), m) {
            Some(s) => Some(s),
            None => match class_named(g.classes, cn) {
                Some(d) => match d.parent {
                    Some(p) => method_ref_walk(g, t, p@, m, (fuel - 1) as nat),
                    None => None,
                },
                None => None,
            },
        }
    }
}

/// The entry a call of `m` on `receiver` refers to: found statically when
/// the receiver is `new C()` or `this`, otherwise the interned method name
/// (the receiver is passed as the first `param` for dynamic dispatch).
pub open spec fn call_target(g: GenCtx, t: SymbolTableV, receiver: Exp, m: Seq<char>) -> (SymRef, SymbolTableV) {
    let static_class = match receiver.kind {
        ExpKind::NewObject(cn) => Some(cn@),
        ExpKind::This => g.current,
        _ => None,
    };
    match static_class {
        Some(cn) => match method_ref_walk(g, t, cn, m, g.fuel) {
            Some(s) => (s, t),
            None => intern_result(t, m, "method"@),
        },
        None => intern_result(t, m, "method"@),
    }
}

pub open spec fn instr(op: Opcode, res: Option<SymRef>, op1: Option<SymRef>, op2: Option<SymRef>) -> Instr {
    Instr { op, res, op1, op2 }
}

/// `op a b` into a fresh temporary of type `ty`, after the code of both
/// operands.
pub open spec fn binary_result(
    g: GenCtx,
    op: Opcode,
    ra: (Seq<Instr>, SymRef, SymbolTableV),
    rb: (Seq<Instr>, SymRef, SymbolTableV),
    ty: Seq<char>,
) -> (Seq<Instr>, SymRef, SymbolTableV) {
    let (res, t) = temp_result(rb.2, g.scope, ty);
    (ra.0 + rb.0 + seq![instr(op, Some(res), Some(ra.1), Some(rb.1))], res, t)
}

/// `op a` into a fresh temporary of type `ty`, after the code of `a`.
pub open spec fn unary_result(g: GenCtx, op: Opcode, ra: (Seq<Instr>, SymRef, SymbolTableV), ty: Seq<char>) -> (
    Seq<Instr>,
    SymRef,
    SymbolTableV,
) {
    let (res, t) = temp_result(ra.2, g.scope, ty);
    (ra.0.push(instr(op, Some(res), Some(ra.1), None)), res, t)
}

/// One `param` per reference, in order.
pub open spec fn params_code(syms: Seq<SymRef>) -> Seq<Instr> {
    Seq::new(syms.len(), |i: int| instr(Opcode::Param, None, Some(syms[i]), None))
}

/// The code of `e`, the entry holding its value, and the table afterwards.
pub open spec fn gen_exp_spec(g: GenCtx, t: SymbolTableV, e: Exp) -> (Seq<Instr>, SymRef, SymbolTableV)
    decreases e, 0nat,
{
    match e.kind {
        ExpKind::Num(n) => {
            let (s, t1) = intern_result(t, n@, "int"@);
            (Seq::empty(), s, t1)
        },
        ExpKind::True => {
            let (s, t1) = intern_result(t, "true"@, "boolean"@);
            (Seq::empty(), s, t1)
        },
        ExpKind::False => {
            let (s, t1) = intern_result(t, "false"@, "boolean"@);
            (Seq::empty(), s, t1)
        },
        ExpKind::This => {
            let (s, t1) = intern_result(t, "this"@, "-"@);
            (Seq::empty(), s, t1)
        },
        ExpKind::Id(name) => {
            let (s, t1) = var_result(g, t, name@);
            (Seq::empty(), s, t1)
        },
        ExpKind::Add(a, b) => {
            let ra = gen_exp_spec(g, t, *a);
            binary_result(g, Opcode::Add, ra, gen_exp_spec(g, ra.2, *b), "int"@)
        },
        ExpKind::Sub(a, b) => {
            let ra = gen_exp_spec(g, t, *a);
            binary_result(g, Opcode::Sub, ra, gen_exp_spec(g, ra.2, *b), "int"@)
        },
        ExpKind::Mul(a, b) => {
            let ra = gen_exp_spec(g, t, *a);
            binary_result(g, Opcode::Mul, ra, gen_exp_spec(g, ra.2, *b), "int"@)
        },
        ExpKind::Less(a, b) => {
            let ra = gen_exp_spec(g, t, *a);
            binary_result(g, Opcode::Less, ra, gen_exp_spec(g, ra.2, *b), "boolean"@)
        },
        ExpKind::And(a, b) => {
            let ra = gen_exp_spec(g, t, *a);
            binary_result(g, Opcode::And, ra, gen_exp_spec(g, ra.2, *b), "boolean"@)
        },
        ExpKind::Not(a) => unary_result(g, Opcode::Not, gen_exp_spec(g, t, *a), "boolean"@),
        ExpKind::Index { array, index } => {
            let ra = gen_exp_spec(g, t, *array);
            binary_result(g, Opcode::ArrayLoad, ra, gen_exp_spec(g, ra.2, *index), "int"@)
        },
        ExpKind::Length(a) => unary_result(g, Opcode::Length, gen_exp_spec(g, t, *a), "int"@),
        ExpKind::NewArray(size) => unary_result(g, Opcode::NewArray, gen_exp_spec(g, t, *size), "int[]"@),
        ExpKind::NewObject(name) => {
            let (cs, t1) = lookup_or_intern(t, "global"@, name@);
            let (res, t2) = temp_result(t1, g.scope, name@);
            (seq![instr(Opcode::NewObject, Some(res), Some(cs), None)], res, t2)
        },
        ExpKind::Call { receiver, method, args } => {
            let rr = gen_exp_spec(g, t, *receiver);
            let ra = gen_args_spec(g, rr.2, args@, args@.len());
            let (ms, t1) = call_target(g, ra.2, *receiver, method@);
            let (res, t2) = temp_result(t1, g.scope, "-"@);
            (
                rr.0 + ra.0 + params_code(seq![rr.1] + ra.1) + seq![instr(Opcode::Call, Some(res), Some(ms), None)],
                res,
                t2,
            )
        },
    }
}

/// The code of the first `k` arguments, one after the other, with the
/// entries holding their values.
pub open spec fn gen_args_spec(g: GenCtx, t: SymbolTableV, args: Seq<Exp>, k: nat) -> (Seq<Instr>, Seq<SymRef>, SymbolTableV)
    decreases args, k,
{
    if k == 0 || k > args.len() {
        (Seq::empty(), Seq::empty(), t)
    } else {
        let prev = gen_args_spec(g, t, args, (k - 1) as nat);
        let r = gen_exp_spec(g, prev.2, args[k - 1]);
        (prev.0 + r.0, prev.1.push(r.1), r.2)
    }
}

/// The code of a statement and the table afterwards.
pub open spec fn gen_stmt_spec(g: GenCtx, t: SymbolTableV, s: Stmt) -> (Seq<Instr>, SymbolTableV)
    decreases s, 0nat,
{
    match s {
        Stmt::Assign { name, value, .. } => {
            let rv = gen_exp_spec(g, t, value);
            let (target, t1) = var_result(g, rv.2, name@);
            (rv.0.push(instr(Opcode::Move, Some(target), Some(rv.1), None)), t1)
        },
        Stmt::ArrayAssign { name, index, value, .. } => {
            let ri = gen_exp_spec(g, t, index);
            let rv = gen_exp_spec(g, ri.2, value);
            let (arr, t1) = var_result(g, rv.2, name@);
            ((ri.0 + rv.0).push(instr(Opcode::ArrayStore, Some(arr), Some(ri.1), Some(rv.1))), t1)
        },
        Stmt::If { cond, then_body, else_body, .. } => {
            let rc = gen_exp_spec(g, t, cond);
            match else_body {
                Some(eb) => {
                    let (l_else, t1) = label_result(rc.2, g.scope);
                    let (l_end, t2) = label_result(t1, g.scope);
                    let rt = gen_stmts_spec(g, t2, then_body@, then_body@.len());
                    let re = gen_stmts_spec(g, rt.1, eb@, eb@.len());
                    (
                        rc.0.push(instr(Opcode::IfZ, None, Some(rc.1), Some(l_else))) + rt.0 + seq![
                            instr(Opcode::Jump, None, Some(l_end), None),
                            instr(Opcode::Label, None, Some(l_else), None),
                        ] + re.0 + seq![instr(Opcode::Label, None, Some(l_end), None)],
                        re.1,
                    )
                },
                None => {
                    let (l_end, t1) = label_result(rc.2, g.scope);
                    let rt = gen_stmts_spec(g, t1, then_body@, then_body@.len());
                    (
                        rc.0.push(instr(Opcode::IfZ, None, Some(rc.1), Some(l_end))) + rt.0 + seq![
                            instr(Opcode::Label, None, Some(l_end), None),
                        ],
                        rt.1,
                    )
                },
            }
        },
        Stmt::While { cond, body, .. } => {
            let (l_begin, t1) = label_result(t, g.scope);
            let (l_end, t2) = label_result(t1, g.scope);
            let rc = gen_exp_spec(g, t2, cond);
            let rb = gen_stmts_spec(g, rc.2, body@, body@.len());
            (
                seq![instr(Opcode::Label, None, Some(l_begin), None)] + rc.0 + seq![
                    instr(Opcode::IfZ, None, Some(rc.1), Some(l_end)),
                ] + rb.0 + seq![
                    instr(Opcode::Jump, None, Some(l_begin), None),
                    instr(Opcode::Label, None, Some(l_end), None),
                ],
                rb.1,
            )
        },
        Stmt::Println { value, .. } => {
            let rv = gen_exp_spec(g, t, value);
            (rv.0.push(instr(Opcode::Print, None, Some(rv.1), None)), rv.2)
        },
    }
}

/// The code of the first `k` statements, one after the other.
pub open spec fn gen_stmts_spec(g: GenCtx, t: SymbolTableV, ss: Seq<Stmt>, k: nat) -> (Seq<Instr>, SymbolTableV)
    decreases ss, k,
{
    if k == 0 || k > ss.len() {
        (Seq::empty(), t)
    } else {
        let prev = gen_stmts_spec(g, t, ss, (k - 1) as nat);
        let r = gen_stmt_spec(g, prev.1, ss[k - 1]);
        (prev.0 + r.0, r.1)
    }
}

/// The classes on the `extends` chain from `cn`, nearest first, at most
/// `fuel` of them.
pub open spec fn class_chain(cs: Seq<ClassDecl>, cn: Seq<char>, fuel: nat) -> Seq<Seq<char>>
    decreases fuel,
{
    if fuel == 0 {
        Seq::empty()
    } else {
        seq![cn] + match class_named(cs, cn) {
            Some(d) => match d.parent {
                Some(p) => class_chain(cs, p@, (fuel - 1) as nat),
                None => Seq::empty(),
            },
            None => Seq::empty(),
        }
    }
}

/// A `(name, entry)` pair for each of the first `k` declarations found in
/// `scope`.
pub open spec fn var_entries(t: SymbolTableV, scope: Seq<char>, vs: Seq<VarDecl>, k: nat) -> Seq<(Seq<char>, SymRef)>
    decreases k,
{
    if k == 0 || k > vs.len() {
        Seq::empty()
    } else {
        var_entries(t, scope, vs, (k - 1) as nat) + match lookup_ref(t, scope, vs[k - 1].name@) {
            Some(s) => seq![(vs[k - 1].name@, s)],
            None => Seq::empty(),
        }
    }
}

pub open spec fn class_field_entries(t: SymbolTableV, cs: Seq<ClassDecl>, cn: Seq<char>) -> Seq<(Seq<char>, SymRef)> {
    match class_named(cs, cn) {
        Some(d) => var_entries(t, global_scope(cn), d.fields@, d.fields@.len()),
        None => Seq::empty(),
    }
}

/// The fields of the classes of `chain`, farthest ancestor first, so that a
/// nearer declaration shadows an inherited one.
pub open spec fn chain_fields(t: SymbolTableV, cs: Seq<ClassDecl>, chain: Seq<Seq<char>>) -> Seq<(Seq<char>, SymRef)>
    decreases chain.len(),
{
    if chain.len() == 0 {
        Seq::empty()
    } else {
        chain_fields(t, cs, chain.drop_first()) + class_field_entries(t, cs, chain[0])
    }
}

pub open spec fn method_scope(c: ClassDecl, m: MethodDecl) -> Seq<char> {
    "global::"@ + c.name@ + "::"@ + m.name@
}

/// The variables in sight in method `m` of class `c`: inherited and own
/// fields, then parameters, then locals.
pub open spec fn method_env(t: SymbolTableV, cs: Seq<ClassDecl>, fuel: nat, c: ClassDecl, m: MethodDecl) -> Seq<(Seq<char>, SymRef)> {
    chain_fields(t, cs, class_chain(cs, c.name@, fuel)) + var_entries(
        t,
        method_scope(c, m),
        m.params@,
        m.params@.len(),
    ) + var_entries(t, method_scope(c, m), m.locals@, m.locals@.len())
}

/// The code of method `m` of class `c`: `begin`, the body, the return
/// expression, `return`, `end`.
pub open spec fn gen_method_spec(cs: Seq<ClassDecl>, fuel: nat, t: SymbolTableV, c: ClassDecl, m: MethodDecl) -> (Seq<Instr>, SymbolTableV) {
    let g = GenCtx {
        classes: cs,
        fuel,
        scope: method_scope(c, m),
        current: Some(c.name@),
        env: method_env(t, cs, fuel, c, m),
    };
    let (ms, t1) = lookup_or_intern(t, global_scope(c.name@), m.name@);
    let rb = gen_stmts_spec(g, t1, m.body@, m.body@.len());
    let rr = gen_exp_spec(g, rb.1, m.ret_expr);
    (
        seq![instr(Opcode::Begin, None, Some(ms), None)] + rb.0 + rr.0 + seq![
            instr(Opcode::Ret, None, Some(rr.1), None),
            instr(Opcode::End, None, Some(ms), None),
        ],
        rr.2,
    )
}

pub open spec fn gen_class_spec(cs: Seq<ClassDecl>, fuel: nat, t: SymbolTableV, c: ClassDecl, k: nat) -> (Seq<Instr>, SymbolTableV)
    decreases k,
{
    if k == 0 || k > c.methods@.len() {
        (Seq::empty(), t)
    } else {
        let prev = gen_class_spec(cs, fuel, t, c, (k - 1) as nat);
        let r = gen_method_spec(cs, fuel, prev.1, c, c.methods@[k - 1]);
        (prev.0 + r.0, r.1)
    }
}

pub open spec fn gen_classes_spec(cs: Seq<ClassDecl>, fuel: nat, t: SymbolTableV, k: nat) -> (Seq<Instr>, SymbolTableV)
    decreases k,
{
    if k == 0 || k > cs.len() {
        (Seq::empty(), t)
    } else {
        let prev = gen_classes_spec(cs, fuel, t, (k - 1) as nat);
        let r = gen_class_spec(cs, fuel, prev.1, cs[k - 1], cs[k - 1].methods@.len());
        (prev.0 + r.0, r.1)
    }
}

/// The code of the whole program and the table afterwards: the main body
/// between `begin` and `end`, then every method of every class in order.
pub open spec fn gen_program_spec(p: Program, t: SymbolTableV) -> (Seq<Instr>, SymbolTableV) {
    let cs = p.classes@;
    let fuel = distinct_names(cs, cs.len()) + 1;
    let g = GenCtx {
        classes: cs,
        fuel,
        scope: "global::"@ + p.main.name@ + "::main"@,
        current: None,
        env: Seq::empty(),
    };
    let (ms, t1) = lookup_or_intern(t, "global"@, p.main.name@);
    let rb = gen_stmts_spec(g, t1, p.main.body@, p.main.body@.len());
    let rc = gen_classes_spec(cs, fuel, rb.1, cs.len());
    (
        seq![instr(Opcode::Begin, None, Some(ms), None)] + rb.0 + seq![
            instr(Opcode::End, None, Some(ms), None),
        ] + rc.0,
        rc.1,
    )
}

// -------------------------------------------------------------------------
// The generator.
// -------------------------------------------------------------------------

/// `b` extends `a`: the table only grows, and what was there stays.
pub open spec fn grows(a: SymbolTableV, b: SymbolTableV) -> bool {
    &&& a.entries.len() <= b.entries.len()
    &&& forall|i: int| 0 <= i < a.entries.len() ==> #[trigger] b.entries[i] == a.entries[i]
}

pub open spec fn env_below(env: Seq<(Seq<char>, SymRef)>, n: int) -> bool {
    forall|k: int| 0 <= k < env.len() ==> (#[trigger] env[k]).1 < n
}

proof fn lemma_refs_concat(a: Seq<Instr>, b: Seq<Instr>, n: int, m: int)
    requires
        code_refs_below(a, n),
        code_refs_below(b, m),
        n <= m,
    ensures
        code_refs_below(a + b, m),
{
    assert forall|k: int| 0 <= k < (a + b).len() implies refs_below(#[trigger] (a + b)[k], m) by {
        if k < a.len() {
            assert(refs_below(a[k], n));
        } else {
            assert(refs_below(b[k - a.len()], m));
        }
    }
}

proof fn lemma_refs_mono(a: Seq<Instr>, n: int, m: int)
    requires
        code_refs_below(a, n),
        n <= m,
    ensures
        code_refs_below(a, m),
{
    assert forall|k: int| 0 <= k < a.len() implies refs_below(#[trigger] a[k], m) by {
        assert(refs_below(a[k], n));
    }
}

/// A variable in sight and its table entry.
struct EnvEntry {
    name: String,
    sym: SymRef,
}

spec fn env_view(v: Seq<EnvEntry>) -> Seq<(Seq<char>, SymRef)> {
    v.map_values(|e: EnvEntry| (e.name@, e.sym))
}

struct Generator<'a> {
    classes: &'a Vec<ClassDecl>,
    fuel: u128,
    scope: String,
    current: Option<String>,
    env: Vec<EnvEntry>,
}

pub open spec fn opt_string(o: Option<String>) -> Option<Seq<char>> {
    match o {
        Some(s) => Some(s@),
        None => None,
    }
}

impl<'a> View for Generator<'a> {
    type V = GenCtx;

    closed spec fn view(&self) -> GenCtx {
        GenCtx {
            classes: self.classes@,
            fuel: self.fuel as nat,
            scope: self.scope@,
            current: opt_string(self.current),
            env: env_view(self.env@),
        }
    }
}

fn env_lookup(env: &Vec<EnvEntry>, n: &str) -> (r: Option<SymRef>)
    ensures
        r == env_sym(env_view(env@), n@, env@.len()),
{
    let ghost ev = env_view(env@);
    let mut found: Option<SymRef> = None;
    let mut i: usize = 0;
    while i < env.len()
        invariant
            i <= env@.len(),
            ev == env_view(env@),
            found == env_sym(ev, n@, i as nat),
        decreases env@.len() - i,
    {
        if str_eq(env[i].name.as_str(), n) {
            found = Some(env[i].sym);
        }
        i = i + 1;
    }
    found
}

/// The last class declared with name `n`.
fn find_class_decl<'a>(cs: &'a Vec<ClassDecl>, n: &str) -> (r: Option<&'a ClassDecl>)
    ensures
        match r {
            Some(c) => class_named(cs@, n@) == Some(*c),
            None => class_named(cs@, n@) is None,
        },
{
    let mut found: Option<&'a ClassDecl> = None;
    let mut i: usize = 0;
    while i < cs.len()
        invariant
            i <= cs@.len(),
            match found {
                Some(c) => last_decl(cs@, n@, i as nat) == Some(*c),
                None => last_decl(cs@, n@, i as nat) is None,
            },
        decreases cs@.len() - i,
    {
        if str_eq(cs[i].name.as_str(), n) {
            found = Some(&cs[i]);
        }
        i = i + 1;
    }
    found
}

fn count_distinct_names(cs: &Vec<ClassDecl>) -> (r: usize)
    ensures
        r == distinct_names(cs@, cs@.len()),
{
    let mut count: usize = 0;
    let mut k: usize = 0;
    while k < cs.len()
        invariant
            k <= cs@.len(),
            count == distinct_names(cs@, k as nat),
            count <= k,
        decreases cs@.len() - k,
    {
        let mut seen = false;
        let mut j: usize = 0;
        while j < k
            invariant
                j <= k < cs@.len(),
                seen == exists|i: int| 0 <= i < j && #[trigger] cs@[i].name@ == cs@[k as int].name@,
            decreases k - j,
        {
            if str_eq(cs[j].name.as_str(), cs[k].name.as_str()) {
                seen = true;
            }
            j = j + 1;
        }
        if !seen {
            count = count + 1;
        }
        k = k + 1;
    }
    count
}

fn global_of(cn: &str) -> (r: String)
    ensures
        r@ == global_scope(cn@),
{
    cat2("global::", cn)
}

impl<'a> Generator<'a> {
    fn var(&self, symbols: &mut SymbolTable, name: &str) -> (r: SymRef)
        requires
            old(symbols).wf(),
            env_below(self@.env, old(symbols)@.entries.len() as int),
        ensures
            final(symbols).wf(),
            r == var_result(self@, old(symbols)@, name@).0,
            final(symbols)@ == var_result(self@, old(symbols)@, name@).1,
            grows(old(symbols)@, final(symbols)@),
            r < final(symbols)@.entries.len(),
    {
        match env_lookup(&self.env, name) {
            Some(s) => {
                proof {
                    lemma_env_sym_in(self@.env, name@, self@.env.len(), old(symbols)@.entries.len() as int);
                }
                s
            },
            None => match symbols.resolve(self.scope.as_str(), name) {
                Some(s) => s,
                None => symbols.intern_const(name, "-"),
            },
        }
    }

    fn temp(&self, symbols: &mut SymbolTable, ty: &str) -> (r: SymRef)
        requires
            old(symbols).wf(),
        ensures
            final(symbols).wf(),
            r == temp_result(old(symbols)@, self@.scope, ty@).0,
            final(symbols)@ == temp_result(old(symbols)@, self@.scope, ty@).1,
            grows(old(symbols)@, final(symbols)@),
            r < final(symbols)@.entries.len(),
    {
        symbols.new_temp(self.scope.as_str(), ty)
    }

    fn label(&self, symbols: &mut SymbolTable) -> (r: SymRef)
        requires
            old(symbols).wf(),
        ensures
            final(symbols).wf(),
            r == label_result(old(symbols)@, self@.scope).0,
            final(symbols)@ == label_result(old(symbols)@, self@.scope).1,
            grows(old(symbols)@, final(symbols)@),
            r < final(symbols)@.entries.len(),
    {
        symbols.new_label(self.scope.as_str())
    }
}

proof fn lemma_env_sym_in(env: Seq<(Seq<char>, SymRef)>, n: Seq<char>, k: nat, bound: int)
    requires
        env_below(env, bound),
    ensures
        env_sym(env, n, k) matches Some(s) ==> s < bound,
    decreases k,
{
    if k > 0 && k <= env.len() && env[k - 1].0 != n {
        lemma_env_sym_in(env, n, (k - 1) as nat, bound);
    }
}

fn lookup_or_intern_exec(symbols: &mut SymbolTable, scope: &str, n: &str) -> (r: SymRef)
    ensures
        old(symbols).wf() ==> final(symbols).wf(),
        r == lookup_or_intern(old(symbols)@, scope@, n@).0,
        final(symbols)@ == lookup_or_intern(old(symbols)@, scope@, n@).1,
        grows(old(symbols)@, final(symbols)@),
        r < final(symbols)@.entries.len(),
{
    match symbols.lookup(scope, n) {
        Some(s) => s,
        None => symbols.intern_const(n, "-"),
    }
}

impl<'a> Generator<'a> {
    /// `op a b` into a fresh temporary of type `ty`.
    fn finish_binary(
        &self,
        symbols: &mut SymbolTable,
        op: Opcode,
        ca: InstrList,
        sa: SymRef,
        cb: InstrList,
        sb: SymRef,
        ty: &str,
    ) -> (r: (InstrList, SymRef))
        requires
            old(symbols).wf(),
            code_refs_below(ca@, old(symbols)@.entries.len() as int),
            code_refs_below(cb@, old(symbols)@.entries.len() as int),
            sa < old(symbols)@.entries.len(),
            sb < old(symbols)@.entries.len(),
        ensures
            final(symbols).wf(),
            r.1 == temp_result(old(symbols)@, self@.scope, ty@).0,
            final(symbols)@ == temp_result(old(symbols)@, self@.scope, ty@).1,
            r.0@ == ca@ + cb@ + seq![instr(op, Some(r.1), Some(sa), Some(sb))],
            grows(old(symbols)@, final(symbols)@),
            r.1 < final(symbols)@.entries.len(),
            code_refs_below(r.0@, final(symbols)@.entries.len() as int),
    {
        let res = self.temp(symbols, ty);
        let mut code = concat(ca, cb);
        let ghost before = code@;
        code.push(Instr::new(op, Some(res), Some(sa), Some(sb)));
        proof {
            let n = final(symbols)@.entries.len() as int;
            lemma_refs_concat(ca@, cb@, old(symbols)@.entries.len() as int, n);
            lemma_refs_concat(before, seq![instr(op, Some(res), Some(sa), Some(sb))], n, n);
            assert(code@ =~= before + seq![instr(op, Some(res), Some(sa), Some(sb))]);
        }
        (code, res)
    }

    /// `op a` into a fresh temporary of type `ty`.
    fn finish_unary(&self, symbols: &mut SymbolTable, op: Opcode, ca: InstrList, sa: SymRef, ty: &str) -> (r: (
        InstrList,
        SymRef,
    ))
        requires
            old(symbols).wf(),
            code_refs_below(ca@, old(symbols)@.entries.len() as int),
            sa < old(symbols)@.entries.len(),
        ensures
            final(symbols).wf(),
            r.1 == temp_result(old(symbols)@, self@.scope, ty@).0,
            final(symbols)@ == temp_result(old(symbols)@, self@.scope, ty@).1,
            r.0@ == ca@.push(instr(op, Some(r.1), Some(sa), None)),
            grows(old(symbols)@, final(symbols)@),
            r.1 < final(symbols)@.entries.len(),
            code_refs_below(r.0@, final(symbols)@.entries.len() as int),
    {
        let res = self.temp(symbols, ty);
        let mut code = ca;
        code.push(Instr::new(op, Some(res), Some(sa), None));
        proof {
            let n = final(symbols)@.entries.len() as int;
            lemma_refs_mono(ca@, old(symbols)@.entries.len() as int, n);
            assert forall|k: int| 0 <= k < code@.len() implies refs_below(#[trigger] code@[k], n) by {
                if k < ca@.len() {
                    assert(refs_below(ca@[k], n));
                }
            }
        }
        (code, res)
    }

    /// The entry of method `m` in class `cn` or its nearest ancestor.
    fn method_ref(&self, symbols: &SymbolTable, cn: &str, m: &str) -> (r: Option<SymRef>)
        ensures
            r == method_ref_walk(self@, symbols@, cn@, m@, self@.fuel),
            r matches Some(s) ==> s < symbols@.entries.len(),
    {
        let ghost g = self@;
        let mut cur: String = cn.to_string();
        let mut guard: u128 = 0;
        loop
            invariant
                guard <= self.fuel,
                g == self@,
                method_ref_walk(g, symbols@, cur@, m@, (self.fuel - guard) as nat)
                    == method_ref_walk(g, symbols@, cn@, m@, g.fuel),
            decreases self.fuel - guard,
        {
            if guard >= self.fuel {
                return None;
            }
            guard = guard + 1;
            match symbols.lookup(global_of(cur.as_str()).as_str(), m) {
                Some(s) => {
                    return Some(s);
                },
                None => {},
            }
            match find_class_decl(self.classes, cur.as_str()) {
                Some(d) => match &d.parent {
                    Some(p) => {
                        cur = p.clone();
                    },
                    None => {
                        return None;
                    },
                },
                None => {
                    return None;
                },
            }
        }
    }

    fn call_target_exec(&self, symbols: &mut SymbolTable, receiver: &Exp, m: &str) -> (r: SymRef)
        requires
            old(symbols).wf(),
        ensures
            final(symbols).wf(),
            r == call_target(self@, old(symbols)@, *receiver, m@).0,
            final(symbols)@ == call_target(self@, old(symbols)@, *receiver, m@).1,
            grows(old(symbols)@, final(symbols)@),
            r < final(symbols)@.entries.len(),
    {
        let found = match &receiver.kind {
            ExpKind::NewObject(cn) => self.method_ref(symbols, cn.as_str(), m),
            ExpKind::This => match &self.current {
                Some(c) => self.method_ref(symbols, c.as_str(), m),
                None => None,
            },
            _ => None,
        };
        match found {
            Some(s) => s,
            None => symbols.intern_const(m, "method"),
        }
    }

    /// The code of `e` and the entry holding its value.
    #[verifier::rlimit(50)]
    fn gen_exp(&self, symbols: &mut SymbolTable, e: &Exp) -> (r: (InstrList, SymRef))
        requires
            old(symbols).wf(),
            env_below(self@.env, old(symbols)@.entries.len() as int),
        ensures
            final(symbols).wf(),
            r.0@ == gen_exp_spec(self@, old(symbols)@, *e).0,
            r.1 == gen_exp_spec(self@, old(symbols)@, *e).1,
            final(symbols)@ == gen_exp_spec(self@, old(symbols)@, *e).2,
            grows(old(symbols)@, final(symbols)@),
            r.1 < final(symbols)@.entries.len(),
            code_refs_below(r.0@, final(symbols)@.entries.len() as int),
        decreases e, 2nat,
    {
        match &e.kind {
            ExpKind::Num(n) => (Vec::new(), symbols.intern_const(n.as_str(), "int")),
            ExpKind::True => (Vec::new(), symbols.intern_const("true", "boolean")),
            ExpKind::False => (Vec::new(), symbols.intern_const("false", "boolean")),
            ExpKind::This => (Vec::new(), symbols.intern_const("this", "-")),
            ExpKind::Id(name) => (Vec::new(), self.var(symbols, name.as_str())),
            ExpKind::Add(a, b) => {
                let (ca, sa) = self.gen_exp(symbols, a);
                let (cb, sb) = self.gen_exp(symbols, b);
                self.finish_binary(symbols, Opcode::Add, ca, sa, cb, sb, "int")
            },
            ExpKind::Sub(a, b) => {
                let (ca, sa) = self.gen_exp(symbols, a);
                let (cb, sb) = self.gen_exp(symbols, b);
                self.finish_binary(symbols, Opcode::Sub, ca, sa, cb, sb, "int")
            },
            ExpKind::Mul(a, b) => {
                let (ca, sa) = self.gen_exp(symbols, a);
                let (cb, sb) = self.gen_exp(symbols, b);
                self.finish_binary(symbols, Opcode::Mul, ca, sa, cb, sb, "int")
            },
            ExpKind::Less(a, b) => {
                let (ca, sa) = self.gen_exp(symbols, a);
                let (cb, sb) = self.gen_exp(symbols, b);
                self.finish_binary(symbols, Opcode::Less, ca, sa, cb, sb, "boolean")
            },
            ExpKind::And(a, b) => {
                let (ca, sa) = self.gen_exp(symbols, a);
                let (cb, sb) = self.gen_exp(symbols, b);
                self.finish_binary(symbols, Opcode::And, ca, sa, cb, sb, "boolean")
            },
            ExpKind::Not(a) => {
                let (ca, sa) = self.gen_exp(symbols, a);
                self.finish_unary(symbols, Opcode::Not, ca, sa, "boolean")
            },
            ExpKind::Index { array, index } => {
                let (ca, sa) = self.gen_exp(symbols, array);
                let (cb, sb) = self.gen_exp(symbols, index);
                self.finish_binary(symbols, Opcode::ArrayLoad, ca, sa, cb, sb, "int")
            },
            ExpKind::Length(a) => {
                let (ca, sa) = self.gen_exp(symbols, a);
                self.finish_unary(symbols, Opcode::Length, ca, sa, "int")
            },
            ExpKind::NewArray(size) => {
                let (ca, sa) = self.gen_exp(symbols, size);
                self.finish_unary(symbols, Opcode::NewArray, ca, sa, "int[]")
            },
            ExpKind::NewObject(name) => {
                let cs = lookup_or_intern_exec(symbols, "global", name.as_str());
                let res = self.temp(symbols, name.as_str());
                let code = vec![Instr::new(Opcode::NewObject, Some(res), Some(cs), None)];
                assert(code@ =~= seq![instr(Opcode::NewObject, Some(res), Some(cs), None)]);
                (code, res)
            },
            ExpKind::Call { .. } => self.gen_call(symbols, e),
        }
    }

    /// Receiver and arguments, then one `param` each (receiver first), then
    /// `call` into a fresh temporary.
    fn gen_call(&self, symbols: &mut SymbolTable, e: &Exp) -> (r: (InstrList, SymRef))
        requires
            old(symbols).wf(),
            env_below(self@.env, old(symbols)@.entries.len() as int),
            e.kind is Call,
        ensures
            final(symbols).wf(),
            r.0@ == gen_exp_spec(self@, old(symbols)@, *e).0,
            r.1 == gen_exp_spec(self@, old(symbols)@, *e).1,
            final(symbols)@ == gen_exp_spec(self@, old(symbols)@, *e).2,
            grows(old(symbols)@, final(symbols)@),
            r.1 < final(symbols)@.entries.len(),
            code_refs_below(r.0@, final(symbols)@.entries.len() as int),
        decreases e, 1nat,
    {
        let (receiver, method, args) = match &e.kind {
            ExpKind::Call { receiver, method, args } => (receiver, method, args),
            _ => {
                return (Vec::new(), 0);
            },
        };
        let ghost g = self@;
        let ghost t0 = symbols@;
        let (mut code, recv_sym) = self.gen_exp(symbols, receiver);
        let ghost t1 = symbols@;
        let ghost rcode = code@;
        let mut arg_syms: Vec<SymRef> = Vec::new();
        let mut arg_code: Vec<Instr> = Vec::new();
        let mut i: usize = 0;
        while i < args.len()
            invariant
                i <= args@.len(),
                e.kind is Call,
                *args == e.kind->Call_args,
                g == self@,
                symbols.wf(),
                env_below(g.env, symbols@.entries.len() as int),
                grows(t0, symbols@),
                grows(t1, symbols@),
                recv_sym < t1.entries.len(),
                code_refs_below(rcode, t1.entries.len() as int),
                arg_code@ == gen_args_spec(g, t1, args@, i as nat).0,
                arg_syms@ == gen_args_spec(g, t1, args@, i as nat).1,
                symbols@ == gen_args_spec(g, t1, args@, i as nat).2,
                code_refs_below(arg_code@, symbols@.entries.len() as int),
                forall|k: int| 0 <= k < arg_syms@.len() ==> #[trigger] arg_syms@[k] < symbols@.entries.len(),
            decreases args@.len() - i,
        {
            proof {
                assert(decreases_to!(*e => e.kind));
                assert(decreases_to!(e.kind => e.kind->Call_args));
                assert(decreases_to!(e.kind->Call_args => e.kind->Call_args@));
                assert(decreases_to!(e.kind->Call_args@ => e.kind->Call_args@[i as int]));
            }
            let ghost before = symbols@;
            let ghost prev_code = arg_code@;
            let (ac, asym) = self.gen_exp(symbols, &args[i]);
            proof {
                lemma_refs_concat(prev_code, ac@, before.entries.len() as int, symbols@.entries.len() as int);
            }
            arg_code = concat(arg_code, ac);
            arg_syms.push(asym);
            i = i + 1;
        }
        let ghost ta = symbols@;
        code = concat(code, arg_code);
        proof {
            lemma_refs_concat(rcode, gen_args_spec(g, t1, args@, args@.len()).0, t1.entries.len() as int, ta.entries.len() as int);
        }
        let ghost before_params = code@;
        code.push(Instr::new(Opcode::Param, None, Some(recv_sym), None));
        let mut j: usize = 0;
        while j < arg_syms.len()
            invariant
                j <= arg_syms@.len(),
                symbols@ == ta,
                recv_sym < ta.entries.len(),
                forall|k: int| 0 <= k < arg_syms@.len() ==> #[trigger] arg_syms@[k] < ta.entries.len(),
                code@ == before_params + params_code(seq![recv_sym] + arg_syms@).take(j + 1),
                code_refs_below(code@, ta.entries.len() as int),
            decreases arg_syms@.len() - j,
        {
            let ghost c0 = code@;
            code.push(Instr::new(Opcode::Param, None, Some(arg_syms[j]), None));
            assert(code@ =~= before_params + params_code(seq![recv_sym] + arg_syms@).take(j + 2));
            assert forall|k: int| 0 <= k < code@.len() implies refs_below(#[trigger] code@[k], ta.entries.len() as int) by {
                if k < c0.len() {
                    assert(refs_below(c0[k], ta.entries.len() as int));
                }
            }
            j = j + 1;
        }
        assert(params_code(seq![recv_sym] + arg_syms@).take(arg_syms@.len() + 1int) =~= params_code(seq![recv_sym] + arg_syms@));
        let ms = self.call_target_exec(symbols, receiver, method.as_str());
        let res = self.temp(symbols, "-");
        let ghost c1 = code@;
        code.push(Instr::new(Opcode::Call, Some(res), Some(ms), None));
        proof {
            let n = symbols@.entries.len() as int;
            assert forall|k: int| 0 <= k < code@.len() implies refs_below(#[trigger] code@[k], n) by {
                if k < c1.len() {
                    assert(refs_below(c1[k], ta.entries.len() as int));
                }
            }
            assert(code@ =~= gen_exp_spec(g, t0, *e).0);
        }
        (code, res)
    }
}

proof fn lemma_push_refs(code: Seq<Instr>, i: Instr, n: int, m: int)
    requires
        code_refs_below(code, n),
        n <= m,
        refs_below(i, m),
    ensures
        code_refs_below(code.push(i), m),
{
    assert forall|k: int| 0 <= k < code.push(i).len() implies refs_below(#[trigger] code.push(i)[k], m) by {
        if k < code.len() {
            assert(refs_below(code[k], n));
        }
    }
}

impl<'a> Generator<'a> {
    fn gen_stmt(&self, symbols: &mut SymbolTable, st: &Stmt) -> (r: InstrList)
        requires
            old(symbols).wf(),
            env_below(self@.env, old(symbols)@.entries.len() as int),
        ensures
            final(symbols).wf(),
            r@ == gen_stmt_spec(self@, old(symbols)@, *st).0,
            final(symbols)@ == gen_stmt_spec(self@, old(symbols)@, *st).1,
            grows(old(symbols)@, final(symbols)@),
            code_refs_below(r@, final(symbols)@.entries.len() as int),
        decreases st, 2nat,
    {
        match st {
            Stmt::Assign { name, value, .. } => {
                let (mut code, vs) = self.gen_exp(symbols, value);
                let ghost n1 = symbols@.entries.len() as int;
                let target = self.var(symbols, name.as_str());
                proof {
                    lemma_push_refs(code@, instr(Opcode::Move, Some(target), Some(vs), None), n1, symbols@.entries.len() as int);
                }
                code.push(Instr::new(Opcode::Move, Some(target), Some(vs), None));
                code
            },
            Stmt::ArrayAssign { name, index, value, .. } => {
                let (ic, is) = self.gen_exp(symbols, index);
                let ghost n1 = symbols@.entries.len() as int;
                let (vc, vs) = self.gen_exp(symbols, value);
                let ghost n2 = symbols@.entries.len() as int;
                let arr = self.var(symbols, name.as_str());
                proof {
                    lemma_refs_concat(ic@, vc@, n1, n2);
                    lemma_push_refs(ic@ + vc@, instr(Opcode::ArrayStore, Some(arr), Some(is), Some(vs)), n2, symbols@.entries.len() as int);
                }
                let mut code = concat(ic, vc);
                code.push(Instr::new(Opcode::ArrayStore, Some(arr), Some(is), Some(vs)));
                code
            },
            Stmt::If { .. } => self.gen_if(symbols, st),
            Stmt::While { .. } => self.gen_while(symbols, st),
            Stmt::Println { value, .. } => {
                let (mut code, vs) = self.gen_exp(symbols, value);
                let ghost n1 = symbols@.entries.len() as int;
                proof {
                    lemma_push_refs(code@, instr(Opcode::Print, None, Some(vs), None), n1, n1);
                }
                code.push(Instr::new(Opcode::Print, None, Some(vs), None));
                code
            },
        }
    }

    #[verifier::rlimit(80)]
    fn gen_if(&self, symbols: &mut SymbolTable, st: &Stmt) -> (r: InstrList)
        requires
            old(symbols).wf(),
            env_below(self@.env, old(symbols)@.entries.len() as int),
            st is If,
        ensures
            final(symbols).wf(),
            r@ == gen_stmt_spec(self@, old(symbols)@, *st).0,
            final(symbols)@ == gen_stmt_spec(self@, old(symbols)@, *st).1,
            grows(old(symbols)@, final(symbols)@),
            code_refs_below(r@, final(symbols)@.entries.len() as int),
        decreases st, 1nat,
    {
        let (cond, then_body, else_body) = match st {
            Stmt::If { cond, then_body, else_body, .. } => (cond, then_body, else_body),
            _ => {
                return Vec::new();
            },
        };
        let ghost t0 = symbols@;
        let (mut code, cs) = self.gen_exp(symbols, cond);
        proof {
            assert(decreases_to!(*st => st->If_then_body));
            assert(decreases_to!(st->If_then_body => st->If_then_body@));
        }
        match else_body {
            Some(eb) => {
                let l_else = self.label(symbols);
                let l_end = self.label(symbols);
                let ghost n0 = symbols@.entries.len() as int;
                proof {
                    lemma_push_refs(code@, instr(Opcode::IfZ, None, Some(cs), Some(l_else)), n0, n0);
                }
                code.push(Instr::new(Opcode::IfZ, None, Some(cs), Some(l_else)));
                let tc = self.gen_stmts(symbols, then_body);
                let ghost n1 = symbols@.entries.len() as int;
                proof {
                    lemma_refs_concat(code@, tc@, n0, n1);
                }
                code = concat(code, tc);
                proof {
                    lemma_push_refs(code@, instr(Opcode::Jump, None, Some(l_end), None), n1, n1);
                    lemma_push_refs(code@.push(instr(Opcode::Jump, None, Some(l_end), None)), instr(Opcode::Label, None, Some(l_else), None), n1, n1);
                }
                code.push(Instr::new(Opcode::Jump, None, Some(l_end), None));
                code.push(Instr::new(Opcode::Label, None, Some(l_else), None));
                proof {
                    assert(decreases_to!(*st => st->If_else_body));
                    assert(decreases_to!(st->If_else_body => st->If_else_body->0));
                    assert(decreases_to!(st->If_else_body->0 => st->If_else_body->0@));
                }
                let ec = self.gen_stmts(symbols, eb);
                let ghost n2 = symbols@.entries.len() as int;
                proof {
                    lemma_refs_concat(code@, ec@, n1, n2);
                }
                code = concat(code, ec);
                proof {
                    lemma_push_refs(code@, instr(Opcode::Label, None, Some(l_end), None), n2, n2);
                }
                code.push(Instr::new(Opcode::Label, None, Some(l_end), None));
                assert(code@ =~= gen_stmt_spec(self@, t0, *st).0);
                code
            },
            None => {
                let l_end = self.label(symbols);
                let ghost n0 = symbols@.entries.len() as int;
                proof {
                    lemma_push_refs(code@, instr(Opcode::IfZ, None, Some(cs), Some(l_end)), n0, n0);
                }
                code.push(Instr::new(Opcode::IfZ, None, Some(cs), Some(l_end)));
                let tc = self.gen_stmts(symbols, then_body);
                let ghost n1 = symbols@.entries.len() as int;
                proof {
                    lemma_refs_concat(code@, tc@, n0, n1);
                }
                code = concat(code, tc);
                proof {
                    lemma_push_refs(code@, instr(Opcode::Label, None, Some(l_end), None), n1, n1);
                }
                code.push(Instr::new(Opcode::Label, None, Some(l_end), None));
                assert(code@ =~= gen_stmt_spec(self@, t0, *st).0);
                code
            },
        }
    }

    #[verifier::rlimit(60)]
    #[verifier::spinoff_prover]
    fn gen_while(&self, symbols: &mut SymbolTable, st: &Stmt) -> (r: InstrList)
        requires
            old(symbols).wf(),
            env_below(self@.env, old(symbols)@.entries.len() as int),
            st is While,
        ensures
            final(symbols).wf(),
            r@ == gen_stmt_spec(self@, old(symbols)@, *st).0,
            final(symbols)@ == gen_stmt_spec(self@, old(symbols)@, *st).1,
            grows(old(symbols)@, final(symbols)@),
            code_refs_below(r@, final(symbols)@.entries.len() as int),
        decreases st, 1nat,
    {
        let (cond, body) = match st {
            Stmt::While { cond, body, .. } => (cond, body),
            _ => {
                return Vec::new();
            },
        };
        let ghost t0 = symbols@;
        let l_begin = self.label(symbols);
        let l_end = self.label(symbols);
        let mut code = vec![Instr::new(Opcode::Label, None, Some(l_begin), None)];
        let ghost n0 = symbols@.entries.len() as int;
        assert(code_refs_below(code@, n0));
        let (cc, cs) = self.gen_exp(symbols, cond);
        let ghost n1 = symbols@.entries.len() as int;
        proof {
            lemma_refs_concat(code@, cc@, n0, n1);
        }
        code = concat(code, cc);
        proof {
            lemma_push_refs(code@, instr(Opcode::IfZ, None, Some(cs), Some(l_end)), n1, n1);
        }
        code.push(Instr::new(Opcode::IfZ, None, Some(cs), Some(l_end)));
        proof {
            assert(decreases_to!(*st => st->While_body));
            assert(decreases_to!(st->While_body => st->While_body@));
        }
        let bc = self.gen_stmts(symbols, body);
        let ghost n2 = symbols@.entries.len() as int;
        proof {
            lemma_refs_concat(code@, bc@, n1, n2);
        }
        code = concat(code, bc);
        proof {
            lemma_push_refs(code@, instr(Opcode::Jump, None, Some(l_begin), None), n2, n2);
            lemma_push_refs(code@.push(instr(Opcode::Jump, None, Some(l_begin), None)), instr(Opcode::Label, None, Some(l_end), None), n2, n2);
        }
        code.push(Instr::new(Opcode::Jump, None, Some(l_begin), None));
        code.push(Instr::new(Opcode::Label, None, Some(l_end), None));
        assert(code@ =~= gen_stmt_spec(self@, t0, *st).0);
        code
    }

    fn gen_stmts(&self, symbols: &mut SymbolTable, ss: &Vec<Stmt>) -> (r: InstrList)
        requires
            old(symbols).wf(),
            env_below(self@.env, old(symbols)@.entries.len() as int),
        ensures
            final(symbols).wf(),
            r@ == gen_stmts_spec(self@, old(symbols)@, ss@, ss@.len()).0,
            final(symbols)@ == gen_stmts_spec(self@, old(symbols)@, ss@, ss@.len()).1,
            grows(old(symbols)@, final(symbols)@),
            code_refs_below(r@, final(symbols)@.entries.len() as int),
        decreases ss@, 0nat,
    {
        let ghost t0 = symbols@;
        let mut code: InstrList = Vec::new();
        let mut i: usize = 0;
        while i < ss.len()
            invariant
                i <= ss@.len(),
                symbols.wf(),
                env_below(self@.env, symbols@.entries.len() as int),
                grows(t0, symbols@),
                code@ == gen_stmts_spec(self@, t0, ss@, i as nat).0,
                symbols@ == gen_stmts_spec(self@, t0, ss@, i as nat).1,
                code_refs_below(code@, symbols@.entries.len() as int),
            decreases ss@.len() - i,
        {
            proof {
                assert(decreases_to!(ss@ => ss@[i as int]));
            }
            let ghost n0 = symbols@.entries.len() as int;
            let sc = self.gen_stmt(symbols, &ss[i]);
            proof {
                lemma_refs_concat(code@, sc@, n0, symbols@.entries.len() as int);
            }
            code = concat(code, sc);
            i = i + 1;
        }
        code
    }
}

spec fn strs_view(v: Seq<String>) -> Seq<Seq<char>> {
    v.map_values(|s: String| s@)
}

pub open spec fn chain_rest(cs: Seq<ClassDecl>, cur: Option<Seq<char>>, fuel: nat) -> Seq<Seq<char>> {
    match cur {
        Some(n) => class_chain(cs, n, fuel),
        None => Seq::empty(),
    }
}

fn class_chain_exec(cs: &Vec<ClassDecl>, cn: &str, fuel: u128) -> (r: Vec<String>)
    ensures
        strs_view(r@) == class_chain(cs@, cn@, fuel as nat),
{
    let mut chain: Vec<String> = Vec::new();
    let mut cur: Option<String> = Some(cn.to_string());
    let mut guard: u128 = 0;
    loop
        invariant
            guard <= fuel,
            strs_view(chain@) + chain_rest(cs@, opt_string(cur), (fuel - guard) as nat)
                == class_chain(cs@, cn@, fuel as nat),
        decreases fuel - guard,
    {
        let name = match cur {
            None => {
                assert(strs_view(chain@) =~= class_chain(cs@, cn@, fuel as nat));
                return chain;
            },
            Some(n) => n,
        };
        if guard >= fuel {
            assert(strs_view(chain@) =~= class_chain(cs@, cn@, fuel as nat));
            return chain;
        }
        guard = guard + 1;
        let next: Option<String> = match find_class_decl(cs, name.as_str()) {
            Some(d) => match &d.parent {
                Some(p) => Some(p.clone()),
                None => None,
            },
            None => None,
        };
        let ghost prev = strs_view(chain@);
        chain.push(name);
        assert(strs_view(chain@) =~= prev.push(name@));
        assert(strs_view(chain@) + chain_rest(cs@, opt_string(next), (fuel - guard) as nat) =~= prev
            + class_chain(cs@, name@, (fuel - guard + 1) as nat));
        cur = next;
    }
}

/// Appends a pair for each declaration of `vs` found in `scope`.
fn push_var_entries(symbols: &SymbolTable, scope: &str, vs: &Vec<VarDecl>, env: &mut Vec<EnvEntry>)
    requires
        env_below(env_view(old(env)@), symbols@.entries.len() as int),
    ensures
        env_view(final(env)@) == env_view(old(env)@) + var_entries(symbols@, scope@, vs@, vs@.len()),
        env_below(env_view(final(env)@), symbols@.entries.len() as int),
{
    let mut i: usize = 0;
    while i < vs.len()
        invariant
            i <= vs@.len(),
            env_view(env@) == env_view(old(env)@) + var_entries(symbols@, scope@, vs@, i as nat),
            env_below(env_view(env@), symbols@.entries.len() as int),
        decreases vs@.len() - i,
    {
        let ghost prev = env_view(env@);
        match symbols.lookup(scope, vs[i].name.as_str()) {
            Some(sym) => {
                env.push(EnvEntry { name: vs[i].name.clone(), sym });
                assert(env_view(env@) =~= prev.push((vs@[i as int].name@, sym)));
            },
            None => {},
        }
        assert(env_view(env@) =~= env_view(old(env)@) + var_entries(symbols@, scope@, vs@, (i + 1) as nat));
        i = i + 1;
    }
}

/// The variables in sight in method `m` of class `c`.
fn build_env(cs: &Vec<ClassDecl>, fuel: u128, symbols: &SymbolTable, c: &ClassDecl, m: &MethodDecl) -> (r: Vec<EnvEntry>)
    ensures
        env_view(r@) == method_env(symbols@, cs@, fuel as nat, *c, *m),
        env_below(env_view(r@), symbols@.entries.len() as int),
{
    let chain = class_chain_exec(cs, c.name.as_str(), fuel);
    let ghost ch = strs_view(chain@);
    let mut env: Vec<EnvEntry> = Vec::new();
    let mut i: usize = chain.len();
    assert(ch.subrange(i as int, ch.len() as int) =~= Seq::<Seq<char>>::empty());
    assert(env_view(env@) =~= Seq::<(Seq<char>, SymRef)>::empty());
    while i > 0
        invariant
            i <= chain@.len(),
            ch == strs_view(chain@),
            env_view(env@) == chain_fields(symbols@, cs@, ch.subrange(i as int, ch.len() as int)),
            env_below(env_view(env@), symbols@.entries.len() as int),
        decreases i,
    {
        let cn = chain[i - 1].as_str();
        match find_class_decl(cs, cn) {
            Some(d) => {
                let scope = global_of(cn);
                push_var_entries(symbols, scope.as_str(), &d.fields, &mut env);
            },
            None => {},
        }
        proof {
            let sub = ch.subrange(i - 1, ch.len() as int);
            assert(sub.drop_first() =~= ch.subrange(i as int, ch.len() as int));
            assert(sub[0] == cn@);
            assert(env_view(env@) =~= chain_fields(symbols@, cs@, sub));
        }
        i = i - 1;
    }
    assert(ch.subrange(0, ch.len() as int) =~= ch);
    let scope = cat4("global::", c.name.as_str(), "::", m.name.as_str());
    push_var_entries(symbols, scope.as_str(), &m.params, &mut env);
    push_var_entries(symbols, scope.as_str(), &m.locals, &mut env);
    env
}

/// The code of method `m` of class `c`.
fn gen_method<'a>(cs: &'a Vec<ClassDecl>, fuel: u128, symbols: &mut SymbolTable, c: &ClassDecl, m: &MethodDecl) -> (r: InstrList)
    requires
        old(symbols).wf(),
    ensures
        final(symbols).wf(),
        r@ == gen_method_spec(cs@, fuel as nat, old(symbols)@, *c, *m).0,
        final(symbols)@ == gen_method_spec(cs@, fuel as nat, old(symbols)@, *c, *m).1,
        grows(old(symbols)@, final(symbols)@),
        code_refs_below(r@, final(symbols)@.entries.len() as int),
{
    let ghost t0 = symbols@;
    let env = build_env(cs, fuel, symbols, c, m);
    let g = Generator {
        classes: cs,
        fuel,
        scope: cat4("global::", c.name.as_str(), "::", m.name.as_str()),
        current: Some(c.name.clone()),
        env,
    };
    let ghost gv = GenCtx {
        classes: cs@,
        fuel: fuel as nat,
        scope: method_scope(*c, *m),
        current: Some(c.name@),
        env: method_env(t0, cs@, fuel as nat, *c, *m),
    };
    assert(g@ == gv);
    let ms = lookup_or_intern_exec(symbols, global_of(c.name.as_str()).as_str(), m.name.as_str());
    let ghost n0 = symbols@.entries.len() as int;
    let mut code = vec![Instr::new(Opcode::Begin, None, Some(ms), None)];
    assert(code_refs_below(code@, n0));
    let bc = g.gen_stmts(symbols, &m.body);
    let ghost n1 = symbols@.entries.len() as int;
    proof {
        lemma_refs_concat(code@, bc@, n0, n1);
    }
    code = concat(code, bc);
    let (rc, rs) = g.gen_exp(symbols, &m.ret_expr);
    let ghost n2 = symbols@.entries.len() as int;
    proof {
        lemma_refs_concat(code@, rc@, n1, n2);
    }
    code = concat(code, rc);
    proof {
        lemma_push_refs(code@, instr(Opcode::Ret, None, Some(rs), None), n2, n2);
        lemma_push_refs(code@.push(instr(Opcode::Ret, None, Some(rs), None)), instr(Opcode::End, None, Some(ms), None), n2, n2);
    }
    code.push(Instr::new(Opcode::Ret, None, Some(rs), None));
    code.push(Instr::new(Opcode::End, None, Some(ms), None));
    assert(code@ =~= gen_method_spec(cs@, fuel as nat, t0, *c, *m).0);
    code
}

/// Generate the complete 3AC for `program`, inserting the temporaries, labels
/// and interned literals it needs into `symbols` (the same table populated by
/// the parser, so every operand of every instruction is a table entry).
pub fn generate(program: &Program, symbols: &mut SymbolTable) -> (r: InstrList)
    requires
        old(symbols).wf(),
    ensures
        final(symbols).wf(),
        r@ == gen_program_spec(*program, old(symbols)@).0,
        final(symbols)@ == gen_program_spec(*program, old(symbols)@).1,
        grows(old(symbols)@, final(symbols)@),
        code_refs_below(r@, final(symbols)@.entries.len() as int),
{
    let ghost t0 = symbols@;
    let cs = &program.classes;
    let fuel: u128 = count_distinct_names(cs) as u128 + 1;
    let g = Generator {
        classes: cs,
        fuel,
        scope: cat3_main(program.main.name.as_str()),
        current: None,
        env: Vec::new(),
    };
    assert(env_view(g.env@) =~= Seq::<(Seq<char>, SymRef)>::empty());
    let ms = lookup_or_intern_exec(symbols, "global", program.main.name.as_str());
    let ghost n0 = symbols@.entries.len() as int;
    let mut code = vec![Instr::new(Opcode::Begin, None, Some(ms), None)];
    assert(code_refs_below(code@, n0));
    let bc = g.gen_stmts(symbols, &program.main.body);
    let ghost n1 = symbols@.entries.len() as int;
    proof {
        lemma_refs_concat(code@, bc@, n0, n1);
    }
    code = concat(code, bc);
    proof {
        lemma_push_refs(code@, instr(Opcode::End, None, Some(ms), None), n1, n1);
    }
    code.push(Instr::new(Opcode::End, None, Some(ms), None));
    let ghost head = code@;
    let ghost tm = symbols@;
    let mut rest: InstrList = Vec::new();
    let mut k: usize = 0;
    while k < cs.len()
        invariant
            k <= cs@.len(),
            symbols.wf(),
            grows(tm, symbols@),
            rest@ == gen_classes_spec(cs@, fuel as nat, tm, k as nat).0,
            symbols@ == gen_classes_spec(cs@, fuel as nat, tm, k as nat).1,
            code_refs_below(rest@, symbols@.entries.len() as int),
        decreases cs@.len() - k,
    {
        let c = &cs[k];
        let ghost tk = symbols@;
        let ghost rk = rest@;
        let mut j: usize = 0;
        while j < c.methods.len()
            invariant
                j <= c.methods@.len(),
                k < cs@.len(),
                *c == cs@[k as int],
                symbols.wf(),
                grows(tm, symbols@),
                grows(tk, symbols@),
                rest@ == rk + gen_class_spec(cs@, fuel as nat, tk, *c, j as nat).0,
                symbols@ == gen_class_spec(cs@, fuel as nat, tk, *c, j as nat).1,
                code_refs_below(rest@, symbols@.entries.len() as int),
            decreases c.methods@.len() - j,
        {
            let ghost nj = symbols@.entries.len() as int;
            let mc = gen_method(cs, fuel, symbols, c, &c.methods[j]);
            proof {
                lemma_refs_concat(rest@, mc@, nj, symbols@.entries.len() as int);
            }
            rest = concat(rest, mc);
            assert(rest@ =~= rk + gen_class_spec(cs@, fuel as nat, tk, *c, (j + 1) as nat).0);
            j = j + 1;
        }
        assert(rest@ =~= gen_classes_spec(cs@, fuel as nat, tm, (k + 1) as nat).0);
        k = k + 1;
    }
    proof {
        lemma_refs_mono(head, n1, symbols@.entries.len() as int);
        lemma_refs_concat(head, rest@, symbols@.entries.len() as int, symbols@.entries.len() as int);
    }
    code = concat(code, rest);
    assert(code@ =~= gen_program_spec(*program, t0).0);
    code
}

fn cat3_main(name: &str) -> (r: String)
    ensures
        r@ == "global::"@ + name@ + "::main"@,
{
    crate::text::cat3("global::", name, "::main")
}

// -------------------------------------------------------------------------
// Laws.
// -------------------------------------------------------------------------

pub open spec fn ends_with_end(code: Seq<Instr>) -> bool {
    code.len() == 0 || code.last().op == Opcode::End
}

proof fn lemma_concat_end(a: Seq<Instr>, b: Seq<Instr>)
    requires
        ends_with_end(a),
        ends_with_end(b),
    ensures
        ends_with_end(a + b),
{
    if b.len() > 0 {
        assert((a + b).last() == b.last());
    } else {
        assert(a + b =~= a);
    }
}

proof fn lemma_class_end(cs: Seq<ClassDecl>, fuel: nat, t: SymbolTableV, c: ClassDecl, k: nat)
    ensures
        ends_with_end(gen_class_spec(cs, fuel, t, c, k).0),
    decreases k,
{
    if k > 0 && k <= c.methods@.len() {
        let prev = gen_class_spec(cs, fuel, t, c, (k - 1) as nat);
        lemma_class_end(cs, fuel, t, c, (k - 1) as nat);
        lemma_concat_end(prev.0, gen_method_spec(cs, fuel, prev.1, c, c.methods@[k - 1]).0);
    }
}

proof fn lemma_classes_end(cs: Seq<ClassDecl>, fuel: nat, t: SymbolTableV, k: nat)
    ensures
        ends_with_end(gen_classes_spec(cs, fuel, t, k).0),
    decreases k,
{
    if k > 0 && k <= cs.len() {
        let prev = gen_classes_spec(cs, fuel, t, (k - 1) as nat);
        lemma_classes_end(cs, fuel, t, (k - 1) as nat);
        lemma_class_end(cs, fuel, prev.1, cs[k - 1], cs[k - 1].methods@.len());
        lemma_concat_end(prev.0, gen_class_spec(cs, fuel, prev.1, cs[k - 1], cs[k - 1].methods@.len()).0);
    }
}

/// The code of `a op b`: the code of `a`, then that of `b`, then one `op`
/// whose first operand is the entry holding `a`'s value, whose second is the
/// entry holding `b`'s value, and whose result is a new entry.
pub open spec fn binary_shape(g: GenCtx, t: SymbolTableV, a: Exp, b: Exp, op: Opcode, r: (Seq<Instr>, SymRef, SymbolTableV)) -> bool {
    let ra = gen_exp_spec(g, t, a);
    let rb = gen_exp_spec(g, ra.2, b);
    &&& r.0 == ra.0 + rb.0 + seq![Instr { op, res: Some(r.1), op1: Some(ra.1), op2: Some(rb.1) }]
    &&& r.1 == rb.2.entries.len() as usize
    &&& r.2.entries.len() == rb.2.entries.len() + 1
}

/// The code of `op a`: the code of `a`, then one `op` reading the entry that
/// holds `a`'s value into a new entry.
pub open spec fn unary_shape(g: GenCtx, t: SymbolTableV, a: Exp, op: Opcode, r: (Seq<Instr>, SymRef, SymbolTableV)) -> bool {
    let ra = gen_exp_spec(g, t, a);
    &&& r.0 == ra.0.push(Instr { op, res: Some(r.1), op1: Some(ra.1), op2: None })
    &&& r.1 == ra.2.entries.len() as usize
    &&& r.2.entries.len() == ra.2.entries.len() + 1
}

/// Operators are lowered left operand first: the instruction of `a op b`
/// carries the operator of the expression, reads `a`'s value as its first
/// operand and `b`'s as its second, after the code computing both, and
/// writes a new temporary; a unary operator reads its operand's value.
pub proof fn law_operands_in_order(g: GenCtx, t: SymbolTableV, e: Exp)
    ensures
        ({
            let r = gen_exp_spec(g, t, e);
            match e.kind {
                ExpKind::Add(a, b) => binary_shape(g, t, *a, *b, Opcode::Add, r),
                ExpKind::Sub(a, b) => binary_shape(g, t, *a, *b, Opcode::Sub, r),
                ExpKind::Mul(a, b) => binary_shape(g, t, *a, *b, Opcode::Mul, r),
                ExpKind::Less(a, b) => binary_shape(g, t, *a, *b, Opcode::Less, r),
                ExpKind::And(a, b) => binary_shape(g, t, *a, *b, Opcode::And, r),
                ExpKind::Index { array, index } => binary_shape(g, t, *array, *index, Opcode::ArrayLoad, r),
                ExpKind::Not(a) => unary_shape(g, t, *a, Opcode::Not, r),
                ExpKind::Length(a) => unary_shape(g, t, *a, Opcode::Length, r),
                ExpKind::NewArray(a) => unary_shape(g, t, *a, Opcode::NewArray, r),
                _ => true,
            }
        }),
{
}

/// The code of a program opens with `begin` and closes with `end`.
pub proof fn law_program_wrapped(p: Program, t: SymbolTableV)
    ensures
        gen_program_spec(p, t).0.len() >= 2,
        gen_program_spec(p, t).0[0].op == Opcode::Begin,
        gen_program_spec(p, t).0.last().op == Opcode::End,
{
    let cs = p.classes@;
    let fuel = distinct_names(cs, cs.len()) + 1;
    let g = GenCtx {
        classes: cs,
        fuel,
        scope: "global::"@ + p.main.name@ + "::main"@,
        current: None,
        env: Seq::empty(),
    };
    let (ms, t1) = lookup_or_intern(t, "global"@, p.main.name@);
    let rb = gen_stmts_spec(g, t1, p.main.body@, p.main.body@.len());
    let rc = gen_classes_spec(cs, fuel, rb.1, cs.len());
    let head = seq![instr(Opcode::Begin, None, Some(ms), None)] + rb.0 + seq![instr(Opcode::End, None, Some(ms), None)];
    lemma_classes_end(cs, fuel, rb.1, cs.len());
    assert(ends_with_end(head));
    lemma_concat_end(head, rc.0);
    assert((head + rc.0)[0] == head[0]);
}

} // verus!
