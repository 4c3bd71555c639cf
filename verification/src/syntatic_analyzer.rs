//! Recursive-descent parser for the official grammar (with operator
//! precedence, no left recursion).
//!
//! The parser consumes the token stream of the lexical analyzer, validates the
//! syntax, builds an `ast::Program`, and populates the scoped `SymbolTable` as
//! declarations are recognized. On a syntax error it returns a `ParseError`
//! with the offending line/column and (when applicable) a correction
//! suggestion.

use vstd::prelude::*;
use crate::ast::{
    exp_view, exps_view, lemma_exps_view_push, lemma_stmts_view_push, stmt_view, stmts_view,
    ClassDecl, Exp, ExpKind, ExpV, MainClass, MethodDecl, Program, Stmt, StmtV, Type, VarDecl,
    program_view, main_view, class_view, method_view, var_view, vars_view, VarDeclV, ClassDeclV, ProgramV,
    MethodDeclV, MainClassV,
};
use crate::lexical_analyzer::{suggest_keyword, Token, TokenClass};
use crate::symbol_table::{Category, SymbolTable, SymbolTableV};
use crate::text::{cat2, cat3, str_eq, string_of};
use crate::syntatic_analyzer::grammar::{
    add_loop, add_spec, and_loop, and_spec, at_cmd, at_def_var, error_at, error_expecting,
    expect_dl, expect_ident, expect_kw, exp_spec, list_spec, mul_loop, mul_spec, new_spec,
    next_token, postfix_loop, postfix_spec, primary_spec, rel_loop, rel_spec, suffix_spec, type_spec,
    unary_spec, PErr, Parsed, l_com_spec, l_com_loop, paren_spec, block_spec, cmd_spec,
    com_ass_spec, com_ass_hint, program_spec, main_spec, main_header, def_c_spec, def_v_spec,
    def_m_spec, method_rest_spec, args_spec, is_kw, class_spec, class_body_spec, var_decl_spec,
    param_spec, params_spec, method_body_spec, method_spec, is_dl, is_ident, later,
};

pub mod ast;
pub mod grammar;
pub mod relaxed;

verus! {

broadcast use vstd::string::group_string_axioms;

#[derive(Debug, PartialEq, Eq)]
pub struct ParseError {
    pub line: usize,
    pub column: usize,
    pub msg: String,
    /// Optional fix hint surfaced by the `--suggest` flag.
    pub suggestion: Option<String>,
}

/// Model of a parse error.
pub open spec fn perr_view(e: ParseError) -> PErr {
    PErr {
        line: e.line,
        column: e.column,
        msg: e.msg@,
        suggestion: match e.suggestion {
            Some(s) => Some(s@),
            None => None,
        },
    }
}

/// What a parsing step returned, seen through `f`, with the position it
/// stopped at.
pub open spec fn lift<T, V>(r: Result<T, ParseError>, f: spec_fn(T) -> V, cur: int) -> Parsed<V> {
    match r {
        Ok(x) => Parsed::Done(f(x), cur),
        Err(e) => Parsed::Fail(perr_view(e)),
    }
}

/// Adding a part to a non-empty path appends `::` and the part.
pub proof fn lemma_join_push(ns: Seq<Seq<char>>, x: Seq<char>)
    requires
        ns.len() >= 1,
    ensures
        join_scope(ns.push(x)) == join_scope(ns) + "::"@ + x,
{
    assert(ns.push(x).drop_last() =~= ns);
}

pub open spec fn scope_names(v: Seq<String>) -> Seq<Seq<char>> {
    v.map_values(|s: String| s@)
}

/// A scope path written out, its parts joined by `::`.
pub open spec fn join_scope(ns: Seq<Seq<char>>) -> Seq<char>
    decreases ns.len(),
{
    if ns.len() == 0 {
        Seq::empty()
    } else if ns.len() == 1 {
        ns[0]
    } else {
        join_scope(ns.drop_last()) + "::"@ + ns.last()
    }
}

pub open spec fn classes_view(cs: Seq<ClassDecl>) -> Seq<ClassDeclV> {
    cs.map_values(|c: ClassDecl| class_view(c))
}

pub open spec fn methods_view(ms: Seq<MethodDecl>) -> Seq<MethodDeclV> {
    ms.map_values(|m: MethodDecl| method_view(m))
}

proof fn lemma_classes_view_push(cs: Seq<ClassDecl>, c: ClassDecl)
    ensures
        classes_view(cs.push(c)) == classes_view(cs).push(class_view(c)),
{
    assert(classes_view(cs.push(c)) =~= classes_view(cs).push(class_view(c)));
}

proof fn lemma_methods_view_push(ms: Seq<MethodDecl>, m: MethodDecl)
    ensures
        methods_view(ms.push(m)) == methods_view(ms).push(method_view(m)),
{
    assert(methods_view(ms.push(m)) =~= methods_view(ms).push(method_view(m)));
}

proof fn lemma_vars_view_push(vs: Seq<VarDecl>, v: VarDecl)
    ensures
        vars_view(vs.push(v)) == vars_view(vs).push(var_view(v)),
{
    assert(vars_view(vs.push(v)) =~= vars_view(vs).push(var_view(v)));
}

pub open spec fn lift_var(r: Result<VarDecl, ParseError>, t: SymbolTableV, cur: int) -> Parsed<(VarDeclV, SymbolTableV)> {
    match r {
        Ok(v) => Parsed::Done((var_view(v), t), cur),
        Err(e) => Parsed::Fail(perr_view(e)),
    }
}

pub open spec fn lift_vars(r: Result<Vec<VarDecl>, ParseError>, t: SymbolTableV, cur: int) -> Parsed<(Seq<VarDeclV>, SymbolTableV)> {
    match r {
        Ok(v) => Parsed::Done((vars_view(v@), t), cur),
        Err(e) => Parsed::Fail(perr_view(e)),
    }
}

pub open spec fn lift_method(r: Result<MethodDecl, ParseError>, t: SymbolTableV, cur: int) -> Parsed<(MethodDeclV, SymbolTableV)> {
    match r {
        Ok(m) => Parsed::Done((method_view(m), t), cur),
        Err(e) => Parsed::Fail(perr_view(e)),
    }
}

pub open spec fn lift_methods(r: Result<Vec<MethodDecl>, ParseError>, t: SymbolTableV, cur: int) -> Parsed<(Seq<MethodDeclV>, SymbolTableV)> {
    match r {
        Ok(v) => Parsed::Done((methods_view(v@), t), cur),
        Err(e) => Parsed::Fail(perr_view(e)),
    }
}

pub open spec fn lift_members(r: Result<(Vec<VarDecl>, Vec<MethodDecl>), ParseError>, t: SymbolTableV, cur: int) -> Parsed<
    (Seq<VarDeclV>, Seq<MethodDeclV>, SymbolTableV),
> {
    match r {
        Ok((f, m)) => Parsed::Done((vars_view(f@), methods_view(m@), t), cur),
        Err(e) => Parsed::Fail(perr_view(e)),
    }
}

pub open spec fn lift_class(r: Result<ClassDecl, ParseError>, t: SymbolTableV, cur: int) -> Parsed<(ClassDeclV, SymbolTableV)> {
    match r {
        Ok(c) => Parsed::Done((class_view(c), t), cur),
        Err(e) => Parsed::Fail(perr_view(e)),
    }
}

pub open spec fn lift_classes(r: Result<Vec<ClassDecl>, ParseError>, t: SymbolTableV, cur: int) -> Parsed<(Seq<ClassDeclV>, SymbolTableV)> {
    match r {
        Ok(v) => Parsed::Done((classes_view(v@), t), cur),
        Err(e) => Parsed::Fail(perr_view(e)),
    }
}

pub open spec fn lift_body(r: Result<(Vec<Stmt>, Exp), ParseError>, cur: int) -> Parsed<(Seq<StmtV>, ExpV)> {
    match r {
        Ok((b, e)) => Parsed::Done((stmts_view(b@), exp_view(e)), cur),
        Err(e) => Parsed::Fail(perr_view(e)),
    }
}

pub open spec fn lift_main(r: Result<MainClass, ParseError>, t: SymbolTableV, cur: int) -> Parsed<(MainClassV, SymbolTableV)> {
    match r {
        Ok(m) => Parsed::Done((main_view(m), t), cur),
        Err(e) => Parsed::Fail(perr_view(e)),
    }
}

pub open spec fn lift_prog(r: Result<Program, ParseError>, t: SymbolTableV, cur: int) -> Parsed<(ProgramV, SymbolTableV)> {
    match r {
        Ok(p) => Parsed::Done((program_view(p), t), cur),
        Err(e) => Parsed::Fail(perr_view(e)),
    }
}

/// The parser's result agrees with the grammar's: the same program and
/// symbol table, or the same error.
pub open spec fn parse_matches(r: Result<(Program, SymbolTable), ParseError>, g: Parsed<(ProgramV, SymbolTableV)>) -> bool {
    match (r, g) {
        (Ok((p, t)), Parsed::Done((pv, tv), _)) => program_view(p) == pv && t@ == tv,
        (Err(e), Parsed::Fail(ge)) => perr_view(e) == ge,
        _ => false,
    }
}

/// A token slice the parser can run on: it ends with the `Eof` token.
pub open spec fn tokens_ok(tokens: Seq<Token>) -> bool {
    &&& tokens.len() >= 1
    &&& tokens.last().class == TokenClass::Eof
}

pub struct Parser<'a> {
    tokens: &'a [Token],
    cursor: usize,
    symbols: SymbolTable,
    /// Current scope path, joined with `::` (e.g. `["global", "BBS", "Sort"]`).
    scope: Vec<String>,
    /// When true, `L_com` is treated as nullable (zero or more commands),
    /// relaxing the official grammar so empty method/if/while/else bodies are
    /// accepted. Default (`false`) keeps the strict `L_com -> Com L'_com`.
    allow_empty_body: bool,
}

impl<'a> Parser<'a> {
    pub closed spec fn wf(&self) -> bool {
        &&& tokens_ok(self.tokens@)
        &&& self.cursor < self.tokens@.len()
        &&& self.symbols.wf()
    }

    /// Tokens still ahead of the cursor: the measure that every recursive
    /// production decreases before calling back into a higher one.
    pub closed spec fn remaining(&self) -> int {
        self.tokens@.len() - self.cursor
    }

    /// A parser that has not consumed anything yet.
    pub closed spec fn fresh(&self) -> bool {
        &&& scope_names(self.scope@) == seq!["global"@]
        &&& self.cursor == 0
        &&& self.symbols@ == (SymbolTableV { entries: Seq::empty(), temps: 0, labels: 0 })
    }

    pub closed spec fn token_seq(&self) -> Seq<Token> {
        self.tokens@
    }

    pub closed spec fn empty_body_allowed(&self) -> bool {
        self.allow_empty_body
    }

    pub fn new(tokens: &'a [Token]) -> (r: Self)
        requires
            tokens_ok(tokens@),
        ensures
            r.wf(),
            r.fresh(),
            r.token_seq() == tokens@,
            !r.empty_body_allowed(),
    {
        let p = Parser {
            tokens,
            cursor: 0,
            symbols: SymbolTable::new(),
            scope: vec![string_of("global")],
            allow_empty_body: false,
        };
        assert(scope_names(p.scope@) =~= seq!["global"@]);
        p
    }

    /// Builder: opt into the lax, nullable-`L_com` mode.
    pub fn allow_empty_body(self, yes: bool) -> (r: Self)
        requires
            self.wf(),
        ensures
            r.wf(),
            self.fresh() ==> r.fresh(),
            r.token_seq() == self.token_seq(),
            r.empty_body_allowed() == yes,
    {
        let mut p = self;
        p.allow_empty_body = yes;
        p
    }

    /// Parse the whole program, returning the AST and the populated symbol
    /// table on success.
    pub fn parse(self) -> (r: Result<(Program, SymbolTable), ParseError>)
        requires
            self.wf(),
            self.fresh(),
        ensures
            parse_matches(r, program_spec(self.token_seq(), self.empty_body_allowed())),
            r is Ok ==> r->Ok_0.1.wf(),
    {
        let mut p = self;
        let program = p.parse_prog()?;
        Ok((program, p.symbols))
    }

    // ---------- scope helpers ----------
    fn scope_str(&self) -> (r: String)
        ensures
            r@ == join_scope(scope_names(self.scope@)),
    {
        let ghost ns = scope_names(self.scope@);
        let mut out = String::new();
        let mut i: usize = 0;
        assert(out@ =~= join_scope(ns.take(0)));
        while i < self.scope.len()
            invariant
                i <= self.scope@.len(),
                ns == scope_names(self.scope@),
                out@ == join_scope(ns.take(i as int)),
            decreases self.scope@.len() - i,
        {
            if i > 0 {
                out.append("::");
            }
            out.append(self.scope[i].as_str());
            proof {
                assert(ns.take(i + 1).drop_last() =~= ns.take(i as int));
                if i == 0 {
                    assert(out@ =~= join_scope(ns.take(1)));
                } else {
                    assert(out@ =~= join_scope(ns.take(i + 1)));
                }
            }
            i = i + 1;
        }
        assert(ns.take(i as int) =~= ns);
        out
    }

    fn push_scope(&mut self, name: &str)
        ensures
            scope_names(final(self).scope@) == scope_names(old(self).scope@).push(name@),
            final(self).scope@.len() == old(self).scope@.len() + 1,
            final(self).tokens == old(self).tokens,
            final(self).cursor == old(self).cursor,
            final(self).symbols == old(self).symbols,
            final(self).allow_empty_body == old(self).allow_empty_body,
    {
        self.scope.push(string_of(name));
        assert(scope_names(self.scope@) =~= scope_names(old(self).scope@).push(name@));
    }

    fn pop_scope(&mut self)
        ensures
            old(self).scope@.len() > 0 ==> final(self).scope@ == old(self).scope@.drop_last(),
            old(self).scope@.len() > 0 ==> scope_names(final(self).scope@) == scope_names(old(self).scope@).drop_last(),
            final(self).tokens == old(self).tokens,
            final(self).cursor == old(self).cursor,
            final(self).symbols == old(self).symbols,
            final(self).allow_empty_body == old(self).allow_empty_body,
    {
        self.scope.pop();
        assert(old(self).scope@.len() > 0 ==> scope_names(self.scope@) =~= scope_names(old(self).scope@).drop_last());
    }

    // ---------- token helpers ----------
    fn peek(&self) -> (r: &Token)
        requires
            self.wf(),
        ensures
            *r == self.tokens@[self.cursor as int],
    {
        &self.tokens[self.cursor]
    }

    fn peek_at(&self, offset: usize) -> (r: &Token)
        requires
            self.wf(),
            offset <= 1,
        ensures
            self.cursor + offset < self.tokens@.len() ==> *r == self.tokens@[self.cursor + offset],
            self.cursor + offset >= self.tokens@.len() ==> *r == self.tokens@.last(),
    {
        let last = self.tokens.len() - 1;
        let idx = if self.cursor + offset < last {
            self.cursor + offset
        } else {
            last
        };
        &self.tokens[idx]
    }

    /// Consumes the current token (the final `Eof` is never consumed).
    fn advance(&mut self) -> (r: Token)
        requires
            old(self).wf(),
        ensures
            final(self).wf(),
            final(self).tokens == old(self).tokens,
            final(self).symbols == old(self).symbols,
            final(self).scope == old(self).scope,
            final(self).allow_empty_body == old(self).allow_empty_body,
            r@ == old(self).tokens@[old(self).cursor as int]@,
            old(self).tokens@[old(self).cursor as int].class != TokenClass::Eof
                ==> final(self).cursor == old(self).cursor + 1,
            old(self).tokens@[old(self).cursor as int].class == TokenClass::Eof
                ==> final(self).cursor >= old(self).cursor,
    {
        let tok = self.tokens[self.cursor].clone();
        if self.cursor < self.tokens.len() - 1 {
            self.cursor = self.cursor + 1;
        }
        tok
    }

    fn error(&self, msg: &str) -> (r: ParseError)
        requires
            self.wf(),
        ensures
            perr_view(r) == error_at(self.at(), msg@),
    {
        let tok = self.peek();
        let d = tok.describe();
        ParseError {
            line: tok.line,
            column: tok.column,
            msg: cat3(msg, ", got ", d.as_str()),
            suggestion: None,
        }
    }

    fn error_expecting(&self, what: &str, hint: String) -> (r: ParseError)
        requires
            self.wf(),
        ensures
            perr_view(r) == error_expecting(self.at(), what@, hint@),
    {
        let tok = self.peek();
        let d = tok.describe();
        let m = cat3("expected ", what, ", got ");
        ParseError {
            line: tok.line,
            column: tok.column,
            msg: cat2(m.as_str(), d.as_str()),
            suggestion: Some(hint),
        }
    }

    fn expect_keyword(&mut self, kw: &str) -> (r: Result<Token, ParseError>)
        requires
            old(self).wf(),
        ensures
            final(self).wf(),
            final(self).tokens == old(self).tokens,
            final(self).symbols == old(self).symbols,
            final(self).scope == old(self).scope,
            final(self).allow_empty_body == old(self).allow_empty_body,
            final(self).cursor >= old(self).cursor,
            r is Ok ==> final(self).cursor == old(self).cursor + 1,
            lift(r, |t: Token| t@, final(self).cursor as int) == expect_kw(old(self).tokens@, old(self).cursor as int, kw@),
    {
        if self.peek().is_keyword(kw) {
            Ok(self.advance())
        } else {
            // A nearby identifier is most likely the keyword mistyped
            // (`claas` -> `class`); suggest the replacement instead of an
            // insertion.
            let tok = self.peek();
            let close = if tok.is_id() {
                match suggest_keyword(tok.lexeme.as_str()) {
                    Some(s) => str_eq(s.as_str(), kw),
                    None => false,
                }
            } else {
                false
            };
            let hint = if close {
                let a = cat3("replace '", tok.lexeme.as_str(), "' with '");
                cat3(a.as_str(), kw, "'")
            } else {
                cat3("insert '", kw, "'")
            };
            let what = cat3("keyword '", kw, "'");
            Err(self.error_expecting(what.as_str(), hint))
        }
    }

    fn expect_delim(&mut self, d: &str) -> (r: Result<Token, ParseError>)
        requires
            old(self).wf(),
        ensures
            final(self).wf(),
            final(self).tokens == old(self).tokens,
            final(self).symbols == old(self).symbols,
            final(self).scope == old(self).scope,
            final(self).allow_empty_body == old(self).allow_empty_body,
            final(self).cursor >= old(self).cursor,
            r is Ok ==> final(self).cursor == old(self).cursor + 1,
            lift(r, |t: Token| t@, final(self).cursor as int) == expect_dl(old(self).tokens@, old(self).cursor as int, d@),
    {
        if self.peek().is_delim(d) {
            Ok(self.advance())
        } else {
            let what = cat3("'", d, "'");
            let hint = cat3("insert '", d, "'");
            Err(self.error_expecting(what.as_str(), hint))
        }
    }

    fn expect_id(&mut self) -> (r: Result<Token, ParseError>)
        requires
            old(self).wf(),
        ensures
            final(self).wf(),
            final(self).tokens == old(self).tokens,
            final(self).symbols == old(self).symbols,
            final(self).scope == old(self).scope,
            final(self).allow_empty_body == old(self).allow_empty_body,
            final(self).cursor >= old(self).cursor,
            r is Ok ==> final(self).cursor == old(self).cursor + 1,
            lift(r, |t: Token| t@, final(self).cursor as int) == expect_ident(old(self).tokens@, old(self).cursor as int),
    {
        if self.peek().is_id() {
            Ok(self.advance())
        } else {
            Err(self.error_expecting("identifier", string_of("insert an identifier")))
        }
    }
}


impl<'a> Parser<'a> {
    /// `self` is a later state of the same parse as `old`, with the symbol
    /// table untouched (statements and expressions declare nothing).
    spec fn pure_step(&self, old: &Parser<'a>) -> bool {
        &&& self.wf()
        &&& self.tokens == old.tokens
        &&& self.symbols == old.symbols
        &&& self.scope == old.scope
        &&& self.allow_empty_body == old.allow_empty_body
        &&& self.cursor >= old.cursor
    }

    /// `self` is a later state of the same parse as `old`; declarations may
    /// have added symbols.
    spec fn decl_step(&self, old: &Parser<'a>) -> bool {
        &&& self.wf()
        &&& self.tokens == old.tokens
        &&& self.scope@.len() == old.scope@.len()
        &&& scope_names(self.scope@) == scope_names(old.scope@)
        &&& self.allow_empty_body == old.allow_empty_body
        &&& self.cursor >= old.cursor
    }

    spec fn at(&self) -> Token {
        self.tokens@[self.cursor as int]
    }

    // ---------- productions ----------
    // Prog -> Main_C Def_C
    fn parse_prog(&mut self) -> (r: Result<Program, ParseError>)
        requires
            old(self).wf(),
            old(self).fresh(),
        ensures
            final(self).wf(),
            lift_prog(r, final(self).symbols@, final(self).cursor as int)
                == program_spec(old(self).tokens@, old(self).allow_empty_body),
    {
        let main = self.parse_main_c()?;
        let classes = self.parse_def_c()?;
        if !self.peek().is_eof() {
            return Err(self.error("expected end of input"));
        }
        let prog = Program { main, classes };
        assert(program_view(prog).classes =~= classes_view(prog.classes@));
        Ok(prog)
    }

    // Main_C -> 'class' Id '{' 'public' 'static' 'void' 'main'
    //           '(' 'String' '[' ']' Id ')' '{' L_com '}' '}'
    #[verifier::rlimit(80)]
    fn parse_main_c(&mut self) -> (r: Result<MainClass, ParseError>)
        requires
            old(self).wf(),
            scope_names(old(self).scope@) == seq!["global"@],
        ensures
            final(self).decl_step(old(self)),
            lift_main(r, final(self).symbols@, final(self).cursor as int)
                == main_spec(old(self).tokens@, old(self).cursor as int, old(self).allow_empty_body, old(self).symbols@),
    {
        let class_tok = self.expect_keyword("class")?;
        let name_tok = self.expect_id()?;
        let name = name_tok.lexeme;
        self.symbols.add("global", name.as_str(), Category::Class, "-", name_tok.line, name_tok.column);
        self.expect_delim("{")?;
        self.parse_main_header()?;
        let arg_tok = self.expect_id()?;
        let arg_name = arg_tok.lexeme;
        self.expect_delim(")")?;
        self.expect_delim("{")?;

        let ghost outer = scope_names(self.scope@);
        self.push_scope(name.as_str());
        self.push_scope("main");
        let sc = self.scope_str();
        proof {
            lemma_join_push(seq!["global"@], name@);
            lemma_join_push(seq!["global"@, name@], "main"@);
            assert(seq!["global"@].push(name@) =~= seq!["global"@, name@]);
            assert(scope_names(self.scope@) =~= seq!["global"@, name@].push("main"@));
            assert(join_scope(seq!["global"@]) == "global"@);
        }
        self.symbols.add(sc.as_str(), arg_name.as_str(), Category::MainArg, "String[]", arg_tok.line, arg_tok.column);
        let body = self.parse_l_com();
        self.pop_scope();
        self.pop_scope();
        assert(scope_names(self.scope@) =~= outer);
        let body = body?;

        self.expect_delim("}")?;
        self.expect_delim("}")?;

        Ok(MainClass { name, arg_name, body, line: class_tok.line, column: class_tok.column })
    }

    /// `'public' 'static' 'void' 'main' '(' 'String' '[' ']'`
    fn parse_main_header(&mut self) -> (r: Result<(), ParseError>)
        requires
            old(self).wf(),
        ensures
            final(self).pure_step(old(self)),
            lift(r, |u: ()| u, final(self).cursor as int) == main_header(old(self).tokens@, old(self).cursor as int),
    {
        self.expect_keyword("public")?;
        self.expect_keyword("static")?;
        self.expect_keyword("void")?;
        self.expect_keyword("main")?;
        self.expect_delim("(")?;
        self.expect_keyword("String")?;
        self.expect_delim("[")?;
        self.expect_delim("]")?;
        Ok(())
    }

    // Def_C -> 'class' Id Def'_C | λ
    // Def'_C -> '{' Def_V Def_M '}' Def_C
    //        | 'extends' Id '{' Def_V Def_M '}' Def_C
    fn parse_def_c(&mut self) -> (r: Result<Vec<ClassDecl>, ParseError>)
        requires
            old(self).wf(),
            scope_names(old(self).scope@) == seq!["global"@],
        ensures
            final(self).decl_step(old(self)),
            lift_classes(r, final(self).symbols@, final(self).cursor as int)
                == def_c_spec(old(self).tokens@, old(self).cursor as int, old(self).allow_empty_body, old(self).symbols@, Seq::empty()),
    {
        let ghost ts = self.tokens@;
        let ghost start = self.cursor as int;
        let ghost a = self.allow_empty_body;
        let mut classes: Vec<ClassDecl> = Vec::new();
        assert(classes_view(classes@) =~= Seq::<ClassDeclV>::empty());
        while self.peek().is_keyword("class")
            invariant
                self.decl_step(old(self)),
                ts == self.tokens@,
                a == self.allow_empty_body,
                scope_names(self.scope@) == seq!["global"@],
                start == old(self).cursor,
                def_c_spec(ts, self.cursor as int, a, self.symbols@, classes_view(classes@))
                    == def_c_spec(ts, start, a, old(self).symbols@, Seq::empty()),
            decreases self.remaining(),
        {
            let c = self.parse_class()?;
            proof {
                lemma_classes_view_push(classes@, c);
            }
            classes.push(c);
        }
        Ok(classes)
    }

    /// One `'class' Id ('extends' Id)? '{' Def_V Def_M '}'`.
    #[verifier::rlimit(80)]
    fn parse_class(&mut self) -> (r: Result<ClassDecl, ParseError>)
        requires
            old(self).wf(),
            scope_names(old(self).scope@) == seq!["global"@],
            is_kw(old(self).at(), "class"@),
        ensures
            final(self).decl_step(old(self)),
            r is Ok ==> final(self).cursor > old(self).cursor,
            lift_class(r, final(self).symbols@, final(self).cursor as int)
                == class_spec(old(self).tokens@, old(self).cursor as int, old(self).allow_empty_body, old(self).symbols@),
    {
        let class_tok = self.advance();
        let name_tok = self.expect_id()?;
        let name = name_tok.lexeme;

        let parent = if self.peek().is_keyword("extends") {
            self.advance();
            let parent_tok = self.expect_id()?;
            Some(parent_tok.lexeme)
        } else {
            None
        };

        let parent_display = match &parent {
            Some(p) => p.as_str(),
            None => "-",
        };
        self.symbols.add("global", name.as_str(), Category::Class, parent_display, name_tok.line, name_tok.column);

        let ghost outer = scope_names(self.scope@);
        self.push_scope(name.as_str());
        proof {
            lemma_join_push(seq!["global"@], name@);
            assert(seq!["global"@].push(name@) =~= seq!["global"@, name@]);
            assert(scope_names(self.scope@) =~= seq!["global"@, name@]);
            assert(join_scope(seq!["global"@]) == "global"@);
        }
        let body = self.parse_class_body();
        self.pop_scope();
        assert(scope_names(self.scope@) =~= outer);
        let (fields, methods) = body?;

        Ok(ClassDecl {
            name,
            parent,
            fields,
            methods,
            line: class_tok.line,
            column: class_tok.column,
        })
    }

    /// `'{' Def_V Def_M '}'` inside the class's scope.
    fn parse_class_body(&mut self) -> (r: Result<(Vec<VarDecl>, Vec<MethodDecl>), ParseError>)
        requires
            old(self).wf(),
            old(self).scope@.len() >= 1,
        ensures
            final(self).decl_step(old(self)),
            lift_members(r, final(self).symbols@, final(self).cursor as int) == class_body_spec(
                old(self).tokens@,
                old(self).cursor as int,
                old(self).allow_empty_body,
                old(self).symbols@,
                join_scope(scope_names(old(self).scope@)),
            ),
    {
        self.expect_delim("{")?;
        let fields = self.parse_def_v(Category::Field)?;
        let methods = self.parse_def_m()?;
        self.expect_delim("}")?;
        Ok((fields, methods))
    }

    // Def_V -> Type Id ';' Def_V | λ
    fn parse_def_v(&mut self, category: Category) -> (r: Result<Vec<VarDecl>, ParseError>)
        requires
            old(self).wf(),
        ensures
            final(self).decl_step(old(self)),
            final(self).scope == old(self).scope,
            lift_vars(r, final(self).symbols@, final(self).cursor as int) == def_v_spec(
                old(self).tokens@,
                old(self).cursor as int,
                old(self).symbols@,
                join_scope(scope_names(old(self).scope@)),
                category,
                Seq::empty(),
            ),
    {
        let ghost ts = self.tokens@;
        let ghost start = self.cursor as int;
        let ghost sc0 = join_scope(scope_names(self.scope@));
        let mut vars: Vec<VarDecl> = Vec::new();
        assert(vars_view(vars@) =~= Seq::<VarDeclV>::empty());
        while self.at_def_var()
            invariant
                self.decl_step(old(self)),
                self.scope == old(self).scope,
                ts == self.tokens@,
                sc0 == join_scope(scope_names(self.scope@)),
                start == old(self).cursor,
                def_v_spec(ts, self.cursor as int, self.symbols@, sc0, category, vars_view(vars@))
                    == def_v_spec(ts, start, old(self).symbols@, sc0, category, Seq::empty()),
            decreases self.remaining(),
        {
            let v = self.parse_var_decl(category)?;
            proof {
                lemma_vars_view_push(vars@, v);
            }
            vars.push(v);
        }
        Ok(vars)
    }

    /// One `Type Id ';'`, entered in the current scope.
    fn parse_var_decl(&mut self, category: Category) -> (r: Result<VarDecl, ParseError>)
        requires
            old(self).wf(),
        ensures
            final(self).decl_step(old(self)),
            final(self).scope == old(self).scope,
            r is Ok ==> final(self).cursor > old(self).cursor,
            lift_var(r, final(self).symbols@, final(self).cursor as int) == var_decl_spec(
                old(self).tokens@,
                old(self).cursor as int,
                old(self).symbols@,
                join_scope(scope_names(old(self).scope@)),
                category,
            ),
    {
        let ty = self.parse_type()?;
        let id_tok = self.expect_id()?;
        let name = id_tok.lexeme;
        self.expect_delim(";")?;
        let sc = self.scope_str();
        let tyd = ty.display();
        self.symbols.add(sc.as_str(), name.as_str(), category, tyd.as_str(), id_tok.line, id_tok.column);
        Ok(VarDecl { name, ty, line: id_tok.line, column: id_tok.column })
    }

    /// True when the next tokens start a `Type Id ;` declaration rather than a
    /// command. Uses lookahead-2 because a class-typed declaration `Foo x;` has
    /// the same `Id Id` shape that a command never has.
    fn at_def_var(&self) -> (r: bool)
        requires
            self.wf(),
        ensures
            r ==> self.at().class != TokenClass::Eof,
            r == at_def_var(self.tokens@, self.cursor as int),
    {
        let t = self.peek();
        if t.is_keyword("int") || t.is_keyword("boolean") {
            return true;
        }
        if t.is_id() {
            return self.peek_at(1).is_id();
        }
        false
    }

    // Def_M -> 'public' Type Id '(' Def'_M | λ
    // Def'_M -> Args ')' '{' Def_V L_com 'return' Exp ';' '}' Def_M
    //        | ')' '{' Def_V L_com 'return' Exp ';' '}' Def_M
    fn parse_def_m(&mut self) -> (r: Result<Vec<MethodDecl>, ParseError>)
        requires
            old(self).wf(),
            old(self).scope@.len() >= 1,
        ensures
            final(self).decl_step(old(self)),
            lift_methods(r, final(self).symbols@, final(self).cursor as int) == def_m_spec(
                old(self).tokens@,
                old(self).cursor as int,
                old(self).allow_empty_body,
                old(self).symbols@,
                join_scope(scope_names(old(self).scope@)),
                Seq::empty(),
            ),
    {
        let ghost ts = self.tokens@;
        let ghost start = self.cursor as int;
        let ghost a = self.allow_empty_body;
        let ghost sc0 = join_scope(scope_names(self.scope@));
        let mut methods: Vec<MethodDecl> = Vec::new();
        assert(methods_view(methods@) =~= Seq::<MethodDeclV>::empty());
        while self.peek().is_keyword("public")
            invariant
                self.decl_step(old(self)),
                self.scope@.len() >= 1,
                ts == self.tokens@,
                a == self.allow_empty_body,
                sc0 == join_scope(scope_names(self.scope@)),
                start == old(self).cursor,
                def_m_spec(ts, self.cursor as int, a, self.symbols@, sc0, methods_view(methods@))
                    == def_m_spec(ts, start, a, old(self).symbols@, sc0, Seq::empty()),
            decreases self.remaining(),
        {
            let m = self.parse_method()?;
            proof {
                lemma_methods_view_push(methods@, m);
            }
            methods.push(m);
        }
        Ok(methods)
    }

    /// One `'public' Type Id '(' ...` method.
    #[verifier::rlimit(80)]
    fn parse_method(&mut self) -> (r: Result<MethodDecl, ParseError>)
        requires
            old(self).wf(),
            old(self).scope@.len() >= 1,
            is_kw(old(self).at(), "public"@),
        ensures
            final(self).decl_step(old(self)),
            r is Ok ==> final(self).cursor > old(self).cursor,
            lift_method(r, final(self).symbols@, final(self).cursor as int) == method_spec(
                old(self).tokens@,
                old(self).cursor as int,
                old(self).allow_empty_body,
                old(self).symbols@,
                join_scope(scope_names(old(self).scope@)),
            ),
    {
        let pub_tok = self.advance();
        let ret_type = self.parse_type()?;
        let name_tok = self.expect_id()?;
        let name = name_tok.lexeme;
        let sc = self.scope_str();
        let rtd = ret_type.display();
        self.symbols.add(sc.as_str(), name.as_str(), Category::Method, rtd.as_str(), name_tok.line, name_tok.column);

        self.expect_delim("(")?;
        let ghost outer = scope_names(self.scope@);
        self.push_scope(name.as_str());
        proof {
            lemma_join_push(outer, name@);
        }
        let r = self.parse_method_rest(name, ret_type, pub_tok.line, pub_tok.column);
        self.pop_scope();
        assert(scope_names(self.scope@) =~= outer);
        r
    }

    /// The part of a method after its `(`, parsed inside the method's scope.
    fn parse_method_rest(&mut self, name: String, ret_type: Type, line: usize, column: usize) -> (r: Result<MethodDecl, ParseError>)
        requires
            old(self).wf(),
        ensures
            final(self).decl_step(old(self)),
            final(self).scope == old(self).scope,
            r is Ok ==> final(self).cursor > old(self).cursor,
            lift_method(r, final(self).symbols@, final(self).cursor as int) == method_rest_spec(
                old(self).tokens@,
                old(self).cursor as int,
                old(self).allow_empty_body,
                old(self).symbols@,
                join_scope(scope_names(old(self).scope@)),
                name@,
                ret_type@,
                line,
                column,
            ),
    {
        let params = self.parse_params()?;
        self.expect_delim(")")?;
        self.expect_delim("{")?;
        let locals = self.parse_def_v(Category::Local)?;
        let (body, ret_expr) = self.parse_method_body()?;
        Ok(MethodDecl { name, ret_type, params, locals, body, ret_expr, line, column })
    }

    /// The parameters, possibly none, up to the `)`.
    fn parse_params(&mut self) -> (r: Result<Vec<VarDecl>, ParseError>)
        requires
            old(self).wf(),
        ensures
            final(self).decl_step(old(self)),
            final(self).scope == old(self).scope,
            lift_vars(r, final(self).symbols@, final(self).cursor as int) == params_spec(
                old(self).tokens@,
                old(self).cursor as int,
                old(self).symbols@,
                join_scope(scope_names(old(self).scope@)),
            ),
    {
        if self.peek().is_delim(")") {
            let v: Vec<VarDecl> = Vec::new();
            assert(vars_view(v@) =~= Seq::<VarDeclV>::empty());
            Ok(v)
        } else {
            self.parse_args()
        }
    }

    /// `L_com 'return' Exp ';' '}'`.
    fn parse_method_body(&mut self) -> (r: Result<(Vec<Stmt>, Exp), ParseError>)
        requires
            old(self).wf(),
        ensures
            final(self).pure_step(old(self)),
            r is Ok ==> final(self).cursor > old(self).cursor,
            lift_body(r, final(self).cursor as int) == method_body_spec(
                old(self).tokens@,
                old(self).cursor as int,
                old(self).allow_empty_body,
            ),
    {
        let body = self.parse_l_com()?;
        self.expect_keyword("return")?;
        let ret_expr = self.parse_exp()?;
        self.expect_delim(";")?;
        self.expect_delim("}")?;
        Ok((body, ret_expr))
    }

    // Args -> Type Id Args'    Args' -> ',' Type Id Args' | λ
    fn parse_args(&mut self) -> (r: Result<Vec<VarDecl>, ParseError>)
        requires
            old(self).wf(),
        ensures
            final(self).decl_step(old(self)),
            final(self).scope == old(self).scope,
            lift_vars(r, final(self).symbols@, final(self).cursor as int) == args_spec(
                old(self).tokens@,
                old(self).cursor as int,
                old(self).symbols@,
                join_scope(scope_names(old(self).scope@)),
                Seq::empty(),
            ),
    {
        let ghost ts = self.tokens@;
        let ghost start = self.cursor as int;
        let ghost sc0 = join_scope(scope_names(self.scope@));
        let mut params: Vec<VarDecl> = Vec::new();
        assert(vars_view(params@) =~= Seq::<VarDeclV>::empty());
        loop
            invariant_except_break
                self.decl_step(old(self)),
                self.scope == old(self).scope,
                ts == self.tokens@,
                sc0 == join_scope(scope_names(self.scope@)),
                start == old(self).cursor,
                args_spec(ts, self.cursor as int, self.symbols@, sc0, vars_view(params@))
                    == args_spec(ts, start, old(self).symbols@, sc0, Seq::empty()),
            ensures
                self.decl_step(old(self)),
                self.scope == old(self).scope,
                args_spec(ts, start, old(self).symbols@, sc0, Seq::empty())
                    == Parsed::Done((vars_view(params@), self.symbols@), self.cursor as int),
            decreases self.remaining(),
        {
            let v = self.parse_param()?;
            proof {
                lemma_vars_view_push(params@, v);
            }
            params.push(v);
            if self.peek().is_delim(",") {
                self.advance();
                continue;
            }
            break;
        }
        Ok(params)
    }

    /// One parameter `Type Id`, entered in the current scope.
    fn parse_param(&mut self) -> (r: Result<VarDecl, ParseError>)
        requires
            old(self).wf(),
        ensures
            final(self).decl_step(old(self)),
            final(self).scope == old(self).scope,
            r is Ok ==> final(self).cursor > old(self).cursor,
            lift_var(r, final(self).symbols@, final(self).cursor as int) == param_spec(
                old(self).tokens@,
                old(self).cursor as int,
                old(self).symbols@,
                join_scope(scope_names(old(self).scope@)),
            ),
    {
        let ty = self.parse_type()?;
        let id_tok = self.expect_id()?;
        let name = id_tok.lexeme;
        let sc = self.scope_str();
        let tyd = ty.display();
        self.symbols.add(sc.as_str(), name.as_str(), Category::Param, tyd.as_str(), id_tok.line, id_tok.column);
        Ok(VarDecl { name, ty, line: id_tok.line, column: id_tok.column })
    }

    // Type -> 'int' Type' | 'boolean' | Id      Type' -> '[' ']' | λ
    fn parse_type(&mut self) -> (r: Result<Type, ParseError>)
        requires
            old(self).wf(),
        ensures
            final(self).pure_step(old(self)),
            r is Ok ==> final(self).cursor > old(self).cursor,
            lift(r, |ty: Type| ty@, final(self).cursor as int) == type_spec(old(self).tokens@, old(self).cursor as int),
    {
        let t = self.peek();
        if t.is_keyword("int") {
            self.advance();
            if self.peek().is_delim("[") {
                self.advance();
                self.expect_delim("]")?;
                Ok(Type::IntArray)
            } else {
                Ok(Type::Int)
            }
        } else if t.is_keyword("boolean") {
            self.advance();
            Ok(Type::Boolean)
        } else if t.is_id() {
            let tok = self.advance();
            Ok(Type::Class(tok.lexeme))
        } else {
            Err(self.error("expected type ('int', 'boolean', or class name)"))
        }
    }
}


impl<'a> Parser<'a> {
    // L_com -> Com L'_com   (at least one command, per the grammar)
    // L'_com -> Com L'_com | λ
    fn parse_l_com(&mut self) -> (r: Result<Vec<Stmt>, ParseError>)
        requires
            old(self).wf(),
        ensures
            final(self).pure_step(old(self)),
            lift(r, |v: Vec<Stmt>| stmts_view(v@), final(self).cursor as int) == l_com_spec(
                old(self).tokens@,
                old(self).cursor as int,
                old(self).allow_empty_body,
            ),
        decreases old(self).remaining(), 12nat,
    {
        let ghost ts = self.tokens@;
        let ghost start = self.cursor as int;
        let ghost a = self.allow_empty_body;
        let mut stmts: Vec<Stmt> = Vec::new();
        assert(stmts_view(stmts@) =~= Seq::<StmtV>::empty());
        // Strict mode: the grammar requires at least one command, so a
        // mandatory first `Com` is parsed (`parse_cmd` reports a precise
        // "expected statement" error when the body is empty). With
        // `allow_empty_body` that requirement is dropped.
        if !self.allow_empty_body {
            let first = self.parse_cmd()?;
            proof {
                lemma_stmts_view_push(stmts@, first);
            }
            stmts.push(first);
            assert(stmts_view(stmts@) =~= seq![stmt_view(first)]);
        }
        while self.at_cmd()
            invariant
                self.pure_step(old(self)),
                ts == self.tokens@,
                start == old(self).cursor,
                a == self.allow_empty_body,
                l_com_loop(ts, self.cursor as int, a, stmts_view(stmts@)) == l_com_spec(ts, start, a),
            decreases self.remaining(),
        {
            let ghost before = stmts@;
            let s = self.parse_cmd()?;
            proof {
                lemma_stmts_view_push(before, s);
            }
            stmts.push(s);
        }
        Ok(stmts)
    }

    fn at_cmd(&self) -> (r: bool)
        requires
            self.wf(),
        ensures
            r ==> self.at().class != TokenClass::Eof,
            r == at_cmd(self.tokens@, self.cursor as int),
    {
        let t = self.peek();
        t.is_keyword("if") || t.is_keyword("while") || t.is_keyword("System") || (t.is_id() && (
        self.peek_at(1).is_delim("=") || self.peek_at(1).is_delim("[")))
    }

    /// `'(' Exp ')'`.
    fn parse_paren(&mut self, start: Ghost<int>) -> (r: Result<Exp, ParseError>)
        requires
            old(self).wf(),
            0 <= start@ < old(self).cursor,
        ensures
            final(self).pure_step(old(self)),
            r is Ok ==> final(self).cursor > old(self).cursor,
            lift(r, |e: Exp| exp_view(e), final(self).cursor as int) == paren_spec(old(self).tokens@, old(self).cursor as int, start@),
        decreases old(self).remaining(), 0nat,
    {
        self.expect_delim("(")?;
        let e = self.parse_exp()?;
        self.expect_delim(")")?;
        Ok(e)
    }

    /// `'{' L_com '}'`.
    fn parse_block(&mut self, start: Ghost<int>) -> (r: Result<Vec<Stmt>, ParseError>)
        requires
            old(self).wf(),
            0 <= start@ < old(self).cursor,
        ensures
            final(self).pure_step(old(self)),
            r is Ok ==> final(self).cursor > old(self).cursor,
            lift(r, |v: Vec<Stmt>| stmts_view(v@), final(self).cursor as int) == block_spec(
                old(self).tokens@,
                old(self).cursor as int,
                old(self).allow_empty_body,
                start@,
            ),
        decreases old(self).remaining(), 0nat,
    {
        self.expect_delim("{")?;
        let b = self.parse_l_com()?;
        self.expect_delim("}")?;
        Ok(b)
    }

    // Com -> Id Com_Ass
    //      | 'if' '(' Exp ')' '{' L_com '}' I
    //      | 'while' '(' Exp ')' '{' L_com '}'
    //      | 'System' '.' 'out' '.' 'println' '(' Exp ')' ';'
    fn parse_cmd(&mut self) -> (r: Result<Stmt, ParseError>)
        requires
            old(self).wf(),
        ensures
            final(self).pure_step(old(self)),
            r is Ok ==> final(self).cursor > old(self).cursor,
            lift(r, |s: Stmt| stmt_view(s), final(self).cursor as int) == cmd_spec(
                old(self).tokens@,
                old(self).cursor as int,
                old(self).allow_empty_body,
            ),
        decreases old(self).remaining(), 11nat,
    {
        let ghost p = self.cursor as int;
        let t = self.peek().clone();

        if t.is_keyword("if") {
            self.advance();
            let cond = self.parse_paren(Ghost(p))?;
            let then_body = self.parse_block(Ghost(p))?;
            // I -> 'else' '{' L_com '}' | λ
            let else_body = if self.peek().is_keyword("else") {
                self.advance();
                let eb = self.parse_block(Ghost(p))?;
                Some(eb)
            } else {
                None
            };
            return Ok(Stmt::If { cond, then_body, else_body, line: t.line, column: t.column });
        }

        if t.is_keyword("while") {
            self.advance();
            let cond = self.parse_paren(Ghost(p))?;
            let body = self.parse_block(Ghost(p))?;
            return Ok(Stmt::While { cond, body, line: t.line, column: t.column });
        }

        if t.is_keyword("System") {
            self.advance();
            self.expect_delim(".")?;
            self.expect_keyword("out")?;
            self.expect_delim(".")?;
            self.expect_keyword("println")?;
            let value = self.parse_paren(Ghost(p))?;
            self.expect_delim(";")?;
            return Ok(Stmt::Println { value, line: t.line, column: t.column });
        }

        if t.is_id() {
            let id_tok = self.advance();
            let name = id_tok.lexeme;
            return self.parse_com_ass(name, id_tok.line, id_tok.column);
        }

        Err(self.error("expected statement"))
    }

    // Com_Ass -> '=' Exp ';' | '[' Exp ']' '=' Exp ';'
    fn parse_com_ass(&mut self, name: String, line: usize, column: usize) -> (r: Result<
        Stmt,
        ParseError,
    >)
        requires
            old(self).wf(),
        ensures
            final(self).pure_step(old(self)),
            r is Ok ==> final(self).cursor > old(self).cursor,
            lift(r, |s: Stmt| stmt_view(s), final(self).cursor as int) == com_ass_spec(
                old(self).tokens@,
                old(self).cursor as int,
                name@,
                line,
                column,
            ),
        decreases old(self).remaining(), 10nat,
    {
        if self.peek().is_delim("=") {
            self.advance();
            let value = self.parse_exp()?;
            self.expect_delim(";")?;
            return Ok(Stmt::Assign { name, value, line, column });
        }
        if self.peek().is_delim("[") {
            self.advance();
            let index = self.parse_exp()?;
            self.expect_delim("]")?;
            self.expect_delim("=")?;
            let value = self.parse_exp()?;
            self.expect_delim(";")?;
            return Ok(Stmt::ArrayAssign { name, index, value, line, column });
        }
        // `whle (...)`, `fi (...)` and the like reach this point as an
        // identifier that starts no valid command; point at the keyword the
        // user probably meant.
        let hint = match suggest_keyword(name.as_str()) {
            Some(kw) => {
                if str_eq(kw.as_str(), "if") || str_eq(kw.as_str(), "while") || str_eq(
                    kw.as_str(),
                    "System",
                ) {
                    cat3("did you mean '", kw.as_str(), "'?")
                } else {
                    string_of("insert '=' or '['")
                }
            },
            None => string_of("insert '=' or '['"),
        };
        Err(self.error_expecting("'=' or '[' after identifier", hint))
    }

    // ----------------------------------------------------------------
    // Expressions, lowest to highest precedence (all left-associative):
    //   Exp -> And_exp -> Rel_exp -> Add_exp -> Mul_exp -> Un_exp
    //       -> Psf_exp -> Pri_exp
    // ----------------------------------------------------------------
    fn parse_exp(&mut self) -> (r: Result<Exp, ParseError>)
        requires
            old(self).wf(),
        ensures
            final(self).pure_step(old(self)),
            r is Ok ==> final(self).cursor > old(self).cursor,
            lift(r, |e: Exp| exp_view(e), final(self).cursor as int) == exp_spec(old(self).tokens@, old(self).cursor as int),
        decreases old(self).remaining(), 8nat,
    {
        self.parse_exp_and()
    }

    fn parse_exp_and(&mut self) -> (r: Result<Exp, ParseError>)
        requires
            old(self).wf(),
        ensures
            final(self).pure_step(old(self)),
            r is Ok ==> final(self).cursor > old(self).cursor,
            lift(r, |e: Exp| exp_view(e), final(self).cursor as int) == and_spec(old(self).tokens@, old(self).cursor as int),
        decreases old(self).remaining(), 7nat,
    {
        let ghost ts = self.tokens@;
        let ghost start = self.cursor as int;
        let mut left = self.parse_exp_rel()?;
        while self.peek().is_op("&&")
            invariant
                self.pure_step(old(self)),
                ts == self.tokens@,
                start == old(self).cursor,
                self.cursor > start,
                and_loop(ts, self.cursor as int, exp_view(left)) == and_spec(ts, start),
            decreases self.remaining(),
        {
            let ghost q = self.cursor as int;
            let op = self.advance();
            let right = self.parse_exp_rel()?;
            left = Exp {
                kind: ExpKind::And(Box::new(left), Box::new(right)),
                line: op.line,
                column: op.column,
            };
        }
        Ok(left)
    }

    fn parse_exp_rel(&mut self) -> (r: Result<Exp, ParseError>)
        requires
            old(self).wf(),
        ensures
            final(self).pure_step(old(self)),
            r is Ok ==> final(self).cursor > old(self).cursor,
            lift(r, |e: Exp| exp_view(e), final(self).cursor as int) == rel_spec(old(self).tokens@, old(self).cursor as int),
        decreases old(self).remaining(), 6nat,
    {
        let ghost ts = self.tokens@;
        let ghost start = self.cursor as int;
        let mut left = self.parse_exp_add()?;
        while self.peek().is_op("<")
            invariant
                self.pure_step(old(self)),
                ts == self.tokens@,
                start == old(self).cursor,
                self.cursor > start,
                rel_loop(ts, self.cursor as int, exp_view(left)) == rel_spec(ts, start),
            decreases self.remaining(),
        {
            let op = self.advance();
            let right = self.parse_exp_add()?;
            left = Exp {
                kind: ExpKind::Less(Box::new(left), Box::new(right)),
                line: op.line,
                column: op.column,
            };
        }
        Ok(left)
    }

    #[verifier::rlimit(40)]
    fn parse_exp_add(&mut self) -> (r: Result<Exp, ParseError>)
        requires
            old(self).wf(),
        ensures
            final(self).pure_step(old(self)),
            r is Ok ==> final(self).cursor > old(self).cursor,
            lift(r, |e: Exp| exp_view(e), final(self).cursor as int) == add_spec(old(self).tokens@, old(self).cursor as int),
        decreases old(self).remaining(), 5nat,
    {
        let ghost ts = self.tokens@;
        let ghost start = self.cursor as int;
        let mut left = self.parse_exp_mul()?;
        loop
            invariant
                self.pure_step(old(self)),
                ts == self.tokens@,
                start == old(self).cursor,
                self.cursor > start,
                add_loop(ts, self.cursor as int, exp_view(left)) == add_spec(ts, start),
            ensures
                self.pure_step(old(self)),
                self.cursor > start,
                add_spec(ts, start) == Parsed::Done(exp_view(left), self.cursor as int),
            decreases self.remaining(),
        {
            let is_plus = self.peek().is_op("+");
            let is_minus = self.peek().is_op("-");
            if !is_plus && !is_minus {
                break;
            }
            let op = self.advance();
            let right = self.parse_exp_mul()?;
            if is_plus {
                left = Exp { kind: ExpKind::Add(Box::new(left), Box::new(right)), line: op.line, column: op.column };
            } else {
                left = Exp { kind: ExpKind::Sub(Box::new(left), Box::new(right)), line: op.line, column: op.column };
            }
        }
        Ok(left)
    }

    fn parse_exp_mul(&mut self) -> (r: Result<Exp, ParseError>)
        requires
            old(self).wf(),
        ensures
            final(self).pure_step(old(self)),
            r is Ok ==> final(self).cursor > old(self).cursor,
            lift(r, |e: Exp| exp_view(e), final(self).cursor as int) == mul_spec(old(self).tokens@, old(self).cursor as int),
        decreases old(self).remaining(), 4nat,
    {
        let ghost ts = self.tokens@;
        let ghost start = self.cursor as int;
        let mut left = self.parse_exp_unary()?;
        while self.peek().is_op("*")
            invariant
                self.pure_step(old(self)),
                ts == self.tokens@,
                start == old(self).cursor,
                self.cursor > start,
                mul_loop(ts, self.cursor as int, exp_view(left)) == mul_spec(ts, start),
            decreases self.remaining(),
        {
            let op = self.advance();
            let right = self.parse_exp_unary()?;
            left = Exp {
                kind: ExpKind::Mul(Box::new(left), Box::new(right)),
                line: op.line,
                column: op.column,
            };
        }
        Ok(left)
    }

    fn parse_exp_unary(&mut self) -> (r: Result<Exp, ParseError>)
        requires
            old(self).wf(),
        ensures
            final(self).pure_step(old(self)),
            r is Ok ==> final(self).cursor > old(self).cursor,
            lift(r, |e: Exp| exp_view(e), final(self).cursor as int) == unary_spec(old(self).tokens@, old(self).cursor as int),
        decreases old(self).remaining(), 3nat,
    {
        if self.peek().is_op("!") {
            let op = self.advance();
            let inner = self.parse_exp_unary()?;
            return Ok(Exp { kind: ExpKind::Not(Box::new(inner)), line: op.line, column: op.column });
        }
        self.parse_exp_postfix()
    }

    // Psf_exp -> Pri_exp Psf'_exp
    // Psf'_exp -> '[' Exp ']' Psf'_exp | '.' 'length' Psf'_exp
    //          | '.' Id '(' L_exp ')' Psf'_exp | λ
    fn parse_exp_postfix(&mut self) -> (r: Result<Exp, ParseError>)
        requires
            old(self).wf(),
        ensures
            final(self).pure_step(old(self)),
            r is Ok ==> final(self).cursor > old(self).cursor,
            lift(r, |e: Exp| exp_view(e), final(self).cursor as int) == postfix_spec(old(self).tokens@, old(self).cursor as int),
        decreases old(self).remaining(), 2nat,
    {
        let ghost ts = self.tokens@;
        let ghost start = self.cursor as int;
        let mut e = self.parse_exp_primary()?;
        loop
            invariant
                self.pure_step(old(self)),
                ts == self.tokens@,
                start == old(self).cursor,
                self.cursor > start,
                postfix_loop(ts, self.cursor as int, exp_view(e)) == postfix_spec(ts, start),
            ensures
                self.pure_step(old(self)),
                self.cursor > start,
                postfix_spec(ts, start) == Parsed::Done(exp_view(e), self.cursor as int),
            decreases self.remaining(),
        {
            if !self.peek().is_delim("[") && !self.peek().is_delim(".") {
                break;
            }
            e = self.parse_suffix(e)?;
        }
        Ok(e)
    }

    /// One `[ Exp ]`, `.length` or `.m(args)` suffix applied to `e`.
    fn parse_suffix(&mut self, e: Exp) -> (r: Result<Exp, ParseError>)
        requires
            old(self).wf(),
            old(self).at().class == TokenClass::Delimiter,
        ensures
            final(self).pure_step(old(self)),
            r is Ok ==> final(self).cursor > old(self).cursor,
            lift(r, |e: Exp| exp_view(e), final(self).cursor as int) == suffix_spec(old(self).tokens@, old(self).cursor as int, exp_view(e)),
        decreases old(self).remaining(), 0nat,
    {
        let t = self.peek().clone();
        if t.is_delim("[") {
            self.advance();
            let index = self.parse_exp()?;
            self.expect_delim("]")?;
            return Ok(Exp {
                kind: ExpKind::Index { array: Box::new(e), index: Box::new(index) },
                line: t.line,
                column: t.column,
            });
        }
        self.advance();
        if self.peek().is_keyword("length") {
            self.advance();
            return Ok(Exp { kind: ExpKind::Length(Box::new(e)), line: t.line, column: t.column });
        }
        let method_tok = self.expect_id()?;
        let method = method_tok.lexeme;
        self.expect_delim("(")?;
        let args = if self.peek().is_delim(")") {
            let v: Vec<Exp> = Vec::new();
            assert(exps_view(v@) =~= Seq::<ExpV>::empty());
            v
        } else {
            self.parse_list_exp()?
        };
        self.expect_delim(")")?;
        Ok(Exp { kind: ExpKind::Call { receiver: Box::new(e), method, args }, line: t.line, column: t.column })
    }

    // Pri_exp -> '(' Exp ')' | 'true' | 'false' | Id | Number | 'this'
    //         | 'new' Id '(' ')' | 'new' 'int' '[' Exp ']'
    fn parse_exp_primary(&mut self) -> (r: Result<Exp, ParseError>)
        requires
            old(self).wf(),
        ensures
            final(self).pure_step(old(self)),
            r is Ok ==> final(self).cursor > old(self).cursor,
            lift(r, |e: Exp| exp_view(e), final(self).cursor as int) == primary_spec(old(self).tokens@, old(self).cursor as int),
        decreases old(self).remaining(), 1nat,
    {
        let t = self.peek().clone();

        if t.is_delim("(") {
            self.advance();
            let inner = self.parse_exp()?;
            self.expect_delim(")")?;
            return Ok(inner);
        }
        if t.is_keyword("true") {
            self.advance();
            return Ok(Exp { kind: ExpKind::True, line: t.line, column: t.column });
        }
        if t.is_keyword("false") {
            self.advance();
            return Ok(Exp { kind: ExpKind::False, line: t.line, column: t.column });
        }
        if t.is_keyword("this") {
            self.advance();
            return Ok(Exp { kind: ExpKind::This, line: t.line, column: t.column });
        }
        if t.is_keyword("new") {
            self.advance();
            return self.parse_new_rest(t.line, t.column);
        }
        if t.is_id() {
            self.advance();
            return Ok(Exp { kind: ExpKind::Id(t.lexeme), line: t.line, column: t.column });
        }
        if t.is_number() {
            self.advance();
            return Ok(Exp { kind: ExpKind::Num(t.lexeme), line: t.line, column: t.column });
        }
        Err(self.error("expected expression"))
    }

    // after 'new': Id '(' ')' | 'int' '[' Exp ']'
    fn parse_new_rest(&mut self, line: usize, column: usize) -> (r: Result<Exp, ParseError>)
        requires
            old(self).wf(),
            old(self).cursor > 0,
        ensures
            final(self).pure_step(old(self)),
            r is Ok ==> final(self).cursor > old(self).cursor,
            lift(r, |e: Exp| exp_view(e), final(self).cursor as int) == new_spec(old(self).tokens@, old(self).cursor as int, line, column),
        decreases old(self).remaining(), 0nat,
    {
        if self.peek().is_keyword("int") {
            self.advance();
            self.expect_delim("[")?;
            let size = self.parse_exp()?;
            self.expect_delim("]")?;
            return Ok(Exp { kind: ExpKind::NewArray(Box::new(size)), line, column });
        }
        if self.peek().is_id() {
            let name_tok = self.advance();
            self.expect_delim("(")?;
            self.expect_delim(")")?;
            return Ok(Exp { kind: ExpKind::NewObject(name_tok.lexeme), line, column });
        }
        Err(self.error("expected class name or 'int' after 'new'"))
    }

    // L_exp -> Exp L'_exp | λ      L'_exp -> ',' Exp L'_exp | λ
    fn parse_list_exp(&mut self) -> (r: Result<Vec<Exp>, ParseError>)
        requires
            old(self).wf(),
        ensures
            final(self).pure_step(old(self)),
            r is Ok ==> final(self).cursor > old(self).cursor,
            lift(r, |v: Vec<Exp>| exps_view(v@), final(self).cursor as int) == list_spec(old(self).tokens@, old(self).cursor as int, Seq::empty()),
        decreases old(self).remaining(), 9nat,
    {
        let ghost ts = self.tokens@;
        let ghost start = self.cursor as int;
        let mut exps: Vec<Exp> = Vec::new();
        assert(exps_view(exps@) =~= Seq::<ExpV>::empty());
        loop
            invariant_except_break
                self.pure_step(old(self)),
                ts == self.tokens@,
                start == old(self).cursor,
                self.cursor >= start,
                exps@.len() > 0 ==> self.cursor > start,
                list_spec(ts, self.cursor as int, exps_view(exps@)) == list_spec(ts, start, Seq::empty()),
            ensures
                self.pure_step(old(self)),
                self.cursor > start,
                list_spec(ts, start, Seq::empty()) == Parsed::Done(exps_view(exps@), self.cursor as int),
            decreases self.remaining(),
        {
            let ghost before = exps@;
            let e = self.parse_exp()?;
            proof {
                lemma_exps_view_push(before, e);
            }
            exps.push(e);
            if self.peek().is_delim(",") {
                self.advance();
                continue;
            }
            break;
        }
        Ok(exps)
    }
}

/// Parse a token slice into an AST and symbol table, using the strict
/// official grammar (`L_com` requires at least one command).
pub fn parse(tokens: &[Token]) -> (r: Result<(Program, SymbolTable), ParseError>)
    requires
        tokens_ok(tokens@),
    ensures
        parse_matches(r, program_spec(tokens@, false)),
        r is Ok ==> r->Ok_0.1.wf(),
{
    Parser::new(tokens).parse()
}

/// Like `parse`, but when `allow_empty_body` is true `L_com` is treated as
/// nullable, so empty method/if/while/else bodies are accepted. With
/// `allow_empty_body == false` the behavior is identical to `parse`.
pub fn parse_with(tokens: &[Token], allow_empty_body: bool) -> (r: Result<
    (Program, SymbolTable),
    ParseError,
>)
    requires
        tokens_ok(tokens@),
    ensures
        parse_matches(r, program_spec(tokens@, allow_empty_body)),
        r is Ok ==> r->Ok_0.1.wf(),
{
    Parser::new(tokens).allow_empty_body(allow_empty_body).parse()
}

/// Strict mode is the default: `parse_with(tokens, false)` gives back what
/// `parse(tokens)` gives, the same AST and symbol table on success and the
/// same error on failure.
pub proof fn law_strict_mode_is_default(
    tokens: Seq<Token>,
    strict: Result<(Program, SymbolTable), ParseError>,
    plain: Result<(Program, SymbolTable), ParseError>,
)
    requires
        parse_matches(strict, program_spec(tokens, false)),
        parse_matches(plain, program_spec(tokens, false)),
    ensures
        strict is Ok <==> plain is Ok,
        strict is Ok ==> program_view(strict->Ok_0.0) == program_view(plain->Ok_0.0)
            && strict->Ok_0.1@ == plain->Ok_0.1@,
        strict is Err ==> perr_view(strict->Err_0) == perr_view(plain->Err_0),
{
}

/// The lax mode only relaxes the grammar: every token sequence that
/// `parse_with(tokens, false)` accepts, `parse_with(tokens, true)` accepts
/// too, with the same AST and the same symbol table.
pub proof fn law_lax_mode_accepts_strict_programs(
    tokens: Seq<Token>,
    strict: Result<(Program, SymbolTable), ParseError>,
    lax: Result<(Program, SymbolTable), ParseError>,
)
    requires
        tokens_ok(tokens),
        parse_matches(strict, program_spec(tokens, false)),
        parse_matches(lax, program_spec(tokens, true)),
    ensures
        strict is Ok ==> lax is Ok && program_view(lax->Ok_0.0) == program_view(strict->Ok_0.0)
            && lax->Ok_0.1@ == strict->Ok_0.1@,
{
    relaxed::lemma_program_lax(tokens);
}

/// An `if` keeps its blocks in source order: its condition is the
/// parenthesized expression after `if`, its then-branch the command list of
/// the block that follows, and its else-branch, when `else` comes next, the
/// command list of the block after `else`; the statement ends where the last
/// block does.
pub proof fn law_if_blocks_in_order(ts: Seq<Token>, p: int, a: bool)
    requires
        0 <= p < ts.len(),
        is_kw(ts[p], "if"@),
    ensures
        paren_spec(ts, p + 1, p) matches Parsed::Done(cond, q) ==> (block_spec(ts, q, a, p) matches Parsed::Done(
            tb,
            q2,
        ) ==> if is_kw(ts[q2], "else"@) {
            block_spec(ts, q2 + 1, a, p) matches Parsed::Done(eb, q3) ==> cmd_spec(ts, p, a) == Parsed::Done(
                StmtV::If { cond, then_body: tb, else_body: Some(eb), line: ts[p].line, column: ts[p].column },
                q3,
            )
        } else {
            cmd_spec(ts, p, a) == Parsed::Done(
                StmtV::If { cond, then_body: tb, else_body: None, line: ts[p].line, column: ts[p].column },
                q2,
            )
        }),
{
    let t = ts[p];
    if let Parsed::Done(cond, q) = paren_spec(ts, p + 1, p) {
        if let Parsed::Done(tb, q2) = block_spec(ts, q, a, p) {
            if is_kw(ts[q2], "else"@) {
                if let Parsed::Done(eb, q3) = block_spec(ts, q2 + 1, a, p) {
                    assert(cmd_spec(ts, p, a) == Parsed::Done(
                        StmtV::If { cond, then_body: tb, else_body: Some(eb), line: t.line, column: t.column },
                        q3,
                    ));
                }
            } else {
                assert(cmd_spec(ts, p, a) == Parsed::Done(
                    StmtV::If { cond, then_body: tb, else_body: None, line: t.line, column: t.column },
                    q2,
                ));
            }
        }
    }
}

/// A `while` is its parenthesized condition and the command list of the
/// block after it.
pub proof fn law_while_parts(ts: Seq<Token>, p: int, a: bool)
    requires
        0 <= p < ts.len(),
        is_kw(ts[p], "while"@),
    ensures
        paren_spec(ts, p + 1, p) matches Parsed::Done(cond, q) ==> (block_spec(ts, q, a, p) matches Parsed::Done(
            body,
            q2,
        ) ==> cmd_spec(ts, p, a) == Parsed::Done(
            StmtV::While { cond, body, line: ts[p].line, column: ts[p].column },
            q2,
        )),
{
    reveal_strlit("if");
    reveal_strlit("while");
    assert(!is_kw(ts[p], "if"@));
}

/// `x = v;` stores the expression after `=` as the value assigned to `x`.
pub proof fn law_assign_parts(ts: Seq<Token>, p: int, a: bool)
    requires
        0 <= p,
        p + 2 < ts.len(),
        is_ident(ts[p]),
        is_dl(ts[p + 1], "="@),
    ensures
        exp_spec(ts, p + 2) matches Parsed::Done(v, q) ==> (expect_dl(ts, q, ";"@) matches Parsed::Done(_, q2)
            ==> cmd_spec(ts, p, a) == Parsed::Done(
            StmtV::Assign { name: ts[p].lexeme@, value: v, line: ts[p].line, column: ts[p].column },
            q2,
        )),
{
    assert(cmd_spec(ts, p, a) == com_ass_spec(ts, p + 1, ts[p].lexeme@, ts[p].line, ts[p].column));
}

/// `x[i] = v;` stores the bracketed expression as the index and the
/// expression after `=` as the value.
#[verifier::rlimit(60)]
#[verifier::spinoff_prover]
pub proof fn law_array_assign_parts(ts: Seq<Token>, p: int, q: int, a: bool)
    requires
        0 <= p,
        p + 2 <= q,
        q + 2 < ts.len(),
        is_ident(ts[p]),
        is_dl(ts[p + 1], "["@),
        exp_spec(ts, p + 2) matches Parsed::Done(_, q0) && q0 == q,
        is_dl(ts[q], "]"@),
        is_dl(ts[q + 1], "="@),
    ensures
        exp_spec(ts, p + 2) matches Parsed::Done(index, _) ==> (exp_spec(ts, q + 2) matches Parsed::Done(v, q4) ==> (
        expect_dl(ts, q4, ";"@) matches Parsed::Done(_, q5) ==> cmd_spec(ts, p, a) == Parsed::Done(
            StmtV::ArrayAssign { name: ts[p].lexeme@, index, value: v, line: ts[p].line, column: ts[p].column },
            q5,
        ))),
{
    reveal_strlit("[");
    reveal_strlit("=");
    assert("["@ != "="@) by {
        assert("["@[0] == '[');
        assert("="@[0] == '=');
    }
    assert(!is_dl(ts[p + 1], "="@));
    let t = ts[p];
    assert(cmd_spec(ts, p, a) == com_ass_spec(ts, p + 1, t.lexeme@, t.line, t.column));
    if let Parsed::Done(index, q0) = exp_spec(ts, p + 2) {
        if let Parsed::Done(v, q4) = exp_spec(ts, q + 2) {
            if let Parsed::Done(_, q5) = expect_dl(ts, q4, ";"@) {
                assert(expect_dl(ts, q, "]"@) == Parsed::Done(ts[q]@, q + 1));
                assert(expect_dl(ts, q + 1, "="@) == Parsed::Done(ts[q + 1]@, q + 2));
                assert(later(ts, p + 1, q + 2));
                assert(com_ass_spec(ts, p + 1, t.lexeme@, t.line, t.column) == Parsed::Done(
                    StmtV::ArrayAssign { name: t.lexeme@, index, value: v, line: t.line, column: t.column },
                    q5,
                ));
            }
        }
    }
}

} // verus!
