//! The grammar as a function on token sequences: what the parser returns
//! for every input, and what it records in the symbol table.
//!
//! Each production takes the tokens and a position and gives either the
//! model of what it recognized with the position after it, or the
//! diagnostic at the offending token. Repetitions (`L_com`, `Def_V`, the
//! binary-operator chains, postfix suffixes, ...) are written as recursion
//! that carries what has been built so far. A recursive step is taken only
//! from a later position (`later`); the parser always consumes a token
//! before repeating, so that guard never stops it.

use vstd::prelude::*;
use crate::ast::{
    type_display, ClassDeclV, ExpKindV, ExpV, MainClassV, MethodDeclV, ProgramV, StmtV, TypeV,
    VarDeclV,
};
use crate::lexical_analyzer::{describe_token, suggestion_for, Token, TokenClass, TokenV};
use crate::symbol_table::{add_entry, Category, SymbolTableV};

verus! {

/// Model of a syntax error.
pub struct PErr {
    pub line: usize,
    pub column: usize,
    pub msg: Seq<char>,
    pub suggestion: Option<Seq<char>>,
}

/// What a production gives: what it recognized and the position after it,
/// or an error.
pub enum Parsed<T> {
    Done(T, int),
    Fail(PErr),
}

pub open spec fn is_kw(t: Token, k: Seq<char>) -> bool {
    t.class == TokenClass::Keyword && t.lexeme@ == k
}

pub open spec fn is_dl(t: Token, d: Seq<char>) -> bool {
    t.class == TokenClass::Delimiter && t.lexeme@ == d
}

pub open spec fn is_opr(t: Token, o: Seq<char>) -> bool {
    t.class == TokenClass::Operation && t.lexeme@ == o
}

pub open spec fn is_ident(t: Token) -> bool {
    t.class == TokenClass::Id
}

/// The token after `p`; the last token stands for anything beyond it.
pub open spec fn next_token(ts: Seq<Token>, p: int) -> Token {
    if p + 1 < ts.len() {
        ts[p + 1]
    } else {
        ts[ts.len() - 1]
    }
}

/// `q` is a position after `p` within the tokens.
pub open spec fn later(ts: Seq<Token>, p: int, q: int) -> bool {
    p < q < ts.len()
}

pub open spec fn error_at(t: Token, msg: Seq<char>) -> PErr {
    PErr { line: t.line, column: t.column, msg: msg + ", got "@ + describe_token(t@), suggestion: None }
}

pub open spec fn error_expecting(t: Token, what: Seq<char>, hint: Seq<char>) -> PErr {
    PErr {
        line: t.line,
        column: t.column,
        msg: "expected "@ + what + ", got "@ + describe_token(t@),
        suggestion: Some(hint),
    }
}

/// An identifier close to the expected keyword is taken for a misspelling
/// of it; otherwise the keyword is missing.
pub open spec fn keyword_hint(t: Token, k: Seq<char>) -> Seq<char> {
    if is_ident(t) && suggestion_for(t.lexeme@) == Some(k) {
        "replace '"@ + t.lexeme@ + "' with '"@ + k + "'"@
    } else {
        "insert '"@ + k + "'"@
    }
}

pub open spec fn expect_kw(ts: Seq<Token>, p: int, k: Seq<char>) -> Parsed<TokenV> {
    if is_kw(ts[p], k) {
        Parsed::Done(ts[p]@, p + 1)
    } else {
        Parsed::Fail(error_expecting(ts[p], "keyword '"@ + k + "'"@, keyword_hint(ts[p], k)))
    }
}

pub open spec fn expect_dl(ts: Seq<Token>, p: int, d: Seq<char>) -> Parsed<TokenV> {
    if is_dl(ts[p], d) {
        Parsed::Done(ts[p]@, p + 1)
    } else {
        Parsed::Fail(error_expecting(ts[p], "'"@ + d + "'"@, "insert '"@ + d + "'"@))
    }
}

pub open spec fn expect_ident(ts: Seq<Token>, p: int) -> Parsed<TokenV> {
    if is_ident(ts[p]) {
        Parsed::Done(ts[p]@, p + 1)
    } else {
        Parsed::Fail(error_expecting(ts[p], "identifier"@, "insert an identifier"@))
    }
}

/// `Type -> 'int' ('[' ']')? | 'boolean' | Id`
pub open spec fn type_spec(ts: Seq<Token>, p: int) -> Parsed<TypeV> {
    let t = ts[p];
    if is_kw(t, "int"@) {
        if is_dl(ts[p + 1], "["@) {
            match expect_dl(ts, p + 2, "]"@) {
                Parsed::Done(_, q) => Parsed::Done(TypeV::IntArray, q),
                Parsed::Fail(e) => Parsed::Fail(e),
            }
        } else {
            Parsed::Done(TypeV::Int, p + 1)
        }
    } else if is_kw(t, "boolean"@) {
        Parsed::Done(TypeV::Boolean, p + 1)
    } else if is_ident(t) {
        Parsed::Done(TypeV::Class(t.lexeme@), p + 1)
    } else {
        Parsed::Fail(error_at(t, "expected type ('int', 'boolean', or class name)"@))
    }
}

pub open spec fn node(kind: ExpKindV, t: Token) -> ExpV {
    ExpV { kind, line: t.line, column: t.column }
}

// ---------- expressions, lowest to highest precedence ----------

pub open spec fn exp_spec(ts: Seq<Token>, p: int) -> Parsed<ExpV>
    decreases ts.len() - p, 8nat,
    when 0 <= p < ts.len()
{
    and_spec(ts, p)
}

/// `And_exp -> Rel_exp ('&&' Rel_exp)*`, left-associative.
pub open spec fn and_spec(ts: Seq<Token>, p: int) -> Parsed<ExpV>
    decreases ts.len() - p, 7nat,
    when 0 <= p < ts.len()
{
    match rel_spec(ts, p) {
        Parsed::Done(l, q) => if later(ts, p, q) {
            and_loop(ts, q, l)
        } else {
            Parsed::Done(l, q)
        },
        Parsed::Fail(e) => Parsed::Fail(e),
    }
}

pub open spec fn and_loop(ts: Seq<Token>, p: int, left: ExpV) -> Parsed<ExpV>
    decreases ts.len() - p, 7nat,
    when 0 <= p < ts.len()
{
    if is_opr(ts[p], "&&"@) {
        match rel_spec(ts, p + 1) {
            Parsed::Done(r, q) => {
                let e = node(ExpKindV::And(Box::new(left), Box::new(r)), ts[p]);
                if later(ts, p, q) {
                    and_loop(ts, q, e)
                } else {
                    Parsed::Done(e, q)
                }
            },
            Parsed::Fail(err) => Parsed::Fail(err),
        }
    } else {
        Parsed::Done(left, p)
    }
}

/// `Rel_exp -> Add_exp ('<' Add_exp)*`, left-associative.
pub open spec fn rel_spec(ts: Seq<Token>, p: int) -> Parsed<ExpV>
    decreases ts.len() - p, 6nat,
    when 0 <= p < ts.len()
{
    match add_spec(ts, p) {
        Parsed::Done(l, q) => if later(ts, p, q) {
            rel_loop(ts, q, l)
        } else {
            Parsed::Done(l, q)
        },
        Parsed::Fail(e) => Parsed::Fail(e),
    }
}

pub open spec fn rel_loop(ts: Seq<Token>, p: int, left: ExpV) -> Parsed<ExpV>
    decreases ts.len() - p, 6nat,
    when 0 <= p < ts.len()
{
    if is_opr(ts[p], "<"@) {
        match add_spec(ts, p + 1) {
            Parsed::Done(r, q) => {
                let e = node(ExpKindV::Less(Box::new(left), Box::new(r)), ts[p]);
                if later(ts, p, q) {
                    rel_loop(ts, q, e)
                } else {
                    Parsed::Done(e, q)
                }
            },
            Parsed::Fail(err) => Parsed::Fail(err),
        }
    } else {
        Parsed::Done(left, p)
    }
}

/// `Add_exp -> Mul_exp (('+' | '-') Mul_exp)*`, left-associative.
pub open spec fn add_spec(ts: Seq<Token>, p: int) -> Parsed<ExpV>
    decreases ts.len() - p, 5nat,
    when 0 <= p < ts.len()
{
    match mul_spec(ts, p) {
        Parsed::Done(l, q) => if later(ts, p, q) {
            add_loop(ts, q, l)
        } else {
            Parsed::Done(l, q)
        },
        Parsed::Fail(e) => Parsed::Fail(e),
    }
}

pub open spec fn add_loop(ts: Seq<Token>, p: int, left: ExpV) -> Parsed<ExpV>
    decreases ts.len() - p, 5nat,
    when 0 <= p < ts.len()
{
    if is_opr(ts[p], "+"@) || is_opr(ts[p], "-"@) {
        match mul_spec(ts, p + 1) {
            Parsed::Done(r, q) => {
                let kind = if is_opr(ts[p], "+"@) {
                    ExpKindV::Add(Box::new(left), Box::new(r))
                } else {
                    ExpKindV::Sub(Box::new(left), Box::new(r))
                };
                let e = node(kind, ts[p]);
                if later(ts, p, q) {
                    add_loop(ts, q, e)
                } else {
                    Parsed::Done(e, q)
                }
            },
            Parsed::Fail(err) => Parsed::Fail(err),
        }
    } else {
        Parsed::Done(left, p)
    }
}

/// `Mul_exp -> Un_exp ('*' Un_exp)*`, left-associative.
pub open spec fn mul_spec(ts: Seq<Token>, p: int) -> Parsed<ExpV>
    decreases ts.len() - p, 4nat,
    when 0 <= p < ts.len()
{
    match unary_spec(ts, p) {
        Parsed::Done(l, q) => if later(ts, p, q) {
            mul_loop(ts, q, l)
        } else {
            Parsed::Done(l, q)
        },
        Parsed::Fail(e) => Parsed::Fail(e),
    }
}

pub open spec fn mul_loop(ts: Seq<Token>, p: int, left: ExpV) -> Parsed<ExpV>
    decreases ts.len() - p, 4nat,
    when 0 <= p < ts.len()
{
    if is_opr(ts[p], "*"@) {
        match unary_spec(ts, p + 1) {
            Parsed::Done(r, q) => {
                let e = node(ExpKindV::Mul(Box::new(left), Box::new(r)), ts[p]);
                if later(ts, p, q) {
                    mul_loop(ts, q, e)
                } else {
                    Parsed::Done(e, q)
                }
            },
            Parsed::Fail(err) => Parsed::Fail(err),
        }
    } else {
        Parsed::Done(left, p)
    }
}

/// `Un_exp -> '!' Un_exp | Psf_exp`
pub open spec fn unary_spec(ts: Seq<Token>, p: int) -> Parsed<ExpV>
    decreases ts.len() - p, 3nat,
    when 0 <= p < ts.len()
{
    if is_opr(ts[p], "!"@) {
        match unary_spec(ts, p + 1) {
            Parsed::Done(inner, q) => Parsed::Done(node(ExpKindV::Not(Box::new(inner)), ts[p]), q),
            Parsed::Fail(e) => Parsed::Fail(e),
        }
    } else {
        postfix_spec(ts, p)
    }
}

/// `Psf_exp -> Pri_exp ('[' Exp ']' | '.' 'length' | '.' Id '(' L_exp ')')*`
pub open spec fn postfix_spec(ts: Seq<Token>, p: int) -> Parsed<ExpV>
    decreases ts.len() - p, 2nat, 2nat,
    when 0 <= p < ts.len()
{
    match primary_spec(ts, p) {
        Parsed::Done(e, q) => if later(ts, p, q) {
            postfix_loop(ts, q, e)
        } else {
            Parsed::Done(e, q)
        },
        Parsed::Fail(err) => Parsed::Fail(err),
    }
}

/// The suffixes after a primary expression, each applied to what the
/// previous ones built.
pub open spec fn postfix_loop(ts: Seq<Token>, p: int, e: ExpV) -> Parsed<ExpV>
    decreases ts.len() - p, 2nat, 1nat,
    when 0 <= p < ts.len()
{
    if is_dl(ts[p], "["@) || is_dl(ts[p], "."@) {
        match suffix_spec(ts, p, e) {
            Parsed::Done(e2, q) => if later(ts, p, q) {
                postfix_loop(ts, q, e2)
            } else {
                Parsed::Done(e2, q)
            },
            Parsed::Fail(err) => Parsed::Fail(err),
        }
    } else {
        Parsed::Done(e, p)
    }
}

/// One suffix, starting at its `[` or `.`, applied to `e`; the new node
/// takes the position of that `[` or `.`.
pub open spec fn suffix_spec(ts: Seq<Token>, p: int, e: ExpV) -> Parsed<ExpV>
    decreases ts.len() - p, 2nat, 0nat,
    when 0 <= p < ts.len()
{
    let t = ts[p];
    if is_dl(t, "["@) {
        match exp_spec(ts, p + 1) {
            Parsed::Done(index, q) => match expect_dl(ts, q, "]"@) {
                Parsed::Done(_, q2) => Parsed::Done(
                    node(ExpKindV::Index { array: Box::new(e), index: Box::new(index) }, t),
                    q2,
                ),
                Parsed::Fail(err) => Parsed::Fail(err),
            },
            Parsed::Fail(err) => Parsed::Fail(err),
        }
    } else if is_kw(ts[p + 1], "length"@) {
        Parsed::Done(node(ExpKindV::Length(Box::new(e)), t), p + 2)
    } else {
        match expect_ident(ts, p + 1) {
            Parsed::Done(mt, q) => match expect_dl(ts, q, "("@) {
                Parsed::Done(_, q2) => {
                    let ra = if is_dl(ts[q2], ")"@) {
                        Parsed::Done(Seq::empty(), q2)
                    } else if later(ts, p, q2) {
                        list_spec(ts, q2, Seq::empty())
                    } else {
                        Parsed::Done(Seq::empty(), q2)
                    };
                    match ra {
                        Parsed::Done(args, q3) => match expect_dl(ts, q3, ")"@) {
                            Parsed::Done(_, q4) => Parsed::Done(
                                node(ExpKindV::Call { receiver: Box::new(e), method: mt.lexeme, args }, t),
                                q4,
                            ),
                            Parsed::Fail(err) => Parsed::Fail(err),
                        },
                        Parsed::Fail(err) => Parsed::Fail(err),
                    }
                },
                Parsed::Fail(err) => Parsed::Fail(err),
            },
            Parsed::Fail(err) => Parsed::Fail(err),
        }
    }
}

/// `L_exp -> Exp (',' Exp)*`, appended to `acc`.
pub open spec fn list_spec(ts: Seq<Token>, p: int, acc: Seq<ExpV>) -> Parsed<Seq<ExpV>>
    decreases ts.len() - p, 9nat,
    when 0 <= p < ts.len()
{
    match exp_spec(ts, p) {
        Parsed::Done(e, q) => {
            let acc2 = acc.push(e);
            if is_dl(ts[q], ","@) {
                if later(ts, p, q + 1) {
                    list_spec(ts, q + 1, acc2)
                } else {
                    Parsed::Done(acc2, q + 1)
                }
            } else {
                Parsed::Done(acc2, q)
            }
        },
        Parsed::Fail(err) => Parsed::Fail(err),
    }
}

/// `Pri_exp -> '(' Exp ')' | 'true' | 'false' | 'this' | 'new' ... | Id | Number`
pub open spec fn primary_spec(ts: Seq<Token>, p: int) -> Parsed<ExpV>
    decreases ts.len() - p, 1nat,
    when 0 <= p < ts.len()
{
    let t = ts[p];
    if is_dl(t, "("@) {
        match exp_spec(ts, p + 1) {
            Parsed::Done(inner, q) => match expect_dl(ts, q, ")"@) {
                Parsed::Done(_, q2) => Parsed::Done(inner, q2),
                Parsed::Fail(e) => Parsed::Fail(e),
            },
            Parsed::Fail(e) => Parsed::Fail(e),
        }
    } else if is_kw(t, "true"@) {
        Parsed::Done(node(ExpKindV::True, t), p + 1)
    } else if is_kw(t, "false"@) {
        Parsed::Done(node(ExpKindV::False, t), p + 1)
    } else if is_kw(t, "this"@) {
        Parsed::Done(node(ExpKindV::This, t), p + 1)
    } else if is_kw(t, "new"@) {
        new_spec(ts, p + 1, t.line, t.column)
    } else if is_ident(t) {
        Parsed::Done(node(ExpKindV::Id(t.lexeme@), t), p + 1)
    } else if t.class == TokenClass::Number {
        Parsed::Done(node(ExpKindV::Num(t.lexeme@), t), p + 1)
    } else {
        Parsed::Fail(error_at(t, "expected expression"@))
    }
}

/// After a `new` found at `(line, column)`: `'int' '[' Exp ']'` or
/// `Id '(' ')'`.
pub open spec fn new_spec(ts: Seq<Token>, p: int, line: usize, column: usize) -> Parsed<ExpV>
    decreases ts.len() - p, 0nat,
    when 0 <= p < ts.len()
{
    if is_kw(ts[p], "int"@) {
        match expect_dl(ts, p + 1, "["@) {
            Parsed::Done(_, q) => if later(ts, p, q) {
                match exp_spec(ts, q) {
                    Parsed::Done(size, q2) => match expect_dl(ts, q2, "]"@) {
                        Parsed::Done(_, q3) => Parsed::Done(ExpV { kind: ExpKindV::NewArray(Box::new(size)), line, column }, q3),
                        Parsed::Fail(e) => Parsed::Fail(e),
                    },
                    Parsed::Fail(e) => Parsed::Fail(e),
                }
            } else {
                Parsed::Done(ExpV { kind: ExpKindV::True, line, column }, q)
            },
            Parsed::Fail(e) => Parsed::Fail(e),
        }
    } else if is_ident(ts[p]) {
        match expect_dl(ts, p + 1, "("@) {
            Parsed::Done(_, q) => match expect_dl(ts, q, ")"@) {
                Parsed::Done(_, q2) => Parsed::Done(ExpV { kind: ExpKindV::NewObject(ts[p].lexeme@), line, column }, q2),
                Parsed::Fail(e) => Parsed::Fail(e),
            },
            Parsed::Fail(e) => Parsed::Fail(e),
        }
    } else {
        Parsed::Fail(error_at(ts[p], "expected class name or 'int' after 'new'"@))
    }
}

// ---------- statements ----------

/// Whether the next tokens start a command.
pub open spec fn at_cmd(ts: Seq<Token>, p: int) -> bool {
    let t = ts[p];
    is_kw(t, "if"@) || is_kw(t, "while"@) || is_kw(t, "System"@) || (is_ident(t) && (is_dl(
        next_token(ts, p),
        "="@,
    ) || is_dl(next_token(ts, p), "["@)))
}

/// `L_com -> Com L'_com`: at least one command, unless empty bodies are
/// allowed (`a`).
pub open spec fn l_com_spec(ts: Seq<Token>, p: int, a: bool) -> Parsed<Seq<StmtV>>
    decreases ts.len() - p, 13nat,
    when 0 <= p < ts.len()
{
    if !a {
        match cmd_spec(ts, p, a) {
            Parsed::Done(s, q) => if later(ts, p, q) {
                l_com_loop(ts, q, a, seq![s])
            } else {
                Parsed::Done(seq![s], q)
            },
            Parsed::Fail(e) => Parsed::Fail(e),
        }
    } else {
        l_com_loop(ts, p, a, Seq::empty())
    }
}

/// `L'_com -> Com L'_com | λ`, appended to `acc`.
pub open spec fn l_com_loop(ts: Seq<Token>, p: int, a: bool, acc: Seq<StmtV>) -> Parsed<Seq<StmtV>>
    decreases ts.len() - p, 12nat,
    when 0 <= p < ts.len()
{
    if at_cmd(ts, p) {
        match cmd_spec(ts, p, a) {
            Parsed::Done(s, q) => if later(ts, p, q) {
                l_com_loop(ts, q, a, acc.push(s))
            } else {
                Parsed::Done(acc.push(s), q)
            },
            Parsed::Fail(e) => Parsed::Fail(e),
        }
    } else {
        Parsed::Done(acc, p)
    }
}

/// `'{' L_com '}'` from position `p`.
pub open spec fn block_spec(ts: Seq<Token>, p: int, a: bool, start: int) -> Parsed<Seq<StmtV>>
    decreases ts.len() - start, 11nat, 0nat,
    when 0 <= start < ts.len()
{
    match expect_dl(ts, p, "{"@) {
        Parsed::Done(_, q) => if later(ts, start, q) {
            match l_com_spec(ts, q, a) {
                Parsed::Done(b, q2) => match expect_dl(ts, q2, "}"@) {
                    Parsed::Done(_, q3) => Parsed::Done(b, q3),
                    Parsed::Fail(e) => Parsed::Fail(e),
                },
                Parsed::Fail(e) => Parsed::Fail(e),
            }
        } else {
            Parsed::Done(Seq::empty(), q)
        },
        Parsed::Fail(e) => Parsed::Fail(e),
    }
}

/// `'(' Exp ')'` from position `p`.
pub open spec fn paren_spec(ts: Seq<Token>, p: int, start: int) -> Parsed<ExpV>
    decreases ts.len() - start, 11nat, 0nat,
    when 0 <= start < ts.len()
{
    match expect_dl(ts, p, "("@) {
        Parsed::Done(_, q) => if later(ts, start, q) {
            match exp_spec(ts, q) {
                Parsed::Done(e, q2) => match expect_dl(ts, q2, ")"@) {
                    Parsed::Done(_, q3) => Parsed::Done(e, q3),
                    Parsed::Fail(err) => Parsed::Fail(err),
                },
                Parsed::Fail(err) => Parsed::Fail(err),
            }
        } else {
            Parsed::Done(node(ExpKindV::True, ts[p]), q)
        },
        Parsed::Fail(e) => Parsed::Fail(e),
    }
}

/// `Com -> Id Com_Ass | 'if' ... | 'while' ... | 'System' '.' 'out' '.' 'println' ...`
pub open spec fn cmd_spec(ts: Seq<Token>, p: int, a: bool) -> Parsed<StmtV>
    decreases ts.len() - p, 11nat, 1nat,
    when 0 <= p < ts.len()
{
    let t = ts[p];
    if is_kw(t, "if"@) {
        match paren_spec(ts, p + 1, p) {
            Parsed::Done(cond, q) => match block_spec(ts, q, a, p) {
                Parsed::Done(tb, q2) => if is_kw(ts[q2], "else"@) {
                    match block_spec(ts, q2 + 1, a, p) {
                        Parsed::Done(eb, q3) => Parsed::Done(
                            StmtV::If { cond, then_body: tb, else_body: Some(eb), line: t.line, column: t.column },
                            q3,
                        ),
                        Parsed::Fail(e) => Parsed::Fail(e),
                    }
                } else {
                    Parsed::Done(
                        StmtV::If { cond, then_body: tb, else_body: None, line: t.line, column: t.column },
                        q2,
                    )
                },
                Parsed::Fail(e) => Parsed::Fail(e),
            },
            Parsed::Fail(e) => Parsed::Fail(e),
        }
    } else if is_kw(t, "while"@) {
        match paren_spec(ts, p + 1, p) {
            Parsed::Done(cond, q) => match block_spec(ts, q, a, p) {
                Parsed::Done(b, q2) => Parsed::Done(
                    StmtV::While { cond, body: b, line: t.line, column: t.column },
                    q2,
                ),
                Parsed::Fail(e) => Parsed::Fail(e),
            },
            Parsed::Fail(e) => Parsed::Fail(e),
        }
    } else if is_kw(t, "System"@) {
        match expect_dl(ts, p + 1, "."@) {
            Parsed::Done(_, q1) => match expect_kw(ts, q1, "out"@) {
                Parsed::Done(_, q2) => match expect_dl(ts, q2, "."@) {
                    Parsed::Done(_, q3) => match expect_kw(ts, q3, "println"@) {
                        Parsed::Done(_, q4) => match paren_spec(ts, q4, p) {
                            Parsed::Done(v, q5) => match expect_dl(ts, q5, ";"@) {
                                Parsed::Done(_, q6) => Parsed::Done(
                                    StmtV::Println { value: v, line: t.line, column: t.column },
                                    q6,
                                ),
                                Parsed::Fail(e) => Parsed::Fail(e),
                            },
                            Parsed::Fail(e) => Parsed::Fail(e),
                        },
                        Parsed::Fail(e) => Parsed::Fail(e),
                    },
                    Parsed::Fail(e) => Parsed::Fail(e),
                },
                Parsed::Fail(e) => Parsed::Fail(e),
            },
            Parsed::Fail(e) => Parsed::Fail(e),
        }
    } else if is_ident(t) {
        com_ass_spec(ts, p + 1, t.lexeme@, t.line, t.column)
    } else {
        Parsed::Fail(error_at(t, "expected statement"@))
    }
}

/// The hint when an identifier starts no command: a misspelt `if`, `while`
/// or `System`, or a missing `=` / `[`.
pub open spec fn com_ass_hint(name: Seq<char>) -> Seq<char> {
    match suggestion_for(name) {
        Some(k) => if k == "if"@ || k == "while"@ || k == "System"@ {
            "did you mean '"@ + k + "'?"@
        } else {
            "insert '=' or '['"@
        },
        None => "insert '=' or '['"@,
    }
}

/// `Com_Ass -> '=' Exp ';' | '[' Exp ']' '=' Exp ';'` after the identifier
/// `name` found at `(line, column)`.
pub open spec fn com_ass_spec(ts: Seq<Token>, p: int, name: Seq<char>, line: usize, column: usize) -> Parsed<StmtV>
    decreases ts.len() - p, 10nat, 0nat,
    when 0 <= p < ts.len()
{
    if is_dl(ts[p], "="@) {
        match exp_spec(ts, p + 1) {
            Parsed::Done(v, q) => match expect_dl(ts, q, ";"@) {
                Parsed::Done(_, q2) => Parsed::Done(
                    StmtV::Assign { name, value: v, line, column },
                    q2,
                ),
                Parsed::Fail(e) => Parsed::Fail(e),
            },
            Parsed::Fail(e) => Parsed::Fail(e),
        }
    } else if is_dl(ts[p], "["@) {
        match exp_spec(ts, p + 1) {
            Parsed::Done(index, q) => match expect_dl(ts, q, "]"@) {
                Parsed::Done(_, q2) => match expect_dl(ts, q2, "="@) {
                    Parsed::Done(_, q3) => if later(ts, p, q3) {
                        match exp_spec(ts, q3) {
                            Parsed::Done(v, q4) => match expect_dl(ts, q4, ";"@) {
                                Parsed::Done(_, q5) => Parsed::Done(
                                    StmtV::ArrayAssign { name, index, value: v, line, column },
                                    q5,
                                ),
                                Parsed::Fail(e) => Parsed::Fail(e),
                            },
                            Parsed::Fail(e) => Parsed::Fail(e),
                        }
                    } else {
                        Parsed::Fail(error_at(ts[p], Seq::empty()))
                    },
                    Parsed::Fail(e) => Parsed::Fail(e),
                },
                Parsed::Fail(e) => Parsed::Fail(e),
            },
            Parsed::Fail(e) => Parsed::Fail(e),
        }
    } else {
        Parsed::Fail(
            error_expecting(ts[p], "'=' or '[' after identifier"@, com_ass_hint(name)),
        )
    }
}

// ---------- declarations ----------

/// Whether the next tokens start a `Type Id ;` declaration: `int`,
/// `boolean`, or two identifiers in a row.
pub open spec fn at_def_var(ts: Seq<Token>, p: int) -> bool {
    is_kw(ts[p], "int"@) || is_kw(ts[p], "boolean"@) || (is_ident(ts[p]) && is_ident(
        next_token(ts, p),
    ))
}

pub open spec fn var_decl(it: TokenV, ty: TypeV) -> VarDeclV {
    VarDeclV { name: it.lexeme, ty, line: it.line as usize, column: it.column as usize }
}

/// The table after declaring `it : ty` in `scope`.
pub open spec fn declare(t: SymbolTableV, scope: Seq<char>, it: TokenV, cat: Category, ty: Seq<char>) -> SymbolTableV {
    add_entry(t, scope, it.lexeme, cat, ty, it.line, it.column)
}

/// One `Type Id ';'` declaration, entered in `scope` under `cat`.
pub open spec fn var_decl_spec(ts: Seq<Token>, p: int, t: SymbolTableV, scope: Seq<char>, cat: Category) -> Parsed<
    (VarDeclV, SymbolTableV),
> {
    match type_spec(ts, p) {
        Parsed::Done(ty, q1) => match expect_ident(ts, q1) {
            Parsed::Done(it, q2) => match expect_dl(ts, q2, ";"@) {
                Parsed::Done(_, q3) => Parsed::Done(
                    (var_decl(it, ty), declare(t, scope, it, cat, type_display(ty))),
                    q3,
                ),
                Parsed::Fail(e) => Parsed::Fail(e),
            },
            Parsed::Fail(e) => Parsed::Fail(e),
        },
        Parsed::Fail(e) => Parsed::Fail(e),
    }
}

/// `Def_V -> Type Id ';' Def_V | λ`: each declaration is entered in `scope`
/// under `cat`; results are appended to `acc`.
pub open spec fn def_v_spec(
    ts: Seq<Token>,
    p: int,
    t: SymbolTableV,
    scope: Seq<char>,
    cat: Category,
    acc: Seq<VarDeclV>,
) -> Parsed<(Seq<VarDeclV>, SymbolTableV)>
    decreases ts.len() - p,
    when 0 <= p < ts.len()
{
    if at_def_var(ts, p) {
        match var_decl_spec(ts, p, t, scope, cat) {
            Parsed::Done((v, t2), q) => if later(ts, p, q) {
                def_v_spec(ts, q, t2, scope, cat, acc.push(v))
            } else {
                Parsed::Done((acc.push(v), t2), q)
            },
            Parsed::Fail(e) => Parsed::Fail(e),
        }
    } else {
        Parsed::Done((acc, t), p)
    }
}

/// One parameter `Type Id`, entered in `scope`.
pub open spec fn param_spec(ts: Seq<Token>, p: int, t: SymbolTableV, scope: Seq<char>) -> Parsed<(VarDeclV, SymbolTableV)> {
    match type_spec(ts, p) {
        Parsed::Done(ty, q1) => match expect_ident(ts, q1) {
            Parsed::Done(it, q2) => Parsed::Done(
                (var_decl(it, ty), declare(t, scope, it, Category::Param, type_display(ty))),
                q2,
            ),
            Parsed::Fail(e) => Parsed::Fail(e),
        },
        Parsed::Fail(e) => Parsed::Fail(e),
    }
}

/// `Args -> Type Id (',' Type Id)*`: each parameter is entered in `scope`.
pub open spec fn args_spec(ts: Seq<Token>, p: int, t: SymbolTableV, scope: Seq<char>, acc: Seq<VarDeclV>) -> Parsed<
    (Seq<VarDeclV>, SymbolTableV),
>
    decreases ts.len() - p,
    when 0 <= p < ts.len()
{
    match param_spec(ts, p, t, scope) {
        Parsed::Done((v, t2), q) => {
            let acc2 = acc.push(v);
            if is_dl(ts[q], ","@) {
                if later(ts, p, q + 1) {
                    args_spec(ts, q + 1, t2, scope, acc2)
                } else {
                    Parsed::Done((acc2, t2), q + 1)
                }
            } else {
                Parsed::Done((acc2, t2), q)
            }
        },
        Parsed::Fail(e) => Parsed::Fail(e),
    }
}

/// The parameters of a method, after its `(`: none when `)` follows.
pub open spec fn params_spec(ts: Seq<Token>, p: int, t: SymbolTableV, scope: Seq<char>) -> Parsed<(Seq<VarDeclV>, SymbolTableV)> {
    if is_dl(ts[p], ")"@) {
        Parsed::Done((Seq::empty(), t), p)
    } else {
        args_spec(ts, p, t, scope, Seq::empty())
    }
}

/// `L_com 'return' Exp ';' '}'`: the body and the returned expression.
pub open spec fn method_body_spec(ts: Seq<Token>, p: int, a: bool) -> Parsed<(Seq<StmtV>, ExpV)> {
    match l_com_spec(ts, p, a) {
        Parsed::Done(body, q1) => match expect_kw(ts, q1, "return"@) {
            Parsed::Done(_, q2) => match exp_spec(ts, q2) {
                Parsed::Done(ret_expr, q3) => match expect_dl(ts, q3, ";"@) {
                    Parsed::Done(_, q4) => match expect_dl(ts, q4, "}"@) {
                        Parsed::Done(_, q5) => Parsed::Done((body, ret_expr), q5),
                        Parsed::Fail(e) => Parsed::Fail(e),
                    },
                    Parsed::Fail(e) => Parsed::Fail(e),
                },
                Parsed::Fail(e) => Parsed::Fail(e),
            },
            Parsed::Fail(e) => Parsed::Fail(e),
        },
        Parsed::Fail(e) => Parsed::Fail(e),
    }
}

/// A method after its `(`, inside the method's scope `scope`: parameters,
/// `)`, `{`, locals, body, `return` Exp `;`, `}`.
pub open spec fn method_rest_spec(
    ts: Seq<Token>,
    p: int,
    a: bool,
    t: SymbolTableV,
    scope: Seq<char>,
    name: Seq<char>,
    ret_type: TypeV,
    line: usize,
    column: usize,
) -> Parsed<(MethodDeclV, SymbolTableV)> {
    match params_spec(ts, p, t, scope) {
        Parsed::Done((params, t1), q1) => match expect_dl(ts, q1, ")"@) {
            Parsed::Done(_, q2) => match expect_dl(ts, q2, "{"@) {
                Parsed::Done(_, q3) => match def_v_spec(ts, q3, t1, scope, Category::Local, Seq::empty()) {
                    Parsed::Done((locals, t2), q4) => match method_body_spec(ts, q4, a) {
                        Parsed::Done((body, ret_expr), q5) => Parsed::Done(
                            (
                                MethodDeclV { name, ret_type, params, locals, body, ret_expr, line, column },
                                t2,
                            ),
                            q5,
                        ),
                        Parsed::Fail(e) => Parsed::Fail(e),
                    },
                    Parsed::Fail(e) => Parsed::Fail(e),
                },
                Parsed::Fail(e) => Parsed::Fail(e),
            },
            Parsed::Fail(e) => Parsed::Fail(e),
        },
        Parsed::Fail(e) => Parsed::Fail(e),
    }
}

/// One method `'public' Type Id '(' ...` in class scope `scope`: entered
/// there with its return type, its parameters and locals in `scope::name`.
pub open spec fn method_spec(ts: Seq<Token>, p: int, a: bool, t: SymbolTableV, scope: Seq<char>) -> Parsed<
    (MethodDeclV, SymbolTableV),
> {
    match type_spec(ts, p + 1) {
        Parsed::Done(ret_type, q1) => match expect_ident(ts, q1) {
            Parsed::Done(nt, q2) => match expect_dl(ts, q2, "("@) {
                Parsed::Done(_, q3) => method_rest_spec(
                    ts,
                    q3,
                    a,
                    declare(t, scope, nt, Category::Method, type_display(ret_type)),
                    scope + "::"@ + nt.lexeme,
                    nt.lexeme,
                    ret_type,
                    ts[p].line,
                    ts[p].column,
                ),
                Parsed::Fail(e) => Parsed::Fail(e),
            },
            Parsed::Fail(e) => Parsed::Fail(e),
        },
        Parsed::Fail(e) => Parsed::Fail(e),
    }
}

/// `Def_M -> 'public' Type Id '(' ... Def_M | λ` in class scope `scope`.
pub open spec fn def_m_spec(
    ts: Seq<Token>,
    p: int,
    a: bool,
    t: SymbolTableV,
    scope: Seq<char>,
    acc: Seq<MethodDeclV>,
) -> Parsed<(Seq<MethodDeclV>, SymbolTableV)>
    decreases ts.len() - p,
    when 0 <= p < ts.len()
{
    if is_kw(ts[p], "public"@) {
        match method_spec(ts, p, a, t, scope) {
            Parsed::Done((m, t2), q) => if later(ts, p, q) {
                def_m_spec(ts, q, a, t2, scope, acc.push(m))
            } else {
                Parsed::Done((acc.push(m), t2), q)
            },
            Parsed::Fail(e) => Parsed::Fail(e),
        }
    } else {
        Parsed::Done((acc, t), p)
    }
}

/// The optional `extends Id` after a class name.
pub open spec fn extends_spec(ts: Seq<Token>, p: int) -> Parsed<Option<Seq<char>>> {
    if is_kw(ts[p], "extends"@) {
        match expect_ident(ts, p + 1) {
            Parsed::Done(pt, q) => Parsed::Done(Some(pt.lexeme), q),
            Parsed::Fail(e) => Parsed::Fail(e),
        }
    } else {
        Parsed::Done(None, p)
    }
}

/// `'{' Def_V Def_M '}'`: the members of a class, in its scope `scope`.
pub open spec fn class_body_spec(ts: Seq<Token>, p: int, a: bool, t: SymbolTableV, scope: Seq<char>) -> Parsed<
    (Seq<VarDeclV>, Seq<MethodDeclV>, SymbolTableV),
> {
    match expect_dl(ts, p, "{"@) {
        Parsed::Done(_, q1) => match def_v_spec(ts, q1, t, scope, Category::Field, Seq::empty()) {
            Parsed::Done((fields, t1), q2) => match def_m_spec(ts, q2, a, t1, scope, Seq::empty()) {
                Parsed::Done((methods, t2), q3) => match expect_dl(ts, q3, "}"@) {
                    Parsed::Done(_, q4) => Parsed::Done((fields, methods, t2), q4),
                    Parsed::Fail(e) => Parsed::Fail(e),
                },
                Parsed::Fail(e) => Parsed::Fail(e),
            },
            Parsed::Fail(e) => Parsed::Fail(e),
        },
        Parsed::Fail(e) => Parsed::Fail(e),
    }
}

/// One class `'class' Id ('extends' Id)? '{' Def_V Def_M '}'`: entered in
/// `global` with its parent (or `-`), its members in `global::name`.
pub open spec fn class_spec(ts: Seq<Token>, p: int, a: bool, t: SymbolTableV) -> Parsed<(ClassDeclV, SymbolTableV)> {
    match expect_ident(ts, p + 1) {
        Parsed::Done(nt, q1) => match extends_spec(ts, q1) {
            Parsed::Done(parent, q2) => {
                let t1 = declare(
                    t,
                    "global"@,
                    nt,
                    Category::Class,
                    match parent {
                        Some(pn) => pn,
                        None => "-"@,
                    },
                );
                match class_body_spec(ts, q2, a, t1, "global"@ + "::"@ + nt.lexeme) {
                    Parsed::Done((fields, methods, t2), q3) => Parsed::Done(
                        (
                            ClassDeclV {
                                name: nt.lexeme,
                                parent,
                                fields,
                                methods,
                                line: ts[p].line,
                                column: ts[p].column,
                            },
                            t2,
                        ),
                        q3,
                    ),
                    Parsed::Fail(e) => Parsed::Fail(e),
                }
            },
            Parsed::Fail(e) => Parsed::Fail(e),
        },
        Parsed::Fail(e) => Parsed::Fail(e),
    }
}

/// `Def_C -> 'class' Id ('extends' Id)? '{' Def_V Def_M '}' Def_C | λ`.
pub open spec fn def_c_spec(ts: Seq<Token>, p: int, a: bool, t: SymbolTableV, acc: Seq<ClassDeclV>) -> Parsed<
    (Seq<ClassDeclV>, SymbolTableV),
>
    decreases ts.len() - p,
    when 0 <= p < ts.len()
{
    if is_kw(ts[p], "class"@) {
        match class_spec(ts, p, a, t) {
            Parsed::Done((c, t2), q) => if later(ts, p, q) {
                def_c_spec(ts, q, a, t2, acc.push(c))
            } else {
                Parsed::Done((acc.push(c), t2), q)
            },
            Parsed::Fail(e) => Parsed::Fail(e),
        }
    } else {
        Parsed::Done((acc, t), p)
    }
}

/// The fixed tokens of the main method's header, after the class's `{`.
pub open spec fn main_header(ts: Seq<Token>, p: int) -> Parsed<()> {
    match expect_kw(ts, p, "public"@) {
        Parsed::Done(_, q1) => match expect_kw(ts, q1, "static"@) {
            Parsed::Done(_, q2) => match expect_kw(ts, q2, "void"@) {
                Parsed::Done(_, q3) => match expect_kw(ts, q3, "main"@) {
                    Parsed::Done(_, q4) => match expect_dl(ts, q4, "("@) {
                        Parsed::Done(_, q5) => match expect_kw(ts, q5, "String"@) {
                            Parsed::Done(_, q6) => match expect_dl(ts, q6, "["@) {
                                Parsed::Done(_, q7) => match expect_dl(ts, q7, "]"@) {
                                    Parsed::Done(_, q8) => Parsed::Done((), q8),
                                    Parsed::Fail(e) => Parsed::Fail(e),
                                },
                                Parsed::Fail(e) => Parsed::Fail(e),
                            },
                            Parsed::Fail(e) => Parsed::Fail(e),
                        },
                        Parsed::Fail(e) => Parsed::Fail(e),
                    },
                    Parsed::Fail(e) => Parsed::Fail(e),
                },
                Parsed::Fail(e) => Parsed::Fail(e),
            },
            Parsed::Fail(e) => Parsed::Fail(e),
        },
        Parsed::Fail(e) => Parsed::Fail(e),
    }
}

/// `L_com '}' '}'`: the end of the main class.
pub open spec fn main_tail_spec(ts: Seq<Token>, p: int, a: bool) -> Parsed<Seq<StmtV>> {
    match l_com_spec(ts, p, a) {
        Parsed::Done(body, q1) => match expect_dl(ts, q1, "}"@) {
            Parsed::Done(_, q2) => match expect_dl(ts, q2, "}"@) {
                Parsed::Done(_, q3) => Parsed::Done(body, q3),
                Parsed::Fail(e) => Parsed::Fail(e),
            },
            Parsed::Fail(e) => Parsed::Fail(e),
        },
        Parsed::Fail(e) => Parsed::Fail(e),
    }
}

/// `Main_C -> 'class' Id '{' 'public' 'static' 'void' 'main' '(' 'String'
/// '[' ']' Id ')' '{' L_com '}' '}'`: the class is entered in `global`, the
/// argument in `global::name::main`.
pub open spec fn main_spec(ts: Seq<Token>, p: int, a: bool, t: SymbolTableV) -> Parsed<(MainClassV, SymbolTableV)> {
    match expect_kw(ts, p, "class"@) {
        Parsed::Done(ct, q1) => match expect_ident(ts, q1) {
            Parsed::Done(nt, q2) => match expect_dl(ts, q2, "{"@) {
                Parsed::Done(_, q3) => match main_header(ts, q3) {
                    Parsed::Done(_, q4) => match expect_ident(ts, q4) {
                        Parsed::Done(at, q5) => match expect_dl(ts, q5, ")"@) {
                            Parsed::Done(_, q6) => match expect_dl(ts, q6, "{"@) {
                                Parsed::Done(_, q7) => match main_tail_spec(ts, q7, a) {
                                    Parsed::Done(body, q8) => Parsed::Done(
                                        (
                                            MainClassV {
                                                name: nt.lexeme,
                                                arg_name: at.lexeme,
                                                body,
                                                line: ct.line as usize,
                                                column: ct.column as usize,
                                            },
                                            declare(
                                                declare(t, "global"@, nt, Category::Class, "-"@),
                                                "global"@ + "::"@ + nt.lexeme + "::"@ + "main"@,
                                                at,
                                                Category::MainArg,
                                                "String[]"@,
                                            ),
                                        ),
                                        q8,
                                    ),
                                    Parsed::Fail(e) => Parsed::Fail(e),
                                },
                                Parsed::Fail(e) => Parsed::Fail(e),
                            },
                            Parsed::Fail(e) => Parsed::Fail(e),
                        },
                        Parsed::Fail(e) => Parsed::Fail(e),
                    },
                    Parsed::Fail(e) => Parsed::Fail(e),
                },
                Parsed::Fail(e) => Parsed::Fail(e),
            },
            Parsed::Fail(e) => Parsed::Fail(e),
        },
        Parsed::Fail(e) => Parsed::Fail(e),
    }
}

/// `Prog -> Main_C Def_C` followed by the end of input, starting from an
/// empty table.
pub open spec fn program_spec(ts: Seq<Token>, a: bool) -> Parsed<(ProgramV, SymbolTableV)> {
    let t0 = SymbolTableV { entries: Seq::empty(), temps: 0, labels: 0 };
    match main_spec(ts, 0, a, t0) {
        Parsed::Done((main, t1), q1) => match def_c_spec(ts, q1, a, t1, Seq::empty()) {
            Parsed::Done((classes, t2), q2) => if ts[q2].class != TokenClass::Eof {
                Parsed::Fail(error_at(ts[q2], "expected end of input"@))
            } else {
                Parsed::Done((ProgramV { main, classes }, t2), q2)
            },
            Parsed::Fail(e) => Parsed::Fail(e),
        },
        Parsed::Fail(e) => Parsed::Fail(e),
    }
}

} // verus!
