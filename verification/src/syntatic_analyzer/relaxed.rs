//! How the lax mode (empty command lists allowed) relates to the strict
//! grammar: it accepts every input that the strict grammar accepts, with the
//! same result.
//!
//! The first half shows that every production that starts inside the token
//! sequence and succeeds stops inside it; the second half compares the two
//! modes production by production.

use vstd::prelude::*;
use crate::lexical_analyzer::{Token, TokenClass};
use crate::ast::{type_display, ClassDeclV, ExpKindV, ExpV, MethodDeclV, StmtV, TypeV, VarDeclV};
use crate::symbol_table::{Category, SymbolTableV};
use crate::syntatic_analyzer::tokens_ok;
use crate::syntatic_analyzer::grammar::{
    args_spec, at_cmd, at_def_var, class_body_spec, class_spec, declare, def_c_spec, def_m_spec,
    method_body_spec, method_rest_spec, method_spec, program_spec, block_spec, cmd_spec, com_ass_spec, def_v_spec, extends_spec,
    l_com_loop, l_com_spec, main_header, main_spec, main_tail_spec, param_spec, params_spec,
    paren_spec, var_decl_spec,
    add_loop, add_spec, and_loop, and_spec, exp_spec, expect_dl, expect_ident, expect_kw, is_dl,
    is_ident, is_kw, is_opr, later, list_spec, mul_loop, mul_spec, new_spec, node, postfix_loop,
    postfix_spec, primary_spec, rel_loop, rel_spec, suffix_spec, type_spec, unary_spec, Parsed,
};

verus! {

/// A success from `p` stops at a position from `p` on, still inside the
/// tokens.
pub open spec fn stops_inside<T>(r: Parsed<T>, p: int, n: int) -> bool {
    match r {
        Parsed::Done(_, q) => p <= q < n,
        Parsed::Fail(_) => true,
    }
}

/// A token other than the final `Eof` has a successor.
proof fn lemma_not_last(ts: Seq<Token>, p: int)
    requires
        tokens_ok(ts),
        0 <= p < ts.len(),
        ts[p].class != TokenClass::Eof,
    ensures
        p + 1 < ts.len(),
{
}

proof fn lemma_expect_kw_pos(ts: Seq<Token>, p: int, k: Seq<char>)
    requires
        tokens_ok(ts),
        0 <= p < ts.len(),
    ensures
        stops_inside(expect_kw(ts, p, k), p, ts.len() as int),
{
}

proof fn lemma_expect_dl_pos(ts: Seq<Token>, p: int, d: Seq<char>)
    requires
        tokens_ok(ts),
        0 <= p < ts.len(),
    ensures
        stops_inside(expect_dl(ts, p, d), p, ts.len() as int),
{
}

proof fn lemma_expect_ident_pos(ts: Seq<Token>, p: int)
    requires
        tokens_ok(ts),
        0 <= p < ts.len(),
    ensures
        stops_inside(expect_ident(ts, p), p, ts.len() as int),
{
}

proof fn lemma_type_pos(ts: Seq<Token>, p: int)
    requires
        tokens_ok(ts),
        0 <= p < ts.len(),
    ensures
        stops_inside(type_spec(ts, p), p, ts.len() as int),
{
    if is_kw(ts[p], "int"@) {
        lemma_not_last(ts, p);
        if is_dl(ts[p + 1], "["@) {
            lemma_not_last(ts, p + 1);
            lemma_expect_dl_pos(ts, p + 2, "]"@);
        }
    } else if is_kw(ts[p], "boolean"@) || is_ident(ts[p]) {
        lemma_not_last(ts, p);
    }
}

// ---------- expressions ----------

proof fn lemma_exp_pos(ts: Seq<Token>, p: int)
    requires
        tokens_ok(ts),
        0 <= p < ts.len(),
    ensures
        stops_inside(exp_spec(ts, p), p, ts.len() as int),
    decreases ts.len() - p, 8nat,
{
    lemma_and_pos(ts, p);
}

proof fn lemma_and_pos(ts: Seq<Token>, p: int)
    requires
        tokens_ok(ts),
        0 <= p < ts.len(),
    ensures
        stops_inside(and_spec(ts, p), p, ts.len() as int),
    decreases ts.len() - p, 7nat,
{
    lemma_rel_pos(ts, p);
    if let Parsed::Done(l, q) = rel_spec(ts, p) {
        if later(ts, p, q) {
            lemma_and_loop_pos(ts, q, l);
        }
    }
}

proof fn lemma_and_loop_pos(ts: Seq<Token>, p: int, left: ExpV)
    requires
        tokens_ok(ts),
        0 <= p < ts.len(),
    ensures
        stops_inside(and_loop(ts, p, left), p, ts.len() as int),
    decreases ts.len() - p, 7nat,
{
    if is_opr(ts[p], "&&"@) {
        lemma_not_last(ts, p);
        lemma_rel_pos(ts, p + 1);
        if let Parsed::Done(r, q) = rel_spec(ts, p + 1) {
            let e = node(ExpKindV::And(Box::new(left), Box::new(r)), ts[p]);
            if later(ts, p, q) {
                lemma_and_loop_pos(ts, q, e);
            }
        }
    }
}

proof fn lemma_rel_pos(ts: Seq<Token>, p: int)
    requires
        tokens_ok(ts),
        0 <= p < ts.len(),
    ensures
        stops_inside(rel_spec(ts, p), p, ts.len() as int),
    decreases ts.len() - p, 6nat,
{
    lemma_add_pos(ts, p);
    if let Parsed::Done(l, q) = add_spec(ts, p) {
        if later(ts, p, q) {
            lemma_rel_loop_pos(ts, q, l);
        }
    }
}

proof fn lemma_rel_loop_pos(ts: Seq<Token>, p: int, left: ExpV)
    requires
        tokens_ok(ts),
        0 <= p < ts.len(),
    ensures
        stops_inside(rel_loop(ts, p, left), p, ts.len() as int),
    decreases ts.len() - p, 6nat,
{
    if is_opr(ts[p], "<"@) {
        lemma_not_last(ts, p);
        lemma_add_pos(ts, p + 1);
        if let Parsed::Done(r, q) = add_spec(ts, p + 1) {
            let e = node(ExpKindV::Less(Box::new(left), Box::new(r)), ts[p]);
            if later(ts, p, q) {
                lemma_rel_loop_pos(ts, q, e);
            }
        }
    }
}

proof fn lemma_add_pos(ts: Seq<Token>, p: int)
    requires
        tokens_ok(ts),
        0 <= p < ts.len(),
    ensures
        stops_inside(add_spec(ts, p), p, ts.len() as int),
    decreases ts.len() - p, 5nat,
{
    lemma_mul_pos(ts, p);
    if let Parsed::Done(l, q) = mul_spec(ts, p) {
        if later(ts, p, q) {
            lemma_add_loop_pos(ts, q, l);
        }
    }
}

proof fn lemma_add_loop_pos(ts: Seq<Token>, p: int, left: ExpV)
    requires
        tokens_ok(ts),
        0 <= p < ts.len(),
    ensures
        stops_inside(add_loop(ts, p, left), p, ts.len() as int),
    decreases ts.len() - p, 5nat,
{
    if is_opr(ts[p], "+"@) || is_opr(ts[p], "-"@) {
        lemma_not_last(ts, p);
        lemma_mul_pos(ts, p + 1);
        if let Parsed::Done(r, q) = mul_spec(ts, p + 1) {
            let kind = if is_opr(ts[p], "+"@) {
                ExpKindV::Add(Box::new(left), Box::new(r))
            } else {
                ExpKindV::Sub(Box::new(left), Box::new(r))
            };
            if later(ts, p, q) {
                lemma_add_loop_pos(ts, q, node(kind, ts[p]));
            }
        }
    }
}

proof fn lemma_mul_pos(ts: Seq<Token>, p: int)
    requires
        tokens_ok(ts),
        0 <= p < ts.len(),
    ensures
        stops_inside(mul_spec(ts, p), p, ts.len() as int),
    decreases ts.len() - p, 4nat,
{
    lemma_unary_pos(ts, p);
    if let Parsed::Done(l, q) = unary_spec(ts, p) {
        if later(ts, p, q) {
            lemma_mul_loop_pos(ts, q, l);
        }
    }
}

proof fn lemma_mul_loop_pos(ts: Seq<Token>, p: int, left: ExpV)
    requires
        tokens_ok(ts),
        0 <= p < ts.len(),
    ensures
        stops_inside(mul_loop(ts, p, left), p, ts.len() as int),
    decreases ts.len() - p, 4nat,
{
    if is_opr(ts[p], "*"@) {
        lemma_not_last(ts, p);
        lemma_unary_pos(ts, p + 1);
        if let Parsed::Done(r, q) = unary_spec(ts, p + 1) {
            let e = node(ExpKindV::Mul(Box::new(left), Box::new(r)), ts[p]);
            if later(ts, p, q) {
                lemma_mul_loop_pos(ts, q, e);
            }
        }
    }
}

proof fn lemma_unary_pos(ts: Seq<Token>, p: int)
    requires
        tokens_ok(ts),
        0 <= p < ts.len(),
    ensures
        stops_inside(unary_spec(ts, p), p, ts.len() as int),
    decreases ts.len() - p, 3nat,
{
    if is_opr(ts[p], "!"@) {
        lemma_not_last(ts, p);
        lemma_unary_pos(ts, p + 1);
    } else {
        lemma_postfix_pos(ts, p);
    }
}

proof fn lemma_postfix_pos(ts: Seq<Token>, p: int)
    requires
        tokens_ok(ts),
        0 <= p < ts.len(),
    ensures
        stops_inside(postfix_spec(ts, p), p, ts.len() as int),
    decreases ts.len() - p, 2nat, 2nat,
{
    lemma_primary_pos(ts, p);
    if let Parsed::Done(e, q) = primary_spec(ts, p) {
        if later(ts, p, q) {
            lemma_postfix_loop_pos(ts, q, e);
        }
    }
}

proof fn lemma_postfix_loop_pos(ts: Seq<Token>, p: int, e: ExpV)
    requires
        tokens_ok(ts),
        0 <= p < ts.len(),
    ensures
        stops_inside(postfix_loop(ts, p, e), p, ts.len() as int),
    decreases ts.len() - p, 2nat, 1nat,
{
    if is_dl(ts[p], "["@) || is_dl(ts[p], "."@) {
        lemma_suffix_pos(ts, p, e);
        if let Parsed::Done(e2, q) = suffix_spec(ts, p, e) {
            if later(ts, p, q) {
                lemma_postfix_loop_pos(ts, q, e2);
            }
        }
    }
}

proof fn lemma_suffix_pos(ts: Seq<Token>, p: int, e: ExpV)
    requires
        tokens_ok(ts),
        0 <= p < ts.len(),
        is_dl(ts[p], "["@) || is_dl(ts[p], "."@),
    ensures
        stops_inside(suffix_spec(ts, p, e), p, ts.len() as int),
    decreases ts.len() - p, 2nat, 0nat,
{
    lemma_not_last(ts, p);
    if is_dl(ts[p], "["@) {
        lemma_exp_pos(ts, p + 1);
        if let Parsed::Done(_, q) = exp_spec(ts, p + 1) {
            lemma_expect_dl_pos(ts, q, "]"@);
        }
    } else if is_kw(ts[p + 1], "length"@) {
        lemma_not_last(ts, p + 1);
    } else {
        lemma_expect_ident_pos(ts, p + 1);
        if let Parsed::Done(_, q) = expect_ident(ts, p + 1) {
            lemma_expect_dl_pos(ts, q, "("@);
            if let Parsed::Done(_, q2) = expect_dl(ts, q, "("@) {
                if !is_dl(ts[q2], ")"@) && later(ts, p, q2) {
                    lemma_list_pos(ts, q2, Seq::empty());
                    if let Parsed::Done(_, q3) = list_spec(ts, q2, Seq::empty()) {
                        lemma_expect_dl_pos(ts, q3, ")"@);
                    }
                } else {
                    lemma_expect_dl_pos(ts, q2, ")"@);
                }
            }
        }
    }
}

proof fn lemma_list_pos(ts: Seq<Token>, p: int, acc: Seq<ExpV>)
    requires
        tokens_ok(ts),
        0 <= p < ts.len(),
    ensures
        stops_inside(list_spec(ts, p, acc), p, ts.len() as int),
    decreases ts.len() - p, 9nat,
{
    lemma_exp_pos(ts, p);
    if let Parsed::Done(e, q) = exp_spec(ts, p) {
        if is_dl(ts[q], ","@) {
            lemma_not_last(ts, q);
            if later(ts, p, q + 1) {
                lemma_list_pos(ts, q + 1, acc.push(e));
            }
        }
    }
}

proof fn lemma_primary_pos(ts: Seq<Token>, p: int)
    requires
        tokens_ok(ts),
        0 <= p < ts.len(),
    ensures
        stops_inside(primary_spec(ts, p), p, ts.len() as int),
    decreases ts.len() - p, 1nat,
{
    let t = ts[p];
    if t.class != TokenClass::Eof {
        lemma_not_last(ts, p);
    }
    if is_dl(t, "("@) {
        lemma_exp_pos(ts, p + 1);
        if let Parsed::Done(_, q) = exp_spec(ts, p + 1) {
            lemma_expect_dl_pos(ts, q, ")"@);
        }
    } else if is_kw(t, "new"@) {
        lemma_new_pos(ts, p + 1, t.line, t.column);
    }
}

proof fn lemma_new_pos(ts: Seq<Token>, p: int, line: usize, column: usize)
    requires
        tokens_ok(ts),
        0 <= p < ts.len(),
    ensures
        stops_inside(new_spec(ts, p, line, column), p, ts.len() as int),
    decreases ts.len() - p, 0nat,
{
    if is_kw(ts[p], "int"@) || is_ident(ts[p]) {
        lemma_not_last(ts, p);
        lemma_expect_dl_pos(ts, p + 1, if is_kw(ts[p], "int"@) { "["@ } else { "("@ });
    }
    if is_kw(ts[p], "int"@) {
        if let Parsed::Done(_, q) = expect_dl(ts, p + 1, "["@) {
            if later(ts, p, q) {
                lemma_exp_pos(ts, q);
                if let Parsed::Done(_, q2) = exp_spec(ts, q) {
                    lemma_expect_dl_pos(ts, q2, "]"@);
                }
            }
        }
    } else if is_ident(ts[p]) {
        if let Parsed::Done(_, q) = expect_dl(ts, p + 1, "("@) {
            lemma_expect_dl_pos(ts, q, ")"@);
        }
    }
}

// ---------- statements ----------

proof fn lemma_paren_pos(ts: Seq<Token>, p: int, start: int)
    requires
        tokens_ok(ts),
        0 <= start <= p < ts.len(),
    ensures
        stops_inside(paren_spec(ts, p, start), p, ts.len() as int),
    decreases ts.len() - start, 11nat, 0nat,
{
    lemma_expect_dl_pos(ts, p, "("@);
    if let Parsed::Done(_, q) = expect_dl(ts, p, "("@) {
        if later(ts, start, q) {
            lemma_exp_pos(ts, q);
            if let Parsed::Done(_, q2) = exp_spec(ts, q) {
                lemma_expect_dl_pos(ts, q2, ")"@);
            }
        }
    }
}

proof fn lemma_com_ass_pos(ts: Seq<Token>, p: int, name: Seq<char>, line: usize, column: usize)
    requires
        tokens_ok(ts),
        0 <= p < ts.len(),
    ensures
        stops_inside(com_ass_spec(ts, p, name, line, column), p, ts.len() as int),
    decreases ts.len() - p, 10nat, 0nat,
{
    if is_dl(ts[p], "="@) || is_dl(ts[p], "["@) {
        lemma_not_last(ts, p);
        lemma_exp_pos(ts, p + 1);
    }
    if is_dl(ts[p], "="@) {
        if let Parsed::Done(_, q) = exp_spec(ts, p + 1) {
            lemma_expect_dl_pos(ts, q, ";"@);
        }
    } else if is_dl(ts[p], "["@) {
        if let Parsed::Done(_, q) = exp_spec(ts, p + 1) {
            lemma_expect_dl_pos(ts, q, "]"@);
            if let Parsed::Done(_, q2) = expect_dl(ts, q, "]"@) {
                lemma_expect_dl_pos(ts, q2, "="@);
                if let Parsed::Done(_, q3) = expect_dl(ts, q2, "="@) {
                    if later(ts, p, q3) {
                        lemma_exp_pos(ts, q3);
                        if let Parsed::Done(_, q4) = exp_spec(ts, q3) {
                            lemma_expect_dl_pos(ts, q4, ";"@);
                        }
                    }
                }
            }
        }
    }
}

proof fn lemma_cmd_pos(ts: Seq<Token>, p: int, a: bool)
    requires
        tokens_ok(ts),
        0 <= p < ts.len(),
    ensures
        stops_inside(cmd_spec(ts, p, a), p, ts.len() as int),
    decreases ts.len() - p, 11nat, 1nat,
{
    let t = ts[p];
    if t.class != TokenClass::Eof {
        lemma_not_last(ts, p);
    }
    if is_kw(t, "if"@) || is_kw(t, "while"@) {
        lemma_paren_pos(ts, p + 1, p);
        if let Parsed::Done(_, q) = paren_spec(ts, p + 1, p) {
            lemma_block_pos(ts, q, a, p);
            if is_kw(t, "if"@) {
                if let Parsed::Done(_, q2) = block_spec(ts, q, a, p) {
                    if is_kw(ts[q2], "else"@) {
                        lemma_not_last(ts, q2);
                        lemma_block_pos(ts, q2 + 1, a, p);
                    }
                }
            }
        }
    } else if is_kw(t, "System"@) {
        lemma_expect_dl_pos(ts, p + 1, "."@);
        if let Parsed::Done(_, q1) = expect_dl(ts, p + 1, "."@) {
            lemma_expect_kw_pos(ts, q1, "out"@);
            if let Parsed::Done(_, q2) = expect_kw(ts, q1, "out"@) {
                lemma_expect_dl_pos(ts, q2, "."@);
                if let Parsed::Done(_, q3) = expect_dl(ts, q2, "."@) {
                    lemma_expect_kw_pos(ts, q3, "println"@);
                    if let Parsed::Done(_, q4) = expect_kw(ts, q3, "println"@) {
                        lemma_paren_pos(ts, q4, p);
                        if let Parsed::Done(_, q5) = paren_spec(ts, q4, p) {
                            lemma_expect_dl_pos(ts, q5, ";"@);
                        }
                    }
                }
            }
        }
    } else if is_ident(t) {
        lemma_com_ass_pos(ts, p + 1, t.lexeme@, t.line, t.column);
    }
}

proof fn lemma_block_pos(ts: Seq<Token>, p: int, a: bool, start: int)
    requires
        tokens_ok(ts),
        0 <= start <= p < ts.len(),
    ensures
        stops_inside(block_spec(ts, p, a, start), p, ts.len() as int),
    decreases ts.len() - start, 11nat, 0nat,
{
    lemma_expect_dl_pos(ts, p, "{"@);
    if let Parsed::Done(_, q) = expect_dl(ts, p, "{"@) {
        if later(ts, start, q) {
            lemma_l_com_pos(ts, q, a);
            if let Parsed::Done(_, q2) = l_com_spec(ts, q, a) {
                lemma_expect_dl_pos(ts, q2, "}"@);
            }
        }
    }
}

proof fn lemma_l_com_pos(ts: Seq<Token>, p: int, a: bool)
    requires
        tokens_ok(ts),
        0 <= p < ts.len(),
    ensures
        stops_inside(l_com_spec(ts, p, a), p, ts.len() as int),
    decreases ts.len() - p, 13nat,
{
    if !a {
        lemma_cmd_pos(ts, p, a);
        if let Parsed::Done(s, q) = cmd_spec(ts, p, a) {
            if later(ts, p, q) {
                lemma_l_com_loop_pos(ts, q, a, seq![s]);
            }
        }
    } else {
        lemma_l_com_loop_pos(ts, p, a, Seq::empty());
    }
}

proof fn lemma_l_com_loop_pos(ts: Seq<Token>, p: int, a: bool, acc: Seq<StmtV>)
    requires
        tokens_ok(ts),
        0 <= p < ts.len(),
    ensures
        stops_inside(l_com_loop(ts, p, a, acc), p, ts.len() as int),
    decreases ts.len() - p, 12nat,
{
    if at_cmd(ts, p) {
        lemma_cmd_pos(ts, p, a);
        if let Parsed::Done(s, q) = cmd_spec(ts, p, a) {
            if later(ts, p, q) {
                lemma_l_com_loop_pos(ts, q, a, acc.push(s));
            }
        }
    }
}

// ---------- declarations ----------

proof fn lemma_var_decl_pos(ts: Seq<Token>, p: int, t: SymbolTableV, scope: Seq<char>, cat: Category)
    requires
        tokens_ok(ts),
        0 <= p < ts.len(),
    ensures
        stops_inside(var_decl_spec(ts, p, t, scope, cat), p, ts.len() as int),
{
    lemma_type_pos(ts, p);
    if let Parsed::Done(_, q1) = type_spec(ts, p) {
        lemma_expect_ident_pos(ts, q1);
        if let Parsed::Done(_, q2) = expect_ident(ts, q1) {
            lemma_expect_dl_pos(ts, q2, ";"@);
        }
    }
}

proof fn lemma_def_v_pos(
    ts: Seq<Token>,
    p: int,
    t: SymbolTableV,
    scope: Seq<char>,
    cat: Category,
    acc: Seq<VarDeclV>,
)
    requires
        tokens_ok(ts),
        0 <= p < ts.len(),
    ensures
        stops_inside(def_v_spec(ts, p, t, scope, cat, acc), p, ts.len() as int),
    decreases ts.len() - p,
{
    if at_def_var(ts, p) {
        lemma_var_decl_pos(ts, p, t, scope, cat);
        if let Parsed::Done((v, t2), q) = var_decl_spec(ts, p, t, scope, cat) {
            if later(ts, p, q) {
                lemma_def_v_pos(ts, q, t2, scope, cat, acc.push(v));
            }
        }
    }
}

proof fn lemma_param_pos(ts: Seq<Token>, p: int, t: SymbolTableV, scope: Seq<char>)
    requires
        tokens_ok(ts),
        0 <= p < ts.len(),
    ensures
        stops_inside(param_spec(ts, p, t, scope), p, ts.len() as int),
{
    lemma_type_pos(ts, p);
    if let Parsed::Done(_, q1) = type_spec(ts, p) {
        lemma_expect_ident_pos(ts, q1);
    }
}

proof fn lemma_args_pos(ts: Seq<Token>, p: int, t: SymbolTableV, scope: Seq<char>, acc: Seq<VarDeclV>)
    requires
        tokens_ok(ts),
        0 <= p < ts.len(),
    ensures
        stops_inside(args_spec(ts, p, t, scope, acc), p, ts.len() as int),
    decreases ts.len() - p,
{
    lemma_param_pos(ts, p, t, scope);
    if let Parsed::Done((v, t2), q) = param_spec(ts, p, t, scope) {
        if is_dl(ts[q], ","@) {
            lemma_not_last(ts, q);
            if later(ts, p, q + 1) {
                lemma_args_pos(ts, q + 1, t2, scope, acc.push(v));
            }
        }
    }
}

proof fn lemma_params_pos(ts: Seq<Token>, p: int, t: SymbolTableV, scope: Seq<char>)
    requires
        tokens_ok(ts),
        0 <= p < ts.len(),
    ensures
        stops_inside(params_spec(ts, p, t, scope), p, ts.len() as int),
{
    if !is_dl(ts[p], ")"@) {
        lemma_args_pos(ts, p, t, scope, Seq::empty());
    }
}

proof fn lemma_extends_pos(ts: Seq<Token>, p: int)
    requires
        tokens_ok(ts),
        0 <= p < ts.len(),
    ensures
        stops_inside(extends_spec(ts, p), p, ts.len() as int),
{
    if is_kw(ts[p], "extends"@) {
        lemma_not_last(ts, p);
        lemma_expect_ident_pos(ts, p + 1);
    }
}

proof fn lemma_main_header_pos(ts: Seq<Token>, p: int)
    requires
        tokens_ok(ts),
        0 <= p < ts.len(),
    ensures
        stops_inside(main_header(ts, p), p, ts.len() as int),
{
    lemma_expect_kw_pos(ts, p, "public"@);
    if let Parsed::Done(_, q1) = expect_kw(ts, p, "public"@) {
        lemma_expect_kw_pos(ts, q1, "static"@);
        if let Parsed::Done(_, q2) = expect_kw(ts, q1, "static"@) {
            lemma_expect_kw_pos(ts, q2, "void"@);
            if let Parsed::Done(_, q3) = expect_kw(ts, q2, "void"@) {
                lemma_expect_kw_pos(ts, q3, "main"@);
                if let Parsed::Done(_, q4) = expect_kw(ts, q3, "main"@) {
                    lemma_expect_dl_pos(ts, q4, "("@);
                    if let Parsed::Done(_, q5) = expect_dl(ts, q4, "("@) {
                        lemma_expect_kw_pos(ts, q5, "String"@);
                        if let Parsed::Done(_, q6) = expect_kw(ts, q5, "String"@) {
                            lemma_expect_dl_pos(ts, q6, "["@);
                            if let Parsed::Done(_, q7) = expect_dl(ts, q6, "["@) {
                                lemma_expect_dl_pos(ts, q7, "]"@);
                            }
                        }
                    }
                }
            }
        }
    }
}

proof fn lemma_main_tail_pos(ts: Seq<Token>, p: int, a: bool)
    requires
        tokens_ok(ts),
        0 <= p < ts.len(),
    ensures
        stops_inside(main_tail_spec(ts, p, a), p, ts.len() as int),
{
    lemma_l_com_pos(ts, p, a);
    if let Parsed::Done(_, q1) = l_com_spec(ts, p, a) {
        lemma_expect_dl_pos(ts, q1, "}"@);
        if let Parsed::Done(_, q2) = expect_dl(ts, q1, "}"@) {
            lemma_expect_dl_pos(ts, q2, "}"@);
        }
    }
}

/// The positions that the main class's productions stop at, one after
/// the other.
proof fn lemma_main_prefix_pos(ts: Seq<Token>, p: int)
    requires
        tokens_ok(ts),
        0 <= p < ts.len(),
    ensures
        expect_kw(ts, p, "class"@) matches Parsed::Done(_, q1) ==> p <= q1 < ts.len()
            && (expect_ident(ts, q1) matches Parsed::Done(_, q2) ==> q1 <= q2 < ts.len()
            && (expect_dl(ts, q2, "{"@) matches Parsed::Done(_, q3) ==> q2 <= q3 < ts.len()
            && (main_header(ts, q3) matches Parsed::Done(_, q4) ==> q3 <= q4 < ts.len()
            && (expect_ident(ts, q4) matches Parsed::Done(_, q5) ==> q4 <= q5 < ts.len()
            && (expect_dl(ts, q5, ")"@) matches Parsed::Done(_, q6) ==> q5 <= q6 < ts.len()
            && (expect_dl(ts, q6, "{"@) matches Parsed::Done(_, q7) ==> q6 <= q7 < ts.len())))))),
{
    lemma_expect_kw_pos(ts, p, "class"@);
    if let Parsed::Done(_, q1) = expect_kw(ts, p, "class"@) {
        lemma_expect_ident_pos(ts, q1);
        if let Parsed::Done(_, q2) = expect_ident(ts, q1) {
            lemma_expect_dl_pos(ts, q2, "{"@);
            if let Parsed::Done(_, q3) = expect_dl(ts, q2, "{"@) {
                lemma_main_header_pos(ts, q3);
                if let Parsed::Done(_, q4) = main_header(ts, q3) {
                    lemma_expect_ident_pos(ts, q4);
                    if let Parsed::Done(_, q5) = expect_ident(ts, q4) {
                        lemma_expect_dl_pos(ts, q5, ")"@);
                        if let Parsed::Done(_, q6) = expect_dl(ts, q5, ")"@) {
                            lemma_expect_dl_pos(ts, q6, "{"@);
                        }
                    }
                }
            }
        }
    }
}

proof fn lemma_main_pos(ts: Seq<Token>, p: int, a: bool, t: SymbolTableV)
    requires
        tokens_ok(ts),
        0 <= p < ts.len(),
    ensures
        stops_inside(main_spec(ts, p, a, t), p, ts.len() as int),
{
    lemma_main_prefix_pos(ts, p);
    if let Parsed::Done(_, q1) = expect_kw(ts, p, "class"@) {
        if let Parsed::Done(_, q2) = expect_ident(ts, q1) {
            if let Parsed::Done(_, q3) = expect_dl(ts, q2, "{"@) {
                if let Parsed::Done(_, q4) = main_header(ts, q3) {
                    if let Parsed::Done(_, q5) = expect_ident(ts, q4) {
                        if let Parsed::Done(_, q6) = expect_dl(ts, q5, ")"@) {
                            if let Parsed::Done(_, q7) = expect_dl(ts, q6, "{"@) {
                                lemma_main_tail_pos(ts, q7, a);
                            }
                        }
                    }
                }
            }
        }
    }
}

// ---------- the two modes ----------

/// What the lax mode gives where the strict mode succeeds: the same.
pub open spec fn relaxes<T>(strict: Parsed<T>, lax: Parsed<T>) -> bool {
    strict is Done ==> lax == strict
}

/// A command that parses starts where `at_cmd` says a command starts.
proof fn lemma_cmd_starts(ts: Seq<Token>, p: int, a: bool)
    requires
        tokens_ok(ts),
        0 <= p < ts.len(),
        cmd_spec(ts, p, a) is Done,
    ensures
        at_cmd(ts, p),
{
    if is_ident(ts[p]) {
        lemma_not_last(ts, p);
    }
}

proof fn lemma_cmd_lax(ts: Seq<Token>, p: int)
    requires
        tokens_ok(ts),
        0 <= p < ts.len(),
    ensures
        relaxes(cmd_spec(ts, p, false), cmd_spec(ts, p, true)),
    decreases ts.len() - p, 11nat, 1nat,
{
    let t = ts[p];
    if is_kw(t, "if"@) || is_kw(t, "while"@) {
        if let Parsed::Done(_, q) = paren_spec(ts, p + 1, p) {
            lemma_block_lax(ts, q, p);
            if is_kw(t, "if"@) {
                if let Parsed::Done(_, q2) = block_spec(ts, q, false, p) {
                    if is_kw(ts[q2], "else"@) {
                        lemma_block_lax(ts, q2 + 1, p);
                    }
                }
            }
        }
    }
}

proof fn lemma_block_lax(ts: Seq<Token>, p: int, start: int)
    requires
        tokens_ok(ts),
        0 <= start < ts.len(),
    ensures
        relaxes(block_spec(ts, p, false, start), block_spec(ts, p, true, start)),
    decreases ts.len() - start, 11nat, 0nat,
{
    if let Parsed::Done(_, q) = expect_dl(ts, p, "{"@) {
        if later(ts, start, q) {
            lemma_l_com_lax(ts, q);
        }
    }
}

proof fn lemma_l_com_lax(ts: Seq<Token>, p: int)
    requires
        tokens_ok(ts),
        0 <= p < ts.len(),
    ensures
        relaxes(l_com_spec(ts, p, false), l_com_spec(ts, p, true)),
    decreases ts.len() - p, 13nat,
{
    lemma_cmd_lax(ts, p);
    if let Parsed::Done(s, q) = cmd_spec(ts, p, false) {
        lemma_cmd_starts(ts, p, false);
        assert(Seq::<StmtV>::empty().push(s) =~= seq![s]);
        if later(ts, p, q) {
            lemma_l_com_loop_lax(ts, q, seq![s]);
        }
    }
}

proof fn lemma_l_com_loop_lax(ts: Seq<Token>, p: int, acc: Seq<StmtV>)
    requires
        tokens_ok(ts),
        0 <= p < ts.len(),
    ensures
        relaxes(l_com_loop(ts, p, false, acc), l_com_loop(ts, p, true, acc)),
    decreases ts.len() - p, 12nat,
{
    if at_cmd(ts, p) {
        lemma_cmd_lax(ts, p);
        if let Parsed::Done(s, q) = cmd_spec(ts, p, false) {
            if later(ts, p, q) {
                lemma_l_com_loop_lax(ts, q, acc.push(s));
            }
        }
    }
}

proof fn lemma_method_body_lax(ts: Seq<Token>, p: int)
    requires
        tokens_ok(ts),
        0 <= p < ts.len(),
    ensures
        relaxes(method_body_spec(ts, p, false), method_body_spec(ts, p, true)),
{
    lemma_l_com_lax(ts, p);
}

proof fn lemma_method_rest_lax(
    ts: Seq<Token>,
    p: int,
    t: SymbolTableV,
    scope: Seq<char>,
    name: Seq<char>,
    ret_type: TypeV,
    line: usize,
    column: usize,
)
    requires
        tokens_ok(ts),
        0 <= p < ts.len(),
    ensures
        relaxes(
            method_rest_spec(ts, p, false, t, scope, name, ret_type, line, column),
            method_rest_spec(ts, p, true, t, scope, name, ret_type, line, column),
        ),
{
    lemma_params_pos(ts, p, t, scope);
    if let Parsed::Done((_, t1), q1) = params_spec(ts, p, t, scope) {
        lemma_expect_dl_pos(ts, q1, ")"@);
        if let Parsed::Done(_, q2) = expect_dl(ts, q1, ")"@) {
            lemma_expect_dl_pos(ts, q2, "{"@);
            if let Parsed::Done(_, q3) = expect_dl(ts, q2, "{"@) {
                lemma_def_v_pos(ts, q3, t1, scope, Category::Local, Seq::empty());
                if let Parsed::Done(_, q4) = def_v_spec(ts, q3, t1, scope, Category::Local, Seq::empty()) {
                    lemma_method_body_lax(ts, q4);
                }
            }
        }
    }
}

proof fn lemma_method_lax(ts: Seq<Token>, p: int, t: SymbolTableV, scope: Seq<char>)
    requires
        tokens_ok(ts),
        0 <= p < ts.len(),
        is_kw(ts[p], "public"@),
    ensures
        relaxes(method_spec(ts, p, false, t, scope), method_spec(ts, p, true, t, scope)),
{
    lemma_not_last(ts, p);
    lemma_type_pos(ts, p + 1);
    if let Parsed::Done(ret_type, q1) = type_spec(ts, p + 1) {
        lemma_expect_ident_pos(ts, q1);
        if let Parsed::Done(nt, q2) = expect_ident(ts, q1) {
            lemma_expect_dl_pos(ts, q2, "("@);
            if let Parsed::Done(_, q3) = expect_dl(ts, q2, "("@) {
                lemma_method_rest_lax(
                    ts,
                    q3,
                    declare(t, scope, nt, Category::Method, type_display(ret_type)),
                    scope + "::"@ + nt.lexeme,
                    nt.lexeme,
                    ret_type,
                    ts[p].line,
                    ts[p].column,
                );
            }
        }
    }
}

proof fn lemma_def_m_lax(ts: Seq<Token>, p: int, t: SymbolTableV, scope: Seq<char>, acc: Seq<MethodDeclV>)
    requires
        tokens_ok(ts),
        0 <= p < ts.len(),
    ensures
        relaxes(def_m_spec(ts, p, false, t, scope, acc), def_m_spec(ts, p, true, t, scope, acc)),
    decreases ts.len() - p,
{
    if is_kw(ts[p], "public"@) {
        lemma_method_lax(ts, p, t, scope);
        if let Parsed::Done((m, t2), q) = method_spec(ts, p, false, t, scope) {
            if later(ts, p, q) {
                lemma_def_m_lax(ts, q, t2, scope, acc.push(m));
            }
        }
    }
}

proof fn lemma_class_body_lax(ts: Seq<Token>, p: int, t: SymbolTableV, scope: Seq<char>)
    requires
        tokens_ok(ts),
        0 <= p < ts.len(),
    ensures
        relaxes(class_body_spec(ts, p, false, t, scope), class_body_spec(ts, p, true, t, scope)),
{
    lemma_expect_dl_pos(ts, p, "{"@);
    if let Parsed::Done(_, q1) = expect_dl(ts, p, "{"@) {
        lemma_def_v_pos(ts, q1, t, scope, Category::Field, Seq::empty());
        if let Parsed::Done((_, t1), q2) = def_v_spec(ts, q1, t, scope, Category::Field, Seq::empty()) {
            lemma_def_m_lax(ts, q2, t1, scope, Seq::empty());
        }
    }
}

proof fn lemma_class_lax(ts: Seq<Token>, p: int, t: SymbolTableV)
    requires
        tokens_ok(ts),
        0 <= p < ts.len(),
        is_kw(ts[p], "class"@),
    ensures
        relaxes(class_spec(ts, p, false, t), class_spec(ts, p, true, t)),
{
    lemma_not_last(ts, p);
    lemma_expect_ident_pos(ts, p + 1);
    if let Parsed::Done(nt, q1) = expect_ident(ts, p + 1) {
        lemma_extends_pos(ts, q1);
        if let Parsed::Done(parent, q2) = extends_spec(ts, q1) {
            let t1 = declare(
                t,
                "global"@,
                nt,
                Category::Class,
                match parent {
                    Some(pn) => pn,
                    None => "-"@,
                },
            );
            lemma_class_body_lax(ts, q2, t1, "global"@ + "::"@ + nt.lexeme);
        }
    }
}

proof fn lemma_def_c_lax(ts: Seq<Token>, p: int, t: SymbolTableV, acc: Seq<ClassDeclV>)
    requires
        tokens_ok(ts),
        0 <= p < ts.len(),
    ensures
        relaxes(def_c_spec(ts, p, false, t, acc), def_c_spec(ts, p, true, t, acc)),
    decreases ts.len() - p,
{
    if is_kw(ts[p], "class"@) {
        lemma_class_lax(ts, p, t);
        if let Parsed::Done((c, t2), q) = class_spec(ts, p, false, t) {
            if later(ts, p, q) {
                lemma_def_c_lax(ts, q, t2, acc.push(c));
            }
        }
    }
}

proof fn lemma_main_lax(ts: Seq<Token>, p: int, t: SymbolTableV)
    requires
        tokens_ok(ts),
        0 <= p < ts.len(),
    ensures
        relaxes(main_spec(ts, p, false, t), main_spec(ts, p, true, t)),
{
    lemma_main_prefix_pos(ts, p);
    if let Parsed::Done(_, q1) = expect_kw(ts, p, "class"@) {
        if let Parsed::Done(_, q2) = expect_ident(ts, q1) {
            if let Parsed::Done(_, q3) = expect_dl(ts, q2, "{"@) {
                if let Parsed::Done(_, q4) = main_header(ts, q3) {
                    if let Parsed::Done(_, q5) = expect_ident(ts, q4) {
                        if let Parsed::Done(_, q6) = expect_dl(ts, q5, ")"@) {
                            if let Parsed::Done(_, q7) = expect_dl(ts, q6, "{"@) {
                                lemma_l_com_lax(ts, q7);
                            }
                        }
                    }
                }
            }
        }
    }
}

/// The lax mode accepts every token sequence that the strict grammar
/// accepts, and builds the same AST and symbol table from it.
pub(crate) proof fn lemma_program_lax(ts: Seq<Token>)
    requires
        tokens_ok(ts),
    ensures
        relaxes(program_spec(ts, false), program_spec(ts, true)),
{
    let t0 = SymbolTableV { entries: Seq::empty(), temps: 0, labels: 0 };
    lemma_main_lax(ts, 0, t0);
    lemma_main_pos(ts, 0, false, t0);
    if let Parsed::Done((_, t1), q1) = main_spec(ts, 0, false, t0) {
        lemma_def_c_lax(ts, q1, t1, Seq::empty());
    }
}

} // verus!
