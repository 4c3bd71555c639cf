//! The text that the command-line driver shows: the token listing and the
//! reports of lexical, syntactic and semantic errors. Each report is built as
//! a `String` here and only written out by the driver.

use vstd::prelude::*;
use crate::lexical_analyzer::{LexError, LexErrorV, Token, TokenClass, TokenV};
use crate::semantic_analyzer::SemanticError;
use crate::syntatic_analyzer::ParseError;
use crate::text::{
    chars_of, decimal, decimal_string, pad_left, pad_right, push_padded_left, push_padded_right,
    string_of,
};

verus! {

broadcast use vstd::string::group_string_axioms;

/// `pat` occurs in `s` starting at position `i`.
pub open spec fn occurs_at(s: Seq<char>, pat: Seq<char>, i: int) -> bool {
    &&& 0 <= i
    &&& i + pat.len() <= s.len()
    &&& s.subrange(i, i + pat.len()) == pat
}

/// `pat` occurs somewhere in `s`.
pub open spec fn contains_seq(s: Seq<char>, pat: Seq<char>) -> bool {
    exists|i: int| occurs_at(s, pat, i)
}

/// Whether `pat` occurs in `s`.
pub fn str_contains(s: &str, pat: &str) -> (r: bool)
    ensures
        r == contains_seq(s@, pat@),
{
    let sv = chars_of(s);
    let pv = chars_of(pat);
    let n = sv.len();
    let m = pv.len();
    if m > n {
        assert forall|i: int| !occurs_at(s@, pat@, i) by {}
        return false;
    }
    let mut i: usize = 0;
    while i <= n - m
        invariant
            sv@ == s@,
            pv@ == pat@,
            n == sv@.len(),
            m == pv@.len(),
            m <= n,
            i <= n - m + 1,
            forall|k: int| 0 <= k < i ==> !occurs_at(s@, pat@, k),
        decreases n - m + 1 - i,
    {
        let mut j: usize = 0;
        let mut same = true;
        while j < m
            invariant
                sv@ == s@,
                pv@ == pat@,
                n == sv@.len(),
                m == pv@.len(),
                i + m <= n,
                j <= m,
                same == (forall|k: int| 0 <= k < j ==> sv@[i + k] == pv@[k]),
            decreases m - j,
        {
            if sv[i + j] != pv[j] {
                same = false;
            }
            j = j + 1;
        }
        if same {
            assert(s@.subrange(i as int, i + m) =~= pat@);
            assert(occurs_at(s@, pat@, i as int));
            return true;
        }
        assert(!occurs_at(s@, pat@, i as int)) by {
            let k = choose|k: int| 0 <= k < m && sv@[i + k] != pv@[k];
            if s@.subrange(i as int, i + m) == pat@ {
                assert(s@.subrange(i as int, i + m)[k] == sv@[i + k]);
            }
        }
        i = i + 1;
    }
    assert forall|k: int| !occurs_at(s@, pat@, k) by {
        if occurs_at(s@, pat@, k) {
            assert(k < i);
        }
    }
    false
}

/// The hint shown under a lexical error when hints are asked for. Messages
/// that already carry a "Did you mean" hint get none.
pub open spec fn lexeme_hint_spec(msg: Seq<char>) -> Option<Seq<char>> {
    if contains_seq(msg, "Did you mean"@) {
        None
    } else if contains_seq(msg, "unclosed block comment"@) {
        Some("close the comment with '*/'"@)
    } else {
        None
    }
}

pub fn lexeme_hint(msg: &str) -> (r: Option<String>)
    ensures
        match r {
            Some(h) => lexeme_hint_spec(msg@) == Some(h@),
            None => lexeme_hint_spec(msg@) is None,
        },
{
    if str_contains(msg, "Did you mean") {
        None
    } else if str_contains(msg, "unclosed block comment") {
        Some(string_of("close the comment with '*/'"))
    } else {
        None
    }
}

/// Upper-case name of a token class in the listing.
pub open spec fn class_name(c: TokenClass) -> Seq<char> {
    match c {
        TokenClass::Id => "ID"@,
        TokenClass::Number => "NUMBER"@,
        TokenClass::Keyword => "KEYWORD"@,
        TokenClass::Operation => "OPERATION"@,
        TokenClass::Delimiter => "DELIMITER"@,
        TokenClass::Eof => "EOF"@,
    }
}

fn class_name_str(c: TokenClass) -> (r: &'static str)
    ensures
        r@ == class_name(c),
{
    match c {
        TokenClass::Id => "ID",
        TokenClass::Number => "NUMBER",
        TokenClass::Keyword => "KEYWORD",
        TokenClass::Operation => "OPERATION",
        TokenClass::Delimiter => "DELIMITER",
        TokenClass::Eof => "EOF",
    }
}

/// One line of the listing: line right-aligned in 5, column, class and
/// lexeme left-aligned in 5, 12 and 16, fields two spaces apart.
pub open spec fn listing_row(line: Seq<char>, col: Seq<char>, class: Seq<char>, lexeme: Seq<char>) -> Seq<char> {
    "  "@ + pad_left(line, 5) + "  "@ + pad_right(col, 5) + "  "@ + pad_right(class, 12) + "  "@
        + pad_right(lexeme, 16) + "\n"@
}

pub open spec fn token_row(t: TokenV) -> Seq<char> {
    listing_row(
        decimal(t.line as nat),
        decimal(t.column as nat),
        class_name(t.class),
        if t.class == TokenClass::Eof { "<eof>"@ } else { t.lexeme },
    )
}

pub open spec fn token_rows(ts: Seq<Token>) -> Seq<char>
    decreases ts.len(),
{
    if ts.len() == 0 {
        Seq::empty()
    } else {
        token_rows(ts.drop_last()) + token_row(ts.last()@)
    }
}

/// The token listing printed by `--tokens`.
pub open spec fn tokens_text(ts: Seq<Token>) -> Seq<char> {
    "tokens:\n"@ + listing_row("line"@, "col"@, "class"@, "lexeme"@) + token_rows(ts)
}

fn push_row(out: &mut String, line: &str, col: &str, class: &str, lexeme: &str)
    ensures
        final(out)@ == old(out)@ + listing_row(line@, col@, class@, lexeme@),
{
    out.append("  ");
    push_padded_left(out, line, 5);
    out.append("  ");
    push_padded_right(out, col, 5);
    out.append("  ");
    push_padded_right(out, class, 12);
    out.append("  ");
    push_padded_right(out, lexeme, 16);
    out.append("\n");
    assert(final(out)@ =~= old(out)@ + listing_row(line@, col@, class@, lexeme@));
}

/// The token listing, one row per token.
pub fn render_tokens(tokens: &[Token]) -> (r: String)
    ensures
        r@ == tokens_text(tokens@),
{
    let mut out = string_of("tokens:\n");
    push_row(&mut out, "line", "col", "class", "lexeme");
    let ghost head = out@;
    let mut i: usize = 0;
    assert(tokens@.take(0) =~= Seq::<Token>::empty());
    while i < tokens.len()
        invariant
            i <= tokens@.len(),
            out@ == head + token_rows(tokens@.take(i as int)),
            head == "tokens:\n"@ + listing_row("line"@, "col"@, "class"@, "lexeme"@),
        decreases tokens@.len() - i,
    {
        let t = &tokens[i];
        let line = decimal_string(t.line);
        let col = decimal_string(t.column);
        let lexeme = if t.class == TokenClass::Eof {
            "<eof>"
        } else {
            t.lexeme.as_str()
        };
        push_row(&mut out, line.as_str(), col.as_str(), class_name_str(t.class), lexeme);
        proof {
            assert(tokens@.take(i + 1).drop_last() =~= tokens@.take(i as int));
        }
        i = i + 1;
    }
    assert(tokens@.take(i as int) =~= tokens@);
    out
}

/// `"(line L, column C): "`, shared by the three kinds of report.
pub open spec fn position_text(line: int, column: int) -> Seq<char> {
    "(line "@ + decimal(line as nat) + ", column "@ + decimal(column as nat) + "): "@
}

fn push_position(out: &mut String, line: usize, column: usize)
    ensures
        final(out)@ == old(out)@ + position_text(line as int, column as int),
{
    out.append("(line ");
    let l = decimal_string(line);
    out.append(l.as_str());
    out.append(", column ");
    let c = decimal_string(column);
    out.append(c.as_str());
    out.append("): ");
    assert(final(out)@ =~= old(out)@ + position_text(line as int, column as int));
}

pub open spec fn lex_error_lines(e: LexErrorV, suggest: bool) -> Seq<char> {
    "  lexical error "@ + position_text(e.line, e.column) + e.msg + "\n"@ + if suggest {
        match lexeme_hint_spec(e.msg) {
            Some(h) => "    suggestion: "@ + h + "\n"@,
            None => Seq::empty(),
        }
    } else {
        Seq::empty()
    }
}

pub open spec fn lex_errors_lines(es: Seq<LexError>, suggest: bool) -> Seq<char>
    decreases es.len(),
{
    if es.len() == 0 {
        Seq::empty()
    } else {
        lex_errors_lines(es.drop_last(), suggest) + lex_error_lines(es.last()@, suggest)
    }
}

/// The report of the lexical errors, with a hint under each error that has
/// one when `suggest` is set.
pub open spec fn lex_report_text(es: Seq<LexError>, suggest: bool) -> Seq<char> {
    decimal(es.len()) + " lexical error(s) found:\n"@ + lex_errors_lines(es, suggest)
}

pub fn lex_report(errors: &[LexError], suggest: bool) -> (r: String)
    ensures
        r@ == lex_report_text(errors@, suggest),
{
    let mut out = decimal_string(errors.len());
    out.append(" lexical error(s) found:\n");
    let ghost head = out@;
    let mut i: usize = 0;
    assert(errors@.take(0) =~= Seq::<LexError>::empty());
    while i < errors.len()
        invariant
            i <= errors@.len(),
            head == decimal(errors@.len()) + " lexical error(s) found:\n"@,
            out@ == head + lex_errors_lines(errors@.take(i as int), suggest),
        decreases errors@.len() - i,
    {
        let e = &errors[i];
        let ghost before = out@;
        out.append("  lexical error ");
        push_position(&mut out, e.line, e.column);
        out.append(e.msg.as_str());
        out.append("\n");
        if suggest {
            match lexeme_hint(e.msg.as_str()) {
                Some(h) => {
                    out.append("    suggestion: ");
                    out.append(h.as_str());
                    out.append("\n");
                },
                None => {},
            }
        }
        proof {
            assert(out@ =~= before + lex_error_lines(e@, suggest));
            assert(errors@.take(i + 1).drop_last() =~= errors@.take(i as int));
        }
        i = i + 1;
    }
    assert(errors@.take(i as int) =~= errors@);
    out
}

pub open spec fn hint_view(h: Option<String>) -> Option<Seq<char>> {
    match h {
        Some(s) => Some(s@),
        None => None,
    }
}

/// The report of a syntax error, with its hint when `suggest` is set.
pub open spec fn parse_report_text(line: int, column: int, msg: Seq<char>, hint: Option<Seq<char>>, suggest: bool) -> Seq<char> {
    "syntactic error "@ + position_text(line, column) + msg + "\n"@ + match hint {
        Some(h) if suggest => "  suggestion: "@ + h + "\n"@,
        _ => Seq::empty(),
    }
}

pub fn parse_report(err: &ParseError, suggest: bool) -> (r: String)
    ensures
        r@ == parse_report_text(err.line as int, err.column as int, err.msg@, hint_view(err.suggestion), suggest),
{
    let mut out = string_of("syntactic error ");
    push_position(&mut out, err.line, err.column);
    out.append(err.msg.as_str());
    out.append("\n");
    if suggest {
        match &err.suggestion {
            Some(h) => {
                out.append("  suggestion: ");
                out.append(h.as_str());
                out.append("\n");
            },
            None => {},
        }
    }
    assert(out@ =~= parse_report_text(err.line as int, err.column as int, err.msg@, hint_view(err.suggestion), suggest));
    out
}

pub open spec fn semantic_lines(es: Seq<SemanticError>) -> Seq<char>
    decreases es.len(),
{
    if es.len() == 0 {
        Seq::empty()
    } else {
        semantic_lines(es.drop_last()) + "  semantic error "@ + position_text(
            es.last().line as int,
            es.last().column as int,
        ) + es.last().msg@ + "\n"@
    }
}

/// The report of the semantic errors, after a blank line.
pub open spec fn semantic_report_text(es: Seq<SemanticError>) -> Seq<char> {
    "\n"@ + decimal(es.len()) + " semantic error(s) found:\n"@ + semantic_lines(es)
}

pub fn semantic_report(errors: &[SemanticError]) -> (r: String)
    ensures
        r@ == semantic_report_text(errors@),
{
    let mut out = string_of("\n");
    let n = decimal_string(errors.len());
    out.append(n.as_str());
    out.append(" semantic error(s) found:\n");
    let ghost head = out@;
    let mut i: usize = 0;
    assert(errors@.take(0) =~= Seq::<SemanticError>::empty());
    while i < errors.len()
        invariant
            i <= errors@.len(),
            head == "\n"@ + decimal(errors@.len()) + " semantic error(s) found:\n"@,
            out@ == head + semantic_lines(errors@.take(i as int)),
        decreases errors@.len() - i,
    {
        let e = &errors[i];
        let ghost before = out@;
        out.append("  semantic error ");
        push_position(&mut out, e.line, e.column);
        out.append(e.msg.as_str());
        out.append("\n");
        proof {
            assert(errors@.take(i + 1).drop_last() =~= errors@.take(i as int));
            assert(out@ =~= before + "  semantic error "@ + position_text(e.line as int, e.column as int)
                + e.msg@ + "\n"@);
        }
        i = i + 1;
    }
    assert(errors@.take(i as int) =~= errors@);
    out
}

} // verus!
