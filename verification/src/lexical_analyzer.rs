//! Self-contained lexical analyzer for the MiniJava variant.
//!
//! The scanner skips whitespace, `// ...` line comments and `/* ... */` block
//! comments, and reports the exact line/column of every malformed token.
//! `tokenize` returns the token stream (always terminated by `Eof`), the list
//! of lexical errors collected along the way, and the interned literal table
//! (identifiers and numbers). In `fail_fast` mode scanning stops at the first
//! lexical error.
//!
//! The whole scan is specified by `spec_tokenize`, a token-at-a-time
//! definition over the source characters; `tokenize` is proved to compute it.

use vstd::prelude::*;
use crate::text::{
    cat3, cat4, chars_of, char_is_alphabetic, char_is_digit, char_is_whitespace, char_is_word, char_string,
    is_alphabetic_char, is_digit, is_whitespace_char, is_word_char, push_char, str_eq, string_of,
};

verus! {

broadcast use vstd::string::group_string_axioms;

/// Reserved words of the language, in the order used for suggestions.
pub const KEYWORDS_LIST: [&'static str; 21] = [
    "class", "public", "extends", "else", "int", "static", "void", "main", "String", "return",
    "boolean", "if", "while", "System", "out", "println", "length", "new", "true", "false", "this",
];

/// The reserved words, in `KEYWORDS_LIST` order.
pub open spec fn keyword_seq() -> Seq<Seq<char>> {
    seq![
        "class"@, "public"@, "extends"@, "else"@, "int"@, "static"@, "void"@, "main"@,
        "String"@, "return"@, "boolean"@, "if"@, "while"@, "System"@, "out"@, "println"@,
        "length"@, "new"@, "true"@, "false"@, "this"@,
    ]
}

/// Whether `lex` is a reserved word.
pub open spec fn is_keyword_lexeme(lex: Seq<char>) -> bool {
    keyword_seq().contains(lex)
}

/// The `i`-th reserved word.
pub fn keyword_at(i: usize) -> (r: &'static str)
    requires
        i < 21,
    ensures
        r@ == keyword_seq()[i as int],
{
    if i == 0 { "class" }
    else if i == 1 { "public" }
    else if i == 2 { "extends" }
    else if i == 3 { "else" }
    else if i == 4 { "int" }
    else if i == 5 { "static" }
    else if i == 6 { "void" }
    else if i == 7 { "main" }
    else if i == 8 { "String" }
    else if i == 9 { "return" }
    else if i == 10 { "boolean" }
    else if i == 11 { "if" }
    else if i == 12 { "while" }
    else if i == 13 { "System" }
    else if i == 14 { "out" }
    else if i == 15 { "println" }
    else if i == 16 { "length" }
    else if i == 17 { "new" }
    else if i == 18 { "true" }
    else if i == 19 { "false" }
    else { "this" }
}

/// Whether `s` is a reserved word.
pub fn is_reserved(s: &str) -> (r: bool)
    ensures
        r == is_keyword_lexeme(s@),
{
    let mut i: usize = 0;
    while i < 21
        invariant
            0 <= i <= 21,
            forall|j: int| 0 <= j < i ==> keyword_seq()[j] != s@,
        decreases 21 - i,
    {
        if str_eq(keyword_at(i), s) {
            assert(keyword_seq()[i as int] == s@);
            return true;
        }
        i = i + 1;
    }
    proof {
        if keyword_seq().contains(s@) {
            let j = choose|j: int| 0 <= j < keyword_seq().len() && keyword_seq()[j] == s@;
            assert(keyword_seq()[j] != s@);
        }
    }
    false
}

/// Lexical class of a token. The concrete lexeme lives in `Token::lexeme`.
#[derive(Debug, Clone, Copy, PartialEq, Eq, Structural)]
pub enum TokenClass {
    Id,
    Number,
    Keyword,
    Operation,
    Delimiter,
    Eof,
}

#[derive(Debug)]
pub struct Token {
    pub class: TokenClass,
    /// Raw text of the token (`"if"`, `"&&"`, `"42"`, `"foo"`). EOF is empty.
    pub lexeme: String,
    /// Index into the interned `SymbolTable` for `Id`/`Number`; `None` otherwise.
    pub symbol: Option<usize>,
    pub line: usize,
    pub column: usize,
}

/// Mathematical model of a token.
pub struct TokenV {
    pub class: TokenClass,
    pub lexeme: Seq<char>,
    pub symbol: Option<usize>,
    pub line: int,
    pub column: int,
}

impl View for Token {
    type V = TokenV;

    open spec fn view(&self) -> TokenV {
        TokenV {
            class: self.class,
            lexeme: self.lexeme@,
            symbol: self.symbol,
            line: self.line as int,
            column: self.column as int,
        }
    }
}

impl Clone for Token {
    fn clone(&self) -> (r: Self)
        ensures
            r@ == self@,
    {
        Token {
            class: self.class,
            lexeme: self.lexeme.clone(),
            symbol: self.symbol,
            line: self.line,
            column: self.column,
        }
    }
}

/// Human-friendly description of a token, used in diagnostics.
pub open spec fn describe_token(t: TokenV) -> Seq<char> {
    match t.class {
        TokenClass::Id => "identifier '"@ + t.lexeme + "'"@,
        TokenClass::Number => "number '"@ + t.lexeme + "'"@,
        TokenClass::Keyword => "keyword '"@ + t.lexeme + "'"@,
        TokenClass::Operation => "operator '"@ + t.lexeme + "'"@,
        TokenClass::Delimiter => "'"@ + t.lexeme + "'"@,
        TokenClass::Eof => "end of input"@,
    }
}

impl Token {
    pub fn is_keyword(&self, kw: &str) -> (r: bool)
        ensures
            r == (self.class == TokenClass::Keyword && self.lexeme@ == kw@),
    {
        self.class == TokenClass::Keyword && str_eq(self.lexeme.as_str(), kw)
    }

    pub fn is_op(&self, op: &str) -> (r: bool)
        ensures
            r == (self.class == TokenClass::Operation && self.lexeme@ == op@),
    {
        self.class == TokenClass::Operation && str_eq(self.lexeme.as_str(), op)
    }

    pub fn is_delim(&self, d: &str) -> (r: bool)
        ensures
            r == (self.class == TokenClass::Delimiter && self.lexeme@ == d@),
    {
        self.class == TokenClass::Delimiter && str_eq(self.lexeme.as_str(), d)
    }

    pub fn is_id(&self) -> (r: bool)
        ensures
            r == (self.class == TokenClass::Id),
    {
        self.class == TokenClass::Id
    }

    pub fn is_number(&self) -> (r: bool)
        ensures
            r == (self.class == TokenClass::Number),
    {
        self.class == TokenClass::Number
    }

    pub fn is_eof(&self) -> (r: bool)
        ensures
            r == (self.class == TokenClass::Eof),
    {
        self.class == TokenClass::Eof
    }

    /// Human-friendly description used in diagnostics.
    pub fn describe(&self) -> (r: String)
        ensures
            r@ == describe_token(self@),
    {
        match self.class {
            TokenClass::Id => cat3("identifier '", self.lexeme.as_str(), "'"),
            TokenClass::Number => cat3("number '", self.lexeme.as_str(), "'"),
            TokenClass::Keyword => cat3("keyword '", self.lexeme.as_str(), "'"),
            TokenClass::Operation => cat3("operator '", self.lexeme.as_str(), "'"),
            TokenClass::Delimiter => cat3("'", self.lexeme.as_str(), "'"),
            TokenClass::Eof => string_of("end of input"),
        }
    }
}

#[derive(Debug, PartialEq, Eq)]
pub struct LexError {
    pub line: usize,
    pub column: usize,
    pub msg: String,
}

pub struct LexErrorV {
    pub line: int,
    pub column: int,
    pub msg: Seq<char>,
}

impl View for LexError {
    type V = LexErrorV;

    open spec fn view(&self) -> LexErrorV {
        LexErrorV { line: self.line as int, column: self.column as int, msg: self.msg@ }
    }
}

#[derive(Debug, Clone, Copy, PartialEq, Eq, Structural)]
pub enum SymbolKind {
    Variable,
    Number,
}

/// One entry in the interned literal table.
#[derive(Debug)]
pub struct SymbolTableEntry {
    pub lexeme: String,
    pub kind: SymbolKind,
    pub first_line: usize,
    pub first_column: usize,
}

pub struct SymbolEntryV {
    pub lexeme: Seq<char>,
    pub kind: SymbolKind,
    pub first_line: int,
    pub first_column: int,
}

impl View for SymbolTableEntry {
    type V = SymbolEntryV;

    open spec fn view(&self) -> SymbolEntryV {
        SymbolEntryV {
            lexeme: self.lexeme@,
            kind: self.kind,
            first_line: self.first_line as int,
            first_column: self.first_column as int,
        }
    }
}

/// Interned table of identifier and number literals seen by the lexer: each
/// distinct lexeme has one entry, recorded at its first occurrence.
#[derive(Debug)]
pub struct SymbolTable {
    pub registers: Vec<SymbolTableEntry>,
}

pub open spec fn entries_view(v: Seq<SymbolTableEntry>) -> Seq<SymbolEntryV> {
    Seq::new(v.len(), |i: int| v[i]@)
}

pub open spec fn tokens_view(v: Seq<Token>) -> Seq<TokenV> {
    Seq::new(v.len(), |i: int| v[i]@)
}

pub open spec fn errors_view(v: Seq<LexError>) -> Seq<LexErrorV> {
    Seq::new(v.len(), |i: int| v[i]@)
}

impl View for SymbolTable {
    type V = Seq<SymbolEntryV>;

    open spec fn view(&self) -> Seq<SymbolEntryV> {
        entries_view(self.registers@)
    }
}

/// Index of the first entry at or after `i` whose lexeme is `lex`, or -1.
pub open spec fn find_lexeme_from(syms: Seq<SymbolEntryV>, lex: Seq<char>, i: int) -> int
    decreases syms.len() - i,
{
    if i < 0 || i >= syms.len() {
        -1
    } else if syms[i].lexeme == lex {
        i
    } else {
        find_lexeme_from(syms, lex, i + 1)
    }
}

/// Interning: the index of the entry holding `lex`, adding one if needed.
pub open spec fn intern_spec(
    syms: Seq<SymbolEntryV>,
    lex: Seq<char>,
    kind: SymbolKind,
    line: int,
    column: int,
) -> (Seq<SymbolEntryV>, int) {
    let f = find_lexeme_from(syms, lex, 0);
    if f >= 0 {
        (syms, f)
    } else {
        (
            syms.push(SymbolEntryV { lexeme: lex, kind, first_line: line, first_column: column }),
            syms.len() as int,
        )
    }
}

impl Default for SymbolTable {
    fn default() -> (r: Self)
        ensures
            r@ == Seq::<SymbolEntryV>::empty(),
    {
        SymbolTable { registers: Vec::new() }
    }
}

impl SymbolTable {
    fn new() -> (r: Self)
        ensures
            r@ == Seq::<SymbolEntryV>::empty(),
    {
        let r = SymbolTable { registers: Vec::new() };
        assert(r@ =~= Seq::<SymbolEntryV>::empty());
        r
    }

    fn intern(&mut self, lexeme: &String, kind: SymbolKind, line: usize, column: usize) -> (r:
        usize)
        ensures
            (final(self)@, r as int) == intern_spec(
                old(self)@,
                lexeme@,
                kind,
                line as int,
                column as int,
            ),
    {
        let mut i: usize = 0;
        while i < self.registers.len()
            invariant
                0 <= i <= self.registers@.len(),
                self@ == old(self)@,
                find_lexeme_from(self@, lexeme@, 0) == find_lexeme_from(self@, lexeme@, i as int),
            decreases self.registers@.len() - i,
        {
            if self.registers[i].lexeme == *lexeme {
                return i;
            }
            i = i + 1;
        }
        let idx = self.registers.len();
        let entry = SymbolTableEntry {
            lexeme: lexeme.clone(),
            kind,
            first_line: line,
            first_column: column,
        };
        self.registers.push(entry);
        assert(self@ =~= old(self)@.push(
            SymbolEntryV {
                lexeme: lexeme@,
                kind,
                first_line: line as int,
                first_column: column as int,
            },
        ));
        idx
    }
}

/// Outcome of a lexical pass: the token stream (always terminated by `Eof`),
/// every lexical error found (empty on success), and the interned table.
pub struct LexResult {
    pub tokens: Vec<Token>,
    pub errors: Vec<LexError>,
    pub symbols: SymbolTable,
}

/// Model of a (possibly partial) lexical pass.
#[verifier::ext_equal]
pub struct LexOutcome {
    pub tokens: Seq<TokenV>,
    pub errors: Seq<LexErrorV>,
    pub symbols: Seq<SymbolEntryV>,
    /// Position where scanning stopped.
    pub end: int,
}

impl View for LexResult {
    type V = LexOutcome;

    open spec fn view(&self) -> LexOutcome {
        LexOutcome {
            tokens: tokens_view(self.tokens@),
            errors: errors_view(self.errors@),
            symbols: self.symbols@,
            end: 0,
        }
    }
}

// ---------------------------------------------------------------------------
// Specification of the scan.
// ---------------------------------------------------------------------------

/// `(line, column)` of position `p`: lines and columns start at 1, a newline
/// moves to the first column of the next line.
pub open spec fn line_col(s: Seq<char>, p: int) -> (int, int)
    decreases p,
{
    if p <= 0 {
        (1, 1)
    } else {
        let (l, c) = line_col(s, p - 1);
        if s[p - 1] == '\n' {
            (l + 1, 1)
        } else {
            (l, c + 1)
        }
    }
}

/// End of the run of identifier characters starting at `p`.
pub open spec fn word_end(s: Seq<char>, p: int) -> int
    decreases s.len() - p,
{
    if 0 <= p < s.len() && is_word_char(s[p]) {
        word_end(s, p + 1)
    } else {
        p
    }
}

/// End of the run of ASCII digits starting at `p`.
pub open spec fn number_end(s: Seq<char>, p: int) -> int
    decreases s.len() - p,
{
    if 0 <= p < s.len() && is_digit(s[p]) {
        number_end(s, p + 1)
    } else {
        p
    }
}

/// First position at or after `p` holding a newline (or the end of input).
pub open spec fn line_comment_end(s: Seq<char>, p: int) -> int
    decreases s.len() - p,
{
    if p < 0 || p >= s.len() || s[p] == '\n' {
        p
    } else {
        line_comment_end(s, p + 1)
    }
}

/// Position just after the first `*/` whose `*` is at or after `p`.
pub open spec fn block_end(s: Seq<char>, p: int) -> Option<int>
    decreases s.len() - p,
{
    if p < 0 || p >= s.len() {
        None
    } else if s[p] == '*' && p + 1 < s.len() && s[p + 1] == '/' {
        Some(p + 2)
    } else {
        block_end(s, p + 1)
    }
}

pub proof fn lemma_word_end(s: Seq<char>, p: int)
    ensures
        word_end(s, p) >= p,
        0 <= p ==> word_end(s, p) <= s.len() || word_end(s, p) == p,
        0 <= p <= s.len() ==> word_end(s, p) <= s.len(),
        forall|k: int| p <= k < word_end(s, p) ==> is_word_char(#[trigger] s[k]),
        0 <= p ==> (word_end(s, p) >= s.len() || !is_word_char(s[word_end(s, p)])),
    decreases s.len() - p,
{
    if 0 <= p < s.len() && is_word_char(s[p]) {
        lemma_word_end(s, p + 1);
    }
}

pub proof fn lemma_number_end(s: Seq<char>, p: int)
    ensures
        number_end(s, p) >= p,
        0 <= p <= s.len() ==> number_end(s, p) <= s.len(),
        forall|k: int| p <= k < number_end(s, p) ==> is_digit(#[trigger] s[k]),
        0 <= p ==> (number_end(s, p) >= s.len() || !is_digit(s[number_end(s, p)])),
    decreases s.len() - p,
{
    if 0 <= p < s.len() && is_digit(s[p]) {
        lemma_number_end(s, p + 1);
    }
}

pub proof fn lemma_line_comment_end(s: Seq<char>, p: int)
    ensures
        line_comment_end(s, p) >= p,
        0 <= p <= s.len() ==> line_comment_end(s, p) <= s.len(),
    decreases s.len() - p,
{
    if !(p < 0 || p >= s.len() || s[p] == '\n') {
        lemma_line_comment_end(s, p + 1);
    }
}

pub proof fn lemma_block_end(s: Seq<char>, p: int)
    ensures
        block_end(s, p) matches Some(e) ==> p + 2 <= e <= s.len(),
    decreases s.len() - p,
{
    if !(p < 0 || p >= s.len()) && !(s[p] == '*' && p + 1 < s.len() && s[p + 1] == '/') {
        lemma_block_end(s, p + 1);
    }
}

/// Skips whitespace and comments from `p`. Returns where the next token may
/// start and, for an unclosed block comment, the position of its `/*`.
pub open spec fn skip_trivia(s: Seq<char>, p: int) -> (int, Option<int>)
    decreases s.len() - p,
{
    if p < 0 || p >= s.len() {
        (p, None)
    } else if is_whitespace_char(s[p]) {
        skip_trivia(s, p + 1)
    } else if s[p] == '/' && p + 1 < s.len() && s[p + 1] == '/' {
        proof {
            lemma_line_comment_end(s, p + 1);
        }
        skip_trivia(s, line_comment_end(s, p + 1))
    } else if s[p] == '/' && p + 1 < s.len() && s[p + 1] == '*' {
        proof {
            lemma_block_end(s, p + 2);
        }
        match block_end(s, p + 2) {
            Some(e) => skip_trivia(s, e),
            None => (s.len() as int, Some(p)),
        }
    } else {
        (p, None)
    }
}

pub proof fn lemma_skip_trivia(s: Seq<char>, p: int)
    requires
        0 <= p <= s.len(),
    ensures
        p <= skip_trivia(s, p).0 <= s.len(),
        skip_trivia(s, p).1 is Some ==> skip_trivia(s, p).0 == s.len(),
        skip_trivia(s, p).1 matches Some(st) ==> p <= st < s.len(),
    decreases s.len() - p,
{
    if p >= s.len() {
    } else if is_whitespace_char(s[p]) {
        lemma_skip_trivia(s, p + 1);
    } else if s[p] == '/' && p + 1 < s.len() && s[p + 1] == '/' {
        lemma_line_comment_end(s, p + 1);
        lemma_skip_trivia(s, line_comment_end(s, p + 1));
    } else if s[p] == '/' && p + 1 < s.len() && s[p + 1] == '*' {
        lemma_block_end(s, p + 2);
        match block_end(s, p + 2) {
            Some(e) => lemma_skip_trivia(s, e),
            None => {},
        }
    }
}

/// Length and class of the operator or delimiter starting at `p`, if any.
pub open spec fn symbolic_at(s: Seq<char>, p: int) -> Option<(int, TokenClass)> {
    let c = s[p];
    if c == '&' {
        if p + 1 < s.len() && s[p + 1] == '&' {
            Some((2, TokenClass::Operation))
        } else {
            None
        }
    } else if c == '<' || c == '+' || c == '-' || c == '*' || c == '!' {
        Some((1, TokenClass::Operation))
    } else if c == '{' || c == '}' || c == '(' || c == ')' || c == '[' || c == ']' || c == ';'
        || c == ',' || c == '.' || c == '=' {
        Some((1, TokenClass::Delimiter))
    } else {
        None
    }
}

pub open spec fn lex_error(s: Seq<char>, p: int, msg: Seq<char>) -> LexErrorV {
    LexErrorV { line: line_col(s, p).0, column: line_col(s, p).1, msg }
}

pub open spec fn malformed_msg(lex: Seq<char>) -> Seq<char> {
    "malformed number/identifier '"@ + lex + "'"@
}

pub open spec fn unrecognized_msg(c: char) -> Seq<char> {
    "unrecognized character '"@ + seq![c] + "'"@
}

pub open spec fn with_end(acc: LexOutcome, end: int) -> LexOutcome {
    LexOutcome { end, ..acc }
}

pub open spec fn push_error(acc: LexOutcome, e: LexErrorV) -> LexOutcome {
    LexOutcome { errors: acc.errors.push(e), ..acc }
}

/// Appends the token `s[p..e]` of class `class`; identifiers and numbers are
/// interned with the given kind.
pub open spec fn push_token(
    s: Seq<char>,
    acc: LexOutcome,
    class: TokenClass,
    p: int,
    e: int,
) -> LexOutcome {
    let lex = s.subrange(p, e);
    let (l, c) = line_col(s, p);
    if class == TokenClass::Id || class == TokenClass::Number {
        let kind = if class == TokenClass::Id { SymbolKind::Variable } else { SymbolKind::Number };
        let (syms, idx) = intern_spec(acc.symbols, lex, kind, l, c);
        LexOutcome {
            tokens: acc.tokens.push(
                TokenV { class, lexeme: lex, symbol: Some(idx as usize), line: l, column: c },
            ),
            symbols: syms,
            ..acc
        }
    } else {
        LexOutcome {
            tokens: acc.tokens.push(
                TokenV { class, lexeme: lex, symbol: None, line: l, column: c },
            ),
            ..acc
        }
    }
}

/// The scan from position `p`, given what was produced before it.
pub open spec fn lex_from(s: Seq<char>, p: int, fail_fast: bool, acc: LexOutcome) -> LexOutcome
    decreases s.len() - p,
{
    if p < 0 || p > s.len() {
        with_end(acc, p)
    } else {
        proof {
            lemma_skip_trivia(s, p);
        }
        let (q, unclosed) = skip_trivia(s, p);
        match unclosed {
            Some(st) => with_end(push_error(acc, lex_error(s, st, "unclosed block comment"@)), q),
            None => if q >= s.len() {
                with_end(acc, q)
            } else {
                let c = s[q];
                if is_alphabetic_char(c) {
                    proof {
                        lemma_word_end(s, q);
                        lemma_word_end(s, q + 1);
                    }
                    let e = word_end(s, q);
                    let class = if is_keyword_lexeme(s.subrange(q, e)) {
                        TokenClass::Keyword
                    } else {
                        TokenClass::Id
                    };
                    lex_from(s, e, fail_fast, push_token(s, acc, class, q, e))
                } else if is_digit(c) {
                    proof {
                        lemma_number_end(s, q);
                        lemma_number_end(s, q + 1);
                    }
                    let e1 = number_end(s, q);
                    if e1 < s.len() && (is_alphabetic_char(s[e1]) || s[e1] == '_') {
                        proof {
                            lemma_word_end(s, e1);
                        }
                        let e2 = word_end(s, e1);
                        let acc2 = push_error(
                            acc,
                            lex_error(s, q, malformed_msg(s.subrange(q, e2))),
                        );
                        if fail_fast {
                            with_end(acc2, e2)
                        } else {
                            lex_from(s, e2, fail_fast, acc2)
                        }
                    } else {
                        lex_from(s, e1, fail_fast, push_token(s, acc, TokenClass::Number, q, e1))
                    }
                } else {
                    match symbolic_at(s, q) {
                        Some((n, class)) => lex_from(
                            s,
                            q + n,
                            fail_fast,
                            push_token(s, acc, class, q, q + n),
                        ),
                        None => {
                            let acc2 = push_error(acc, lex_error(s, q, unrecognized_msg(c)));
                            if fail_fast {
                                with_end(acc2, q + 1)
                            } else {
                                lex_from(s, q + 1, fail_fast, acc2)
                            }
                        },
                    }
                }
            },
        }
    }
}

/// The whole lexical pass over the source characters `s`.
pub open spec fn spec_tokenize(s: Seq<char>, fail_fast: bool) -> LexOutcome {
    let r = lex_from(
        s,
        0,
        fail_fast,
        LexOutcome {
            tokens: Seq::empty(),
            errors: Seq::empty(),
            symbols: Seq::empty(),
            end: 0,
        },
    );
    let (l, c) = line_col(s, r.end);
    LexOutcome {
        tokens: r.tokens.push(
            TokenV { class: TokenClass::Eof, lexeme: Seq::empty(), symbol: None, line: l, column: c },
        ),
        end: 0,
        ..r
    }
}


// ---------------------------------------------------------------------------
// The scanner.
// ---------------------------------------------------------------------------

struct Scanner {
    chars: Vec<char>,
    pos: usize,
    line: usize,
    column: usize,
}

impl Scanner {
    spec fn wf(&self) -> bool {
        &&& self.pos <= self.chars@.len()
        &&& self.chars@.len() < usize::MAX
        &&& (self.line as int, self.column as int) == line_col(self.chars@, self.pos as int)
    }

    fn new(src: &str) -> (r: Self)
        requires
            src@.len() < usize::MAX,
        ensures
            r.wf(),
            r.chars@ == src@,
            r.pos == 0,
    {
        Scanner { chars: chars_of(src), pos: 0, line: 1, column: 1 }
    }

    fn peek(&self) -> (r: Option<char>)
        requires
            self.wf(),
        ensures
            r == (if self.pos < self.chars@.len() {
                Some(self.chars@[self.pos as int])
            } else {
                None::<char>
            }),
    {
        if self.pos < self.chars.len() {
            Some(self.chars[self.pos])
        } else {
            None
        }
    }

    /// Whether the character after the current one is `d`.
    fn peek2_is(&self, d: char) -> (r: bool)
        requires
            self.wf(),
        ensures
            r == (self.pos + 1 < self.chars@.len() && self.chars@[self.pos + 1] == d),
    {
        self.pos + 1 < self.chars.len() && self.chars[self.pos + 1] == d
    }

    /// Advance one character, maintaining line/column counters.
    fn bump(&mut self) -> (r: Option<char>)
        requires
            old(self).wf(),
        ensures
            final(self).wf(),
            final(self).chars@ == old(self).chars@,
            old(self).pos < old(self).chars@.len() ==> final(self).pos == old(self).pos + 1
                && r == Some(old(self).chars@[old(self).pos as int]),
            old(self).pos >= old(self).chars@.len() ==> final(self).pos == old(self).pos && r
                == None::<char>,
    {
        if self.pos >= self.chars.len() {
            return None;
        }
        let c = self.chars[self.pos];
        proof {
            lemma_line_col_bounds(self.chars@, self.pos as int);
        }
        self.pos = self.pos + 1;
        if c == '\n' {
            self.line = self.line + 1;
            self.column = 1;
        } else {
            self.column = self.column + 1;
        }
        Some(c)
    }
}

/// Copies `v[from..to]` into a string.
fn substring(v: &Vec<char>, from: usize, to: usize) -> (r: String)
    requires
        from <= to <= v@.len(),
    ensures
        r@ == v@.subrange(from as int, to as int),
{
    let mut r = String::new();
    let mut i = from;
    while i < to
        invariant
            from <= i <= to <= v@.len(),
            r@ == v@.subrange(from as int, i as int),
        decreases to - i,
    {
        push_char(&mut r, v[i]);
        i = i + 1;
        assert(r@ =~= v@.subrange(from as int, i as int));
    }
    r
}

/// Skips whitespace and comments. Returns the line/column of the `/*` of an
/// unclosed block comment, if one is met.
fn skip_trivia_exec(sc: &mut Scanner) -> (r: Option<(usize, usize)>)
    requires
        old(sc).wf(),
    ensures
        final(sc).wf(),
        final(sc).chars@ == old(sc).chars@,
        skip_trivia(old(sc).chars@, old(sc).pos as int).0 == final(sc).pos as int,
        match (skip_trivia(old(sc).chars@, old(sc).pos as int).1, r) {
            (None, None) => true,
            (Some(st), Some((l, c))) => line_col(old(sc).chars@, st) == (l as int, c as int),
            _ => false,
        },
{
    let ghost s = sc.chars@;
    let ghost p0 = sc.pos as int;
    loop
        invariant
            sc.wf(),
            sc.chars@ == s,
            s == old(sc).chars@,
            p0 == old(sc).pos,
            p0 <= sc.pos,
            skip_trivia(s, p0) == skip_trivia(s, sc.pos as int),
        decreases s.len() - sc.pos,
    {
        let c = match sc.peek() {
            Some(c) => c,
            None => {
                return None;
            },
        };
        if char_is_whitespace(c) {
            sc.bump();
        } else if c == '/' && sc.peek2_is('/') {
            // Line comment: consume up to (not including) the newline.
            let ghost target = line_comment_end(s, sc.pos + 1);
            proof {
                lemma_line_comment_end(s, sc.pos + 1);
            }
            sc.bump();
            loop
                invariant
                    sc.wf(),
                    sc.chars@ == s,
                    s == old(sc).chars@,
                    p0 == old(sc).pos,
                    p0 <= sc.pos <= target,
                    line_comment_end(s, sc.pos as int) == target,
                    skip_trivia(s, p0) == skip_trivia(s, target),
                ensures
                    sc.pos == target,
                decreases s.len() - sc.pos,
            {
                match sc.peek() {
                    None => break,
                    Some(d) => {
                        if d == '\n' {
                            break;
                        }
                        proof {
                            lemma_line_comment_end(s, sc.pos + 1);
                        }
                        sc.bump();
                    },
                }
            }
        } else if c == '/' && sc.peek2_is('*') {
            let start_line = sc.line;
            let start_col = sc.column;
            let ghost st = sc.pos as int;
            proof {
                lemma_block_end(s, st + 2);
            }
            sc.bump();
            sc.bump();
            let mut closed = false;
            loop
                invariant_except_break
                    sc.wf(),
                    sc.chars@ == s,
                    !closed,
                    st + 2 <= sc.pos,
                    block_end(s, sc.pos as int) == block_end(s, st + 2),
                ensures
                    sc.wf(),
                    sc.chars@ == s,
                    closed ==> block_end(s, st + 2) == Some(sc.pos as int),
                    !closed ==> block_end(s, st + 2) is None && sc.pos == s.len(),
                decreases s.len() - sc.pos,
            {
                match sc.bump() {
                    None => break,
                    Some(d) => {
                        if d == '*' && sc.peek() == Some('/') {
                            sc.bump();
                            closed = true;
                            break;
                        }
                    },
                }
            }
            if !closed {
                return Some((start_line, start_col));
            }
        } else {
            return None;
        }
    }
}

/// Identifier/word: the longest run of alphanumeric characters and `_`.
fn scan_word(sc: &mut Scanner) -> (r: String)
    requires
        old(sc).wf(),
    ensures
        final(sc).wf(),
        final(sc).chars@ == old(sc).chars@,
        final(sc).pos as int == word_end(old(sc).chars@, old(sc).pos as int),
        r@ == old(sc).chars@.subrange(old(sc).pos as int, final(sc).pos as int),
{
    let ghost s = sc.chars@;
    let start = sc.pos;
    proof {
        lemma_word_end(s, start as int);
    }
    loop
        invariant
            sc.wf(),
            sc.chars@ == s,
            s == old(sc).chars@,
            start == old(sc).pos,
            start <= sc.pos,
            word_end(s, sc.pos as int) == word_end(s, start as int),
        ensures
            sc.pos == word_end(s, start as int),
        decreases s.len() - sc.pos,
    {
        match sc.peek() {
            None => break,
            Some(c) => {
                if !char_is_word(c) {
                    break;
                }
                sc.bump();
            },
        }
    }
    substring(&sc.chars, start, sc.pos)
}

/// Number literal: the longest run of ASCII digits.
fn scan_number(sc: &mut Scanner) -> (r: String)
    requires
        old(sc).wf(),
    ensures
        final(sc).wf(),
        final(sc).chars@ == old(sc).chars@,
        final(sc).pos as int == number_end(old(sc).chars@, old(sc).pos as int),
        r@ == old(sc).chars@.subrange(old(sc).pos as int, final(sc).pos as int),
{
    let ghost s = sc.chars@;
    let start = sc.pos;
    loop
        invariant
            sc.wf(),
            sc.chars@ == s,
            s == old(sc).chars@,
            start == old(sc).pos,
            start <= sc.pos,
            number_end(s, sc.pos as int) == number_end(s, start as int),
        ensures
            sc.pos == number_end(s, start as int),
        decreases s.len() - sc.pos,
    {
        match sc.peek() {
            None => break,
            Some(c) => {
                if !char_is_digit(c) {
                    break;
                }
                sc.bump();
            },
        }
    }
    substring(&sc.chars, start, sc.pos)
}

/// Operator or delimiter starting at the cursor. Returns `None` if the current
/// character begins no valid symbolic token (so the caller can report it).
fn scan_symbolic(sc: &mut Scanner) -> (r: Option<(String, TokenClass)>)
    requires
        old(sc).wf(),
        old(sc).pos < old(sc).chars@.len(),
    ensures
        final(sc).wf(),
        final(sc).chars@ == old(sc).chars@,
        match symbolic_at(old(sc).chars@, old(sc).pos as int) {
            Some((n, class)) => r matches Some((lex, cl)) && cl == class && final(sc).pos
                == old(sc).pos + n && lex@ == old(sc).chars@.subrange(
                old(sc).pos as int,
                old(sc).pos + n,
            ),
            None => r is None && final(sc).pos == old(sc).pos,
        },
{
    let ghost s = sc.chars@;
    let ghost p = sc.pos as int;
    let c = sc.chars[sc.pos];
    if c == '&' {
        if sc.peek2_is('&') {
            sc.bump();
            sc.bump();
            let lex = string_of("&&");
            proof {
                reveal_strlit("&&");
                assert(lex@ =~= s.subrange(p, p + 2));
            }
            Some((lex, TokenClass::Operation))
        } else {
            // Lone '&' is not a valid token; let the caller report it.
            None
        }
    } else if c == '<' || c == '+' || c == '-' || c == '*' || c == '!' {
        sc.bump();
        let lex = char_string(c);
        assert(lex@ =~= s.subrange(p, p + 1));
        Some((lex, TokenClass::Operation))
    } else if c == '{' || c == '}' || c == '(' || c == ')' || c == '[' || c == ']' || c == ';'
        || c == ',' || c == '.' || c == '=' {
        sc.bump();
        let lex = char_string(c);
        assert(lex@ =~= s.subrange(p, p + 1));
        Some((lex, TokenClass::Delimiter))
    } else {
        None
    }
}

pub open spec fn empty_outcome() -> LexOutcome {
    LexOutcome { tokens: Seq::empty(), errors: Seq::empty(), symbols: Seq::empty(), end: 0 }
}

spec fn outcome_of(tokens: Seq<Token>, errors: Seq<LexError>, symbols: Seq<SymbolEntryV>) -> LexOutcome {
    LexOutcome { tokens: tokens_view(tokens), errors: errors_view(errors), symbols, end: 0 }
}

/// Tokenize `src`. When `fail_fast` is true, scanning stops at the first
/// lexical error; otherwise it recovers and reports every error.
pub fn tokenize(src: &str, fail_fast: bool) -> (r: LexResult)
    requires
        src@.len() < usize::MAX,
    ensures
        r@ == spec_tokenize(src@, fail_fast),
{
    let mut sc = Scanner::new(src);
    let ghost s = src@;
    let mut tokens: Vec<Token> = Vec::new();
    let mut errors: Vec<LexError> = Vec::new();
    let mut symbols = SymbolTable::new();
    proof {
        assert(outcome_of(tokens@, errors@, symbols@) =~= empty_outcome());
    }

    loop
        invariant_except_break
            sc.wf(),
            sc.chars@ == s,
            lex_from(s, 0, fail_fast, empty_outcome()) == lex_from(
                s,
                sc.pos as int,
                fail_fast,
                outcome_of(tokens@, errors@, symbols@),
            ),
        ensures
            sc.wf(),
            sc.chars@ == s,
            lex_from(s, 0, fail_fast, empty_outcome()) == with_end(
                outcome_of(tokens@, errors@, symbols@),
                sc.pos as int,
            ),
        decreases s.len() - sc.pos,
    {
        let ghost p0 = sc.pos as int;
        let ghost acc = outcome_of(tokens@, errors@, symbols@);
        proof {
            lemma_skip_trivia(s, p0);
        }
        // Skip whitespace and comments between tokens.
        let unclosed = skip_trivia_exec(&mut sc);
        let ghost q = sc.pos as int;
        match unclosed {
            Some((l, c)) => {
                let ghost old_errors = errors@;
                errors.push(LexError { line: l, column: c, msg: string_of("unclosed block comment") });
                proof {
                    assert(errors_view(errors@) =~= errors_view(old_errors).push(
                        lex_error(s, skip_trivia(s, p0).1->0, "unclosed block comment"@),
                    ));
                    assert(outcome_of(tokens@, errors@, symbols@) =~= push_error(acc, lex_error(s, skip_trivia(s, p0).1->0, "unclosed block comment"@)));
                }
                break;
            },
            None => {},
        }

        let c = match sc.peek() {
            Some(c) => c,
            None => {
                break;
            },
        };
        let start_line = sc.line;
        let start_column = sc.column;
        let start = sc.pos;

        if char_is_alphabetic(c) {
            proof {
                lemma_word_end(s, q);
                lemma_word_end(s, q + 1);
            }
            let lexeme = scan_word(&mut sc);
            let is_kw = is_reserved(lexeme.as_str());
            let class = if is_kw {
                TokenClass::Keyword
            } else {
                TokenClass::Id
            };
            let symbol = if !is_kw {
                Some(symbols.intern(&lexeme, SymbolKind::Variable, start_line, start_column))
            } else {
                None
            };
            let ghost old_tokens = tokens@;
            tokens.push(
                Token { class, lexeme, symbol, line: start_line, column: start_column },
            );
            proof {
                assert(tokens_view(tokens@) =~= tokens_view(old_tokens).push(tokens@.last()@));
                assert(outcome_of(tokens@, errors@, symbols@) =~= push_token(s, acc, class, q, sc.pos as int));
            }
            continue;
        }
        if char_is_digit(c) {
            proof {
                lemma_number_end(s, q);
                lemma_number_end(s, q + 1);
            }
            let lexeme = scan_number(&mut sc);
            let e1 = sc.pos;
            let bad = match sc.peek() {
                Some(ch) => char_is_alphabetic(ch) || ch == '_',
                None => false,
            };
            // A number immediately followed by a letter is a malformed token
            // (e.g. `12ab`). Report it but consume the trailing word so we
            // don't spam an error per character.
            if bad {
                proof {
                    lemma_word_end(s, e1 as int);
                }
                let bad_tail = scan_word(&mut sc);
                let msg = cat4(
                    "malformed number/identifier '",
                    lexeme.as_str(),
                    bad_tail.as_str(),
                    "'",
                );
                proof {
                    assert(s.subrange(q, e1 as int) + s.subrange(e1 as int, sc.pos as int) =~= s.subrange(q, sc.pos as int));
                    assert(msg@ =~= malformed_msg(s.subrange(q, sc.pos as int)));
                }
                let ghost old_errors = errors@;
                errors.push(LexError { line: start_line, column: start_column, msg });
                proof {
                    assert(errors_view(errors@) =~= errors_view(old_errors).push(
                        lex_error(s, q, malformed_msg(s.subrange(q, sc.pos as int))),
                    ));
                    assert(outcome_of(tokens@, errors@, symbols@) =~= push_error(acc, lex_error(s, q, malformed_msg(s.subrange(q, sc.pos as int)))));
                }
                if fail_fast {
                    break;
                }
                continue;
            }
            let symbol = symbols.intern(&lexeme, SymbolKind::Number, start_line, start_column);
            let ghost old_tokens = tokens@;
            tokens.push(
                Token {
                    class: TokenClass::Number,
                    lexeme,
                    symbol: Some(symbol),
                    line: start_line,
                    column: start_column,
                },
            );
            proof {
                assert(tokens_view(tokens@) =~= tokens_view(old_tokens).push(tokens@.last()@));
                assert(outcome_of(tokens@, errors@, symbols@) =~= push_token(s, acc, TokenClass::Number, q, sc.pos as int));
            }
            continue;
        }
        // Operators and delimiters.
        match scan_symbolic(&mut sc) {
            Some((lexeme, class)) => {
                let ghost old_tokens = tokens@;
                tokens.push(
                    Token { class, lexeme, symbol: None, line: start_line, column: start_column },
                );
                proof {
                    assert(tokens_view(tokens@) =~= tokens_view(old_tokens).push(tokens@.last()@));
                    assert(outcome_of(tokens@, errors@, symbols@) =~= push_token(s, acc, class, q, sc.pos as int));
                }
                continue;
            },
            None => {},
        }
        // Nothing matched: malformed lexeme. Consume the single offending char.
        sc.bump();
        let msg = cat3("unrecognized character '", char_string(c).as_str(), "'");
        let ghost old_errors = errors@;
        errors.push(LexError { line: start_line, column: start_column, msg });
        proof {
            assert(errors_view(errors@) =~= errors_view(old_errors).push(
                lex_error(s, q, unrecognized_msg(c)),
            ));
            assert(outcome_of(tokens@, errors@, symbols@) =~= push_error(acc, lex_error(s, q, unrecognized_msg(c))));
        }
        if fail_fast {
            break;
        }
    }

    let ghost before = tokens@;
    tokens.push(
        Token {
            class: TokenClass::Eof,
            lexeme: String::new(),
            symbol: None,
            line: sc.line,
            column: sc.column,
        },
    );
    let r = LexResult { tokens, errors, symbols };
    proof {
        assert(tokens_view(r.tokens@) =~= tokens_view(before).push(r.tokens@.last()@));
        assert(r@ =~= spec_tokenize(s, fail_fast));
    }
    r
}



// ---------------------------------------------------------------------------
// Keyword suggestions.
// ---------------------------------------------------------------------------

pub open spec fn min_nat(a: nat, b: nat) -> nat {
    if a <= b { a } else { b }
}

/// Levenshtein distance: the minimum number of single-character insertions,
/// deletions and substitutions that turn `a` into `b`.
pub open spec fn edit_distance(a: Seq<char>, b: Seq<char>) -> nat
    decreases a.len() + b.len(),
{
    if a.len() == 0 {
        b.len()
    } else if b.len() == 0 {
        a.len()
    } else {
        let subst = edit_distance(a.drop_last(), b.drop_last()) + (if a.last() == b.last() {
            0nat
        } else {
            1nat
        });
        min_nat(
            subst,
            min_nat(edit_distance(a.drop_last(), b) + 1, edit_distance(a, b.drop_last()) + 1),
        )
    }
}

/// `strsim::levenshtein`: its documentation defines the result as the minimum
/// number of insertions, deletions and substitutions required to change one
/// string into the other (over `char`s); the contract states that number.
#[verifier::external_body]
fn levenshtein(a: &str, b: &str) -> (r: usize)
    ensures
        r as nat == edit_distance(a@, b@),
{
    strsim::levenshtein(a, b)
}

/// Scans the keywords from index `i`, keeping the first one of least
/// distance among those within distance 2 of `lex`.
pub open spec fn best_keyword_from(lex: Seq<char>, i: int, best: Option<(int, nat)>) -> Option<int>
    decreases 21 - i,
{
    if i >= 21 || i < 0 {
        match best {
            Some((k, _)) => Some(k),
            None => None,
        }
    } else {
        let d = edit_distance(lex, keyword_seq()[i]);
        let improves = d <= 2 && match best {
            Some((_, bd)) => d < bd,
            None => true,
        };
        best_keyword_from(lex, i + 1, if improves { Some((i, d)) } else { best })
    }
}

/// The keyword suggested for `lex`: among the keywords within edit distance 2,
/// the first (in `KEYWORDS_LIST` order) of least distance; none for an empty
/// lexeme.
pub open spec fn suggestion_for(lex: Seq<char>) -> Option<Seq<char>> {
    if lex.len() == 0 {
        None
    } else {
        match best_keyword_from(lex, 0, None) {
            Some(k) => Some(keyword_seq()[k]),
            None => None,
        }
    }
}

/// If `lexeme` is within edit distance 2 of a reserved keyword, return the
/// closest one. Used to enrich diagnostics with a "did you mean" suggestion.
pub fn suggest_keyword(lexeme: &str) -> (r: Option<String>)
    ensures
        match (r, suggestion_for(lexeme@)) {
            (Some(x), Some(y)) => x@ == y,
            (None, None) => true,
            _ => false,
        },
{
    if lexeme.is_empty() {
        return None;
    }
    let mut best: Option<(usize, usize)> = None;
    let mut i: usize = 0;
    while i < 21
        invariant
            0 <= i <= 21,
            lexeme@.len() > 0,
            best_keyword_from(lexeme@, 0, None) == best_keyword_from(
                lexeme@,
                i as int,
                match best {
                    Some((k, d)) => Some((k as int, d as nat)),
                    None => None,
                },
            ),
            best matches Some((k, _)) ==> k < 21,
        decreases 21 - i,
    {
        let d = levenshtein(lexeme, keyword_at(i));
        let improves = d <= 2 && match best {
            Some((_, bd)) => d < bd,
            None => true,
        };
        if improves {
            best = Some((i, d));
        }
        i = i + 1;
    }
    match best {
        Some((k, _)) => Some(string_of(keyword_at(k))),
        None => None,
    }
}

/// The keyword suggested for `lex`, given the keywords scanned before `i`.
proof fn lemma_best_keyword(lex: Seq<char>, i: int, best: Option<(int, nat)>)
    requires
        0 <= i <= 21,
        best matches Some((k, bd)) ==> {
            &&& 0 <= k < i
            &&& bd == edit_distance(lex, keyword_seq()[k])
            &&& bd <= 2
            &&& forall|j: int| 0 <= j < i ==> bd <= #[trigger] edit_distance(lex, keyword_seq()[j])
            &&& forall|j: int| 0 <= j < k ==> bd < #[trigger] edit_distance(lex, keyword_seq()[j])
        },
        best is None ==> forall|j: int| 0 <= j < i ==> #[trigger] edit_distance(lex, keyword_seq()[j]) > 2,
    ensures
        best_keyword_from(lex, i, best) matches Some(k) ==> {
            &&& 0 <= k < 21
            &&& edit_distance(lex, keyword_seq()[k]) <= 2
            &&& forall|j: int| 0 <= j < 21 ==> edit_distance(lex, keyword_seq()[k]) <= #[trigger] edit_distance(lex, keyword_seq()[j])
            &&& forall|j: int| 0 <= j < k ==> edit_distance(lex, keyword_seq()[k]) < #[trigger] edit_distance(lex, keyword_seq()[j])
        },
        best_keyword_from(lex, i, best) is None ==> forall|j: int| 0 <= j < 21 ==> #[trigger] edit_distance(lex, keyword_seq()[j]) > 2,
    decreases 21 - i,
{
    if i < 21 {
        let d = edit_distance(lex, keyword_seq()[i]);
        let improves = d <= 2 && match best {
            Some((_, bd)) => d < bd,
            None => true,
        };
        let next = if improves { Some((i, d)) } else { best };
        lemma_best_keyword(lex, i + 1, next);
    }
}

/// The suggestion is a keyword within edit distance 2 of the lexeme, no
/// keyword is closer, and every keyword before it in the list is farther;
/// without a suggestion, every keyword is farther than 2 from a non-empty
/// lexeme.
pub proof fn law_suggestion_is_closest(lex: Seq<char>)
    ensures
        suggestion_for(lex) matches Some(w) ==> exists|i: int| {
            &&& 0 <= i < 21
            &&& w == #[trigger] keyword_seq()[i]
            &&& edit_distance(lex, w) <= 2
            &&& forall|j: int| 0 <= j < 21 ==> edit_distance(lex, w) <= #[trigger] edit_distance(lex, keyword_seq()[j])
            &&& forall|j: int| 0 <= j < i ==> edit_distance(lex, w) < #[trigger] edit_distance(lex, keyword_seq()[j])
        },
        lex.len() > 0 && suggestion_for(lex) is None ==> forall|j: int|
            0 <= j < 21 ==> #[trigger] edit_distance(lex, keyword_seq()[j]) > 2,
{
    lemma_best_keyword(lex, 0, None);
    if lex.len() > 0 {
        if let Some(k) = best_keyword_from(lex, 0, None) {
            assert(keyword_seq()[k] == keyword_seq()[k]);
        }
    }
}

// ---------------------------------------------------------------------------
// Laws of the lexical pass.
// ---------------------------------------------------------------------------

/// Properties that every partial scan keeps: no `Eof` among the tokens,
/// identifiers and numbers point at the table entry holding their lexeme,
/// other tokens point nowhere, and the table holds each lexeme once.
pub open spec fn scan_inv(acc: LexOutcome) -> bool {
    &&& forall|i: int| 0 <= i < acc.tokens.len() ==> (#[trigger] acc.tokens[i]).class
        != TokenClass::Eof
    &&& forall|i: int| 0 <= i < acc.tokens.len() ==> interned_ok(#[trigger] acc.tokens[i], acc.symbols)
    &&& forall|i: int, j: int|
        0 <= i < j < acc.symbols.len() ==> (#[trigger] acc.symbols[i]).lexeme
            != (#[trigger] acc.symbols[j]).lexeme
}

/// An identifier or number refers to the entry holding its lexeme; any
/// other token refers to no entry.
pub open spec fn interned_ok(t: TokenV, syms: Seq<SymbolEntryV>) -> bool {
    if t.class == TokenClass::Id || t.class == TokenClass::Number {
        t.symbol matches Some(k) && k < syms.len() && syms[k as int].lexeme == t.lexeme
    } else {
        t.symbol is None
    }
}

proof fn lemma_find_lexeme(syms: Seq<SymbolEntryV>, lex: Seq<char>, i: int)
    requires
        0 <= i,
    ensures
        find_lexeme_from(syms, lex, i) == -1 || (i <= find_lexeme_from(syms, lex, i) < syms.len()
            && syms[find_lexeme_from(syms, lex, i)].lexeme == lex),
        find_lexeme_from(syms, lex, i) == -1 ==> forall|k: int|
            i <= k < syms.len() ==> (#[trigger] syms[k]).lexeme != lex,
    decreases syms.len() - i,
{
    if i < syms.len() && syms[i].lexeme != lex {
        lemma_find_lexeme(syms, lex, i + 1);
    }
}

proof fn lemma_push_token_inv(s: Seq<char>, acc: LexOutcome, class: TokenClass, p: int, e: int)
    requires
        scan_inv(acc),
        class != TokenClass::Eof,
        acc.symbols.len() <= p < e <= s.len() < usize::MAX,
    ensures
        scan_inv(push_token(s, acc, class, p, e)),
        push_token(s, acc, class, p, e).errors == acc.errors,
        push_token(s, acc, class, p, e).symbols.len() <= e,
{
    let r = push_token(s, acc, class, p, e);
    let lex = s.subrange(p, e);
    if class == TokenClass::Id || class == TokenClass::Number {
        lemma_find_lexeme(acc.symbols, lex, 0);
        let (syms, idx) = intern_spec(
            acc.symbols,
            lex,
            if class == TokenClass::Id { SymbolKind::Variable } else { SymbolKind::Number },
            line_col(s, p).0,
            line_col(s, p).1,
        );
        assert forall|i: int| 0 <= i < r.tokens.len() implies interned_ok(
            #[trigger] r.tokens[i],
            r.symbols,
        ) by {
            if i < acc.tokens.len() {
                assert(r.tokens[i] == acc.tokens[i]);
                assert(interned_ok(acc.tokens[i], acc.symbols));
            }
        }
        assert forall|i: int, j: int| 0 <= i < j < r.symbols.len() implies (
        #[trigger] r.symbols[i]).lexeme != (#[trigger] r.symbols[j]).lexeme by {
            if j == acc.symbols.len() {
                assert(r.symbols[i] == acc.symbols[i]);
            } else {
                assert(r.symbols[i] == acc.symbols[i]);
                assert(r.symbols[j] == acc.symbols[j]);
            }
        }
    } else {
        assert forall|i: int| 0 <= i < r.tokens.len() implies interned_ok(
            #[trigger] r.tokens[i],
            r.symbols,
        ) by {
            if i < acc.tokens.len() {
                assert(r.tokens[i] == acc.tokens[i]);
            }
        }
    }
}

proof fn lemma_lex_from_inv(s: Seq<char>, p: int, fail_fast: bool, acc: LexOutcome)
    requires
        scan_inv(acc),
        fail_fast ==> acc.errors.len() == 0,
        0 <= p <= s.len() < usize::MAX,
        acc.symbols.len() <= p,
    ensures
        scan_inv(lex_from(s, p, fail_fast, acc)),
        fail_fast ==> lex_from(s, p, fail_fast, acc).errors.len() <= 1,
        0 <= p <= s.len() ==> p <= lex_from(s, p, fail_fast, acc).end <= s.len(),
    decreases s.len() - p,
{
    if p < 0 || p > s.len() {
    } else {
        lemma_skip_trivia(s, p);
        let (q, unclosed) = skip_trivia(s, p);
        match unclosed {
            Some(st) => {},
            None => if q >= s.len() {
            } else {
                let c = s[q];
                if is_alphabetic_char(c) {
                    lemma_word_end(s, q);
                    lemma_word_end(s, q + 1);
                    let e = word_end(s, q);
                    let class = if is_keyword_lexeme(s.subrange(q, e)) {
                        TokenClass::Keyword
                    } else {
                        TokenClass::Id
                    };
                    lemma_push_token_inv(s, acc, class, q, e);
                    lemma_lex_from_inv(s, e, fail_fast, push_token(s, acc, class, q, e));
                } else if is_digit(c) {
                    lemma_number_end(s, q);
                    lemma_number_end(s, q + 1);
                    let e1 = number_end(s, q);
                    if e1 < s.len() && (is_alphabetic_char(s[e1]) || s[e1] == '_') {
                        lemma_word_end(s, e1);
                        let e2 = word_end(s, e1);
                        let acc2 = push_error(
                            acc,
                            lex_error(s, q, malformed_msg(s.subrange(q, e2))),
                        );
                        if !fail_fast {
                            lemma_lex_from_inv(s, e2, fail_fast, acc2);
                        }
                    } else {
                        lemma_push_token_inv(s, acc, TokenClass::Number, q, e1);
                        lemma_lex_from_inv(
                            s,
                            e1,
                            fail_fast,
                            push_token(s, acc, TokenClass::Number, q, e1),
                        );
                    }
                } else {
                    match symbolic_at(s, q) {
                        Some((n, class)) => {
                            lemma_push_token_inv(s, acc, class, q, q + n);
                            lemma_lex_from_inv(
                                s,
                                q + n,
                                fail_fast,
                                push_token(s, acc, class, q, q + n),
                            );
                        },
                        None => {
                            let acc2 = push_error(acc, lex_error(s, q, unrecognized_msg(c)));
                            if !fail_fast {
                                lemma_lex_from_inv(s, q + 1, fail_fast, acc2);
                            }
                        },
                    }
                }
            },
        }
    }
}

/// The token stream ends with the single `Eof` token, placed at the position
/// where scanning stopped; in fail-fast mode at most one error is reported;
/// every identifier and number points at the one table entry holding its
/// lexeme (so equal lexemes share an entry), and other tokens point nowhere.
pub proof fn law_tokenize_shape(s: Seq<char>, fail_fast: bool)
    requires
        s.len() < usize::MAX,
    ensures
        ({
            let r = spec_tokenize(s, fail_fast);
            &&& r.tokens.len() >= 1
            &&& r.tokens.last().class == TokenClass::Eof
            &&& r.tokens.last().lexeme == Seq::<char>::empty()
            &&& forall|i: int| 0 <= i < r.tokens.len() - 1 ==> (#[trigger] r.tokens[i]).class
                != TokenClass::Eof
            &&& forall|i: int| 0 <= i < r.tokens.len() ==> interned_ok(#[trigger] r.tokens[i], r.symbols)
            &&& forall|i: int, j: int|
                0 <= i < j < r.symbols.len() ==> (#[trigger] r.symbols[i]).lexeme
                    != (#[trigger] r.symbols[j]).lexeme
            &&& fail_fast ==> r.errors.len() <= 1
        }),
{
    lemma_lex_from_inv(s, 0, fail_fast, empty_outcome());
    let r0 = lex_from(s, 0, fail_fast, empty_outcome());
    let r = spec_tokenize(s, fail_fast);
    assert forall|i: int| 0 <= i < r.tokens.len() implies interned_ok(
        #[trigger] r.tokens[i],
        r.symbols,
    ) by {
        if i < r0.tokens.len() {
            assert(r.tokens[i] == r0.tokens[i]);
        }
    }
    assert forall|i: int| 0 <= i < r.tokens.len() - 1 implies (#[trigger] r.tokens[i]).class
        != TokenClass::Eof by {
        assert(r.tokens[i] == r0.tokens[i]);
    }
}

/// Two identifier or number tokens of one scan share a table entry exactly
/// when their lexemes are equal.
pub proof fn law_same_lexeme_same_entry(s: Seq<char>, fail_fast: bool, i: int, j: int)
    requires
        s.len() < usize::MAX,
        ({
            let r = spec_tokenize(s, fail_fast);
            &&& 0 <= i < r.tokens.len()
            &&& 0 <= j < r.tokens.len()
            &&& (r.tokens[i].class == TokenClass::Id || r.tokens[i].class == TokenClass::Number)
            &&& (r.tokens[j].class == TokenClass::Id || r.tokens[j].class == TokenClass::Number)
        }),
    ensures
        ({
            let r = spec_tokenize(s, fail_fast);
            (r.tokens[i].symbol == r.tokens[j].symbol) <==> (r.tokens[i].lexeme
                == r.tokens[j].lexeme)
        }),
{
    law_tokenize_shape(s, fail_fast);
    let r = spec_tokenize(s, fail_fast);
    assert(interned_ok(r.tokens[i], r.symbols));
    assert(interned_ok(r.tokens[j], r.symbols));
    let ki = r.tokens[i].symbol->0 as int;
    let kj = r.tokens[j].symbol->0 as int;
    if ki < kj {
        assert(r.symbols[ki].lexeme != r.symbols[kj].lexeme);
    } else if kj < ki {
        assert(r.symbols[kj].lexeme != r.symbols[ki].lexeme);
    }
}

/// `r` continues `acc`: what was produced before stays, in order.
pub open spec fn continues(acc: LexOutcome, r: LexOutcome) -> bool {
    &&& acc.tokens.len() <= r.tokens.len()
    &&& r.tokens.subrange(0, acc.tokens.len() as int) == acc.tokens
    &&& acc.errors.len() <= r.errors.len()
    &&& r.errors.subrange(0, acc.errors.len() as int) == acc.errors
}

proof fn lemma_lex_from_continues(s: Seq<char>, p: int, fail_fast: bool, acc: LexOutcome)
    ensures
        continues(acc, lex_from(s, p, fail_fast, acc)),
    decreases s.len() - p,
{
    let r = lex_from(s, p, fail_fast, acc);
    if p < 0 || p > s.len() {
        assert(r.tokens.subrange(0, acc.tokens.len() as int) =~= acc.tokens);
        assert(r.errors.subrange(0, acc.errors.len() as int) =~= acc.errors);
    } else {
        lemma_skip_trivia(s, p);
        let (q, unclosed) = skip_trivia(s, p);
        let next = match unclosed {
            Some(st) => None,
            None => if q >= s.len() {
                None
            } else {
                let c = s[q];
                if is_alphabetic_char(c) {
                    lemma_word_end(s, q);
                    lemma_word_end(s, q + 1);
                    let e = word_end(s, q);
                    let class = if is_keyword_lexeme(s.subrange(q, e)) {
                        TokenClass::Keyword
                    } else {
                        TokenClass::Id
                    };
                    Some((e, push_token(s, acc, class, q, e)))
                } else if is_digit(c) {
                    lemma_number_end(s, q);
                    lemma_number_end(s, q + 1);
                    let e1 = number_end(s, q);
                    if e1 < s.len() && (is_alphabetic_char(s[e1]) || s[e1] == '_') {
                        lemma_word_end(s, e1);
                        let e2 = word_end(s, e1);
                        let acc2 = push_error(acc, lex_error(s, q, malformed_msg(s.subrange(q, e2))));
                        if fail_fast {
                            None
                        } else {
                            Some((e2, acc2))
                        }
                    } else {
                        Some((e1, push_token(s, acc, TokenClass::Number, q, e1)))
                    }
                } else {
                    match symbolic_at(s, q) {
                        Some((n, class)) => Some((q + n, push_token(s, acc, class, q, q + n))),
                        None => {
                            let acc2 = push_error(acc, lex_error(s, q, unrecognized_msg(c)));
                            if fail_fast {
                                None
                            } else {
                                Some((q + 1, acc2))
                            }
                        },
                    }
                }
            },
        };
        match next {
            Some((e, acc2)) => {
                assert(continues(acc, acc2)) by {
                    assert(acc2.tokens.subrange(0, acc.tokens.len() as int) =~= acc.tokens);
                    assert(acc2.errors.subrange(0, acc.errors.len() as int) =~= acc.errors);
                }
                lemma_lex_from_continues(s, e, fail_fast, acc2);
                assert(r.tokens.subrange(0, acc.tokens.len() as int) =~= acc.tokens) by {
                    assert(r.tokens.subrange(0, acc.tokens.len() as int) =~= r.tokens.subrange(
                        0,
                        acc2.tokens.len() as int,
                    ).subrange(0, acc.tokens.len() as int));
                }
                assert(r.errors.subrange(0, acc.errors.len() as int) =~= acc.errors) by {
                    assert(r.errors.subrange(0, acc.errors.len() as int) =~= r.errors.subrange(
                        0,
                        acc2.errors.len() as int,
                    ).subrange(0, acc.errors.len() as int));
                }
            },
            None => {
                assert(r.tokens.subrange(0, acc.tokens.len() as int) =~= acc.tokens);
                assert(r.errors.subrange(0, acc.errors.len() as int) =~= acc.errors);
            },
        }
    }
}

/// From the same error-free state, the fail-fast scan and the full scan run
/// alike until the first error, where the fail-fast scan stops.
proof fn lemma_fail_fast_from(s: Seq<char>, p: int, acc: LexOutcome)
    requires
        acc.errors.len() == 0,
    ensures
        ({
            let t = lex_from(s, p, true, acc);
            let f = lex_from(s, p, false, acc);
            &&& f.errors.len() == 0 ==> t == f
            &&& f.errors.len() > 0 ==> t.errors == seq![f.errors[0]]
            &&& t.tokens.len() <= f.tokens.len()
            &&& f.tokens.subrange(0, t.tokens.len() as int) == t.tokens
        }),
    decreases s.len() - p,
{
    let t = lex_from(s, p, true, acc);
    let f = lex_from(s, p, false, acc);
    if p < 0 || p > s.len() {
        assert(f.tokens.subrange(0, t.tokens.len() as int) =~= t.tokens);
    } else {
        lemma_skip_trivia(s, p);
        let (q, unclosed) = skip_trivia(s, p);
        match unclosed {
            Some(st) => {
                assert(f.tokens.subrange(0, t.tokens.len() as int) =~= t.tokens);
            },
            None => if q >= s.len() {
                assert(f.tokens.subrange(0, t.tokens.len() as int) =~= t.tokens);
            } else {
                let c = s[q];
                if is_alphabetic_char(c) {
                    lemma_word_end(s, q);
                    lemma_word_end(s, q + 1);
                    let e = word_end(s, q);
                    let class = if is_keyword_lexeme(s.subrange(q, e)) {
                        TokenClass::Keyword
                    } else {
                        TokenClass::Id
                    };
                    lemma_fail_fast_from(s, e, push_token(s, acc, class, q, e));
                } else if is_digit(c) {
                    lemma_number_end(s, q);
                    lemma_number_end(s, q + 1);
                    let e1 = number_end(s, q);
                    if e1 < s.len() && (is_alphabetic_char(s[e1]) || s[e1] == '_') {
                        lemma_word_end(s, e1);
                        let e2 = word_end(s, e1);
                        let acc2 = push_error(acc, lex_error(s, q, malformed_msg(s.subrange(q, e2))));
                        lemma_lex_from_continues(s, e2, false, acc2);
                        assert(f.errors[0] == acc2.errors[0]) by {
                            assert(f.errors.subrange(0, 1)[0] == f.errors[0]);
                        }
                        assert(t.errors =~= seq![f.errors[0]]);
                        assert(f.tokens.subrange(0, t.tokens.len() as int) =~= t.tokens);
                    } else {
                        lemma_fail_fast_from(s, e1, push_token(s, acc, TokenClass::Number, q, e1));
                    }
                } else {
                    match symbolic_at(s, q) {
                        Some((n, class)) => {
                            lemma_fail_fast_from(s, q + n, push_token(s, acc, class, q, q + n));
                        },
                        None => {
                            let acc2 = push_error(acc, lex_error(s, q, unrecognized_msg(c)));
                            lemma_lex_from_continues(s, q + 1, false, acc2);
                            assert(f.errors[0] == acc2.errors[0]) by {
                                assert(f.errors.subrange(0, 1)[0] == f.errors[0]);
                            }
                            assert(t.errors =~= seq![f.errors[0]]);
                            assert(f.tokens.subrange(0, t.tokens.len() as int) =~= t.tokens);
                        },
                    }
                }
            },
        }
    }
}

/// Fail-fast mode stops at the first lexical error: it reports exactly the
/// first error that the full scan reports, the tokens before it are those
/// of the full scan, and on a source without lexical errors both modes give
/// the same result.
pub proof fn law_fail_fast_stops_at_first_error(s: Seq<char>)
    ensures
        ({
            let full = spec_tokenize(s, false);
            let ff = spec_tokenize(s, true);
            &&& full.errors.len() == 0 ==> ff == full
            &&& full.errors.len() > 0 ==> ff.errors == seq![full.errors[0]]
            &&& ff.tokens.len() <= full.tokens.len()
            &&& forall|i: int| 0 <= i < ff.tokens.len() - 1 ==> #[trigger] ff.tokens[i] == full.tokens[i]
        }),
{
    lemma_fail_fast_from(s, 0, empty_outcome());
    let t = lex_from(s, 0, true, empty_outcome());
    let f = lex_from(s, 0, false, empty_outcome());
    let full = spec_tokenize(s, false);
    let ff = spec_tokenize(s, true);
    assert forall|i: int| 0 <= i < ff.tokens.len() - 1 implies #[trigger] ff.tokens[i] == full.tokens[i] by {
        assert(ff.tokens[i] == t.tokens[i]);
        assert(f.tokens.subrange(0, t.tokens.len() as int)[i] == f.tokens[i]);
    }
}

pub proof fn lemma_line_col_bounds(s: Seq<char>, p: int)
    requires
        0 <= p,
    ensures
        1 <= line_col(s, p).0 <= p + 1,
        1 <= line_col(s, p).1 <= p + 1,
    decreases p,
{
    if p > 0 {
        lemma_line_col_bounds(s, p - 1);
    }
}

} // verus!
