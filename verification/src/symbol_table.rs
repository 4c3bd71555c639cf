//! Scoped symbol table populated during syntactic analysis.
//!
//! It records the semantic symbols of the program — classes, fields, methods,
//! parameters and locals — with their declared type and the scope they belong
//! to, and is printed by the `--symbols` flag.
//!
//! The table is also the address space of the three-address code: every 3AC
//! operand is an index into `entries`. A lookup of `(scope, name)` finds the
//! entry added last for that pair; `new_temp` / `new_label` insert the
//! compiler-generated temporaries (`t0`, `t1`, ...) and labels (`L0`, `L1`,
//! ...), and literals referenced by instructions are interned by
//! `intern_const`.

use vstd::prelude::*;
use crate::text::{
    cat2, decimal, decimal_string, digit_char, pad_left, pad_right, push_char, push_padded_left,
    push_padded_right, str_eq, string_of,
};

verus! {

broadcast use vstd::string::group_string_axioms;

/// Index of an entry in the symbol table; how 3AC instructions refer to their
/// operands and results.
pub type SymRef = usize;

#[derive(Debug, Clone, Copy, PartialEq, Eq, Structural)]
pub enum Category {
    Class,
    Field,
    Method,
    Param,
    Local,
    MainArg,
    /// Compiler-generated temporary holding an intermediate 3AC result.
    Temp,
    /// Compiler-generated jump target for 3AC control flow.
    Label,
    /// Interned literal (`42`, `true`, `false`, `this`) referenced by 3AC.
    Const,
}

pub open spec fn category_label(c: Category) -> Seq<char> {
    match c {
        Category::Class => "class"@,
        Category::Field => "field"@,
        Category::Method => "method"@,
        Category::Param => "param"@,
        Category::Local => "local"@,
        Category::MainArg => "main-arg"@,
        Category::Temp => "temp"@,
        Category::Label => "label"@,
        Category::Const => "const"@,
    }
}

impl Category {
    fn label(&self) -> (r: &'static str)
        ensures
            r@ == category_label(*self),
    {
        match self {
            Category::Class => "class",
            Category::Field => "field",
            Category::Method => "method",
            Category::Param => "param",
            Category::Local => "local",
            Category::MainArg => "main-arg",
            Category::Temp => "temp",
            Category::Label => "label",
            Category::Const => "const",
        }
    }
}

#[derive(Debug)]
pub struct Entry {
    /// Fully-qualified scope, e.g. `global`, `global::BBS`, `global::BBS::Sort`.
    pub scope: String,
    pub name: String,
    pub category: Category,
    /// Type display: declared type for variables, return type for methods,
    /// parent for classes (`-` when none / not applicable).
    pub ty: String,
    pub line: usize,
    pub column: usize,
}

pub struct EntryV {
    pub scope: Seq<char>,
    pub name: Seq<char>,
    pub category: Category,
    pub ty: Seq<char>,
    pub line: int,
    pub column: int,
}

impl View for Entry {
    type V = EntryV;

    open spec fn view(&self) -> EntryV {
        EntryV {
            scope: self.scope@,
            name: self.name@,
            category: self.category,
            ty: self.ty@,
            line: self.line as int,
            column: self.column as int,
        }
    }
}

#[derive(Debug)]
pub struct SymbolTable {
    pub entries: Vec<Entry>,
    /// Number of temporaries created so far.
    pub temp_count: usize,
    /// Number of labels created so far.
    pub label_count: usize,
}

/// Model of the table: its entries and how many temporaries and labels it
/// has created.
#[verifier::ext_equal]
pub struct SymbolTableV {
    pub entries: Seq<EntryV>,
    pub temps: int,
    pub labels: int,
}

pub open spec fn entries_view(v: Seq<Entry>) -> Seq<EntryV> {
    Seq::new(v.len(), |i: int| v[i]@)
}

impl SymbolTable {
    /// Every temporary and label has its own entry, so the counters never
    /// exceed the number of entries.
    pub open spec fn wf(&self) -> bool {
        &&& self@.temps <= self@.entries.len()
        &&& self@.labels <= self@.entries.len()
    }
}

impl View for SymbolTable {
    type V = SymbolTableV;

    open spec fn view(&self) -> SymbolTableV {
        SymbolTableV {
            entries: entries_view(self.entries@),
            temps: self.temp_count as int,
            labels: self.label_count as int,
        }
    }
}

/// Index of the last entry declared for `name` directly in `scope`, if any.
pub open spec fn last_match(entries: Seq<EntryV>, scope: Seq<char>, name: Seq<char>, n: int) -> Option<
    int,
>
    decreases n,
{
    if n <= 0 {
        None
    } else if entries[n - 1].scope == scope && entries[n - 1].name == name {
        Some(n - 1)
    } else {
        last_match(entries, scope, name, n - 1)
    }
}

pub open spec fn lookup_spec(entries: Seq<EntryV>, scope: Seq<char>, name: Seq<char>) -> Option<int> {
    last_match(entries, scope, name, entries.len() as int)
}

/// Whether the separator `::` starts at `i`.
pub open spec fn sep_at(s: Seq<char>, i: int) -> bool {
    0 <= i && i + 1 < s.len() && s[i] == ':' && s[i + 1] == ':'
}

/// Start of the last `::` found by a left-to-right scan from `i` (occurrences
/// do not overlap), or `last` if there is none after `i`.
pub open spec fn last_sep_from(s: Seq<char>, i: int, last: int) -> int
    decreases s.len() - i,
{
    if i < 0 || i >= s.len() {
        last
    } else if sep_at(s, i) {
        last_sep_from(s, i + 2, i)
    } else {
        last_sep_from(s, i + 1, last)
    }
}

/// The enclosing scope of `scope` (everything before its last `::`), if any.
pub open spec fn parent_scope(scope: Seq<char>) -> Option<Seq<char>> {
    let k = last_sep_from(scope, 0, -1);
    if k < 0 {
        None
    } else {
        Some(scope.subrange(0, k))
    }
}

proof fn lemma_last_sep_from(s: Seq<char>, i: int, last: int)
    requires
        0 <= i,
        -1 <= last < i || last == -1,
        last >= 0 ==> last + 2 <= i,
    ensures
        last_sep_from(s, i, last) == last || (i <= last_sep_from(s, i, last) && last_sep_from(
            s,
            i,
            last,
        ) + 2 <= s.len()),
        last_sep_from(s, i, last) >= -1,
        last >= 0 ==> last_sep_from(s, i, last) >= 0,
    decreases s.len() - i,
{
    if i < s.len() {
        if sep_at(s, i) {
            lemma_last_sep_from(s, i + 2, i);
        } else {
            lemma_last_sep_from(s, i + 1, last);
        }
    }
}

/// Name resolution: the entry for `name` in `scope` or, failing that, in the
/// enclosing scopes, innermost first (`global::C::m`, `global::C`, `global`).
pub open spec fn resolve_spec(entries: Seq<EntryV>, scope: Seq<char>, name: Seq<char>) -> Option<int>
    decreases scope.len(),
{
    match lookup_spec(entries, scope, name) {
        Some(i) => Some(i),
        None => match parent_scope(scope) {
            Some(p) => if p.len() < scope.len() {
                resolve_spec(entries, p, name)
            } else {
                None
            },
            None => None,
        },
    }
}

/// `inner` with every `::` (left to right) replaced by `.`.
pub open spec fn dotted(s: Seq<char>) -> Seq<char>
    decreases s.len(),
{
    if s.len() == 0 {
        s
    } else if sep_at(s, 0) {
        seq!['.'] + dotted(s.subrange(2, s.len() as int))
    } else {
        seq![s[0]] + dotted(s.subrange(1, s.len() as int))
    }
}

/// Scope-qualified display name of an entry: `Fac.ComputeFac` for the entry
/// `global::Fac :: ComputeFac`; the bare name at top level.
pub open spec fn qualified_name_spec(e: EntryV) -> Seq<char> {
    let prefix = "global::"@;
    if e.scope.len() > prefix.len() && e.scope.subrange(0, prefix.len() as int) == prefix {
        dotted(e.scope.subrange(prefix.len() as int, e.scope.len() as int)) + seq!['.'] + e.name
    } else {
        e.name
    }
}

pub open spec fn add_entry(
    t: SymbolTableV,
    scope: Seq<char>,
    name: Seq<char>,
    category: Category,
    ty: Seq<char>,
    line: int,
    column: int,
) -> SymbolTableV {
    SymbolTableV {
        entries: t.entries.push(EntryV { scope, name, category, ty, line, column }),
        ..t
    }
}

/// Reference and table after interning `lexeme`: the existing `const`
/// entry, or a new one at the end.
pub open spec fn intern_result(t: SymbolTableV, lexeme: Seq<char>, ty: Seq<char>) -> (usize, SymbolTableV) {
    match lookup_spec(t.entries, "const"@, lexeme) {
        Some(i) => (i as usize, t),
        None => (
            t.entries.len() as usize,
            add_entry(t, "const"@, lexeme, Category::Const, ty, 0, 0),
        ),
    }
}

/// `resolve_spec` as a reference.
pub open spec fn resolve_ref(t: SymbolTableV, scope: Seq<char>, name: Seq<char>) -> Option<usize> {
    match resolve_spec(t.entries, scope, name) {
        Some(i) => Some(i as usize),
        None => None,
    }
}

/// Reference and table after creating the next temporary in `scope`.
pub open spec fn temp_result(t: SymbolTableV, scope: Seq<char>, ty: Seq<char>) -> (usize, SymbolTableV) {
    (
        t.entries.len() as usize,
        SymbolTableV {
            temps: t.temps + 1,
            ..add_entry(t, scope, temp_name(t.temps), Category::Temp, ty, 0, 0)
        },
    )
}

/// Reference and table after creating the next label in `scope`.
pub open spec fn label_result(t: SymbolTableV, scope: Seq<char>) -> (usize, SymbolTableV) {
    (
        t.entries.len() as usize,
        SymbolTableV {
            labels: t.labels + 1,
            ..add_entry(t, scope, label_name(t.labels), Category::Label, "-"@, 0, 0)
        },
    )
}

/// `lookup_spec` as a reference.
pub open spec fn lookup_ref(t: SymbolTableV, scope: Seq<char>, name: Seq<char>) -> Option<usize> {
    match lookup_spec(t.entries, scope, name) {
        Some(i) => Some(i as usize),
        None => None,
    }
}

/// Name of the `n`-th temporary.
pub open spec fn temp_name(n: int) -> Seq<char> {
    seq!['t'] + decimal(n as nat)
}

/// Name of the `n`-th label.
pub open spec fn label_name(n: int) -> Seq<char> {
    seq!['L'] + decimal(n as nat)
}

impl SymbolTable {
    pub fn new() -> (r: Self)
        ensures
            r@ == (SymbolTableV { entries: Seq::empty(), temps: 0, labels: 0 }),
            r.wf(),
    {
        let r = SymbolTable { entries: Vec::new(), temp_count: 0, label_count: 0 };
        assert(r@ =~= SymbolTableV { entries: Seq::empty(), temps: 0, labels: 0 });
        r
    }

    /// Records a new entry and returns its reference; a later entry for the
    /// same `(scope, name)` shadows earlier ones in lookups.
    pub fn add(
        &mut self,
        scope: &str,
        name: &str,
        category: Category,
        ty: &str,
        line: usize,
        column: usize,
    ) -> (r: SymRef)
        ensures
            final(self)@ == add_entry(
                old(self)@,
                scope@,
                name@,
                category,
                ty@,
                line as int,
                column as int,
            ),
            r == old(self)@.entries.len(),
            old(self).wf() ==> final(self).wf(),
    {
        let idx = self.entries.len();
        let ghost before = self.entries@;
        self.entries.push(
            Entry {
                scope: string_of(scope),
                name: string_of(name),
                category,
                ty: string_of(ty),
                line,
                column,
            },
        );
        assert(entries_view(self.entries@) =~= entries_view(before).push(self.entries@.last()@));
        assert(self@ =~= add_entry(
            old(self)@,
            scope@,
            name@,
            category,
            ty@,
            line as int,
            column as int,
        ));
        idx
    }

    /// Exact lookup of `name` declared directly in `scope`.
    pub fn lookup(&self, scope: &str, name: &str) -> (r: Option<SymRef>)
        ensures
            match (r, lookup_spec(self@.entries, scope@, name@)) {
                (Some(i), Some(j)) => i as int == j,
                (None, None) => true,
                _ => false,
            },
            r == lookup_ref(self@, scope@, name@),
            r matches Some(i) ==> i < self@.entries.len(),
    {
        let mut n = self.entries.len();
        while n > 0
            invariant
                n <= self.entries@.len(),
                lookup_spec(self@.entries, scope@, name@) == last_match(
                    self@.entries,
                    scope@,
                    name@,
                    n as int,
                ),
            decreases n,
        {
            let e = &self.entries[n - 1];
            if str_eq(e.scope.as_str(), scope) && str_eq(e.name.as_str(), name) {
                return Some(n - 1);
            }
            n = n - 1;
        }
        None
    }

    /// Resolve `name` starting at `scope` and walking outward through the
    /// enclosing scopes (`global::C::m` → `global::C` → `global`).
    pub fn resolve(&self, scope: &str, name: &str) -> (r: Option<SymRef>)
        ensures
            match (r, resolve_spec(self@.entries, scope@, name@)) {
                (Some(i), Some(j)) => i as int == j,
                (None, None) => true,
                _ => false,
            },
            r == resolve_ref(self@, scope@, name@),
            r matches Some(i) ==> i < self@.entries.len(),
    {
        let chars = crate::text::chars_of(scope);
        let mut len = chars.len();
        let ghost full = scope@;
        assert(full.subrange(0, len as int) =~= full);
        loop
            invariant
                len <= chars@.len(),
                chars@ == full,
                full == scope@,
                resolve_spec(self@.entries, full, name@) == resolve_spec(
                    self@.entries,
                    full.subrange(0, len as int),
                    name@,
                ),
            decreases len,
        {
            let current = crate::text::string_from_chars(vstd::slice::slice_subrange(
                chars.as_slice(),
                0,
                len,
            ));
            let ghost cur = full.subrange(0, len as int);
            assert(current@ =~= cur);
            match self.lookup(current.as_str(), name) {
                Some(i) => {
                    return Some(i);
                },
                None => {},
            }
            // Find the start of the last `::` of the current scope.
            let mut i: usize = 0;
            let mut last: Option<usize> = None;
            while i < len
                invariant
                    i <= len,
                    len <= chars@.len(),
                    chars@ == full,
                    cur == full.subrange(0, len as int),
                    last_sep_from(cur, 0, -1) == last_sep_from(
                        cur,
                        i as int,
                        match last {
                            Some(k) => k as int,
                            None => -1,
                        },
                    ),
                    last matches Some(k) ==> k + 2 <= i,
                decreases len + 1 - i,
            {
                assert(cur[i as int] == chars@[i as int]);
                if i + 1 < len {
                    assert(cur[i + 1] == chars@[i + 1]);
                }
                if i + 1 < len && chars[i] == ':' && chars[i + 1] == ':' {
                    last = Some(i);
                    i = i + 2;
                } else {
                    i = i + 1;
                }
            }
            proof {
                match last {
                    Some(k) => lemma_last_sep_from(cur, i as int, k as int),
                    None => {},
                }
            }
            match last {
                Some(k) => {
                    proof {
                        assert(full.subrange(0, k as int) =~= cur.subrange(0, k as int));
                    }
                    len = k;
                },
                None => {
                    return None;
                },
            }
        }
    }

    /// Insert a fresh compiler temporary (`t0`, `t1`, ...) into `scope` and
    /// return its reference.
    pub fn new_temp(&mut self, scope: &str, ty: &str) -> (r: SymRef)
        requires
            old(self).wf(),
        ensures
            final(self).wf(),
            final(self)@ == (SymbolTableV {
                temps: old(self)@.temps + 1,
                ..add_entry(
                    old(self)@,
                    scope@,
                    temp_name(old(self)@.temps),
                    Category::Temp,
                    ty@,
                    0,
                    0,
                )
            }),
            r == old(self)@.entries.len(),
            (r, final(self)@) == temp_result(old(self)@, scope@, ty@),
    {
        let num = decimal_string(self.temp_count);
        let name = cat2("t", num.as_str());
        proof {
            reveal_strlit("t");
            assert(name@ =~= temp_name(self@.temps));
        }
        let r = self.add(scope, name.as_str(), Category::Temp, ty, 0, 0);
        assert(self.entries.len() == self.entries@.len());
        self.temp_count = self.temp_count + 1;
        assert(self@ =~= SymbolTableV {
            temps: old(self)@.temps + 1,
            ..add_entry(
                old(self)@,
                scope@,
                temp_name(old(self)@.temps),
                Category::Temp,
                ty@,
                0,
                0,
            )
        });
        r
    }

    /// Insert a fresh label (`L0`, `L1`, ...) into `scope` and return its
    /// reference.
    pub fn new_label(&mut self, scope: &str) -> (r: SymRef)
        requires
            old(self).wf(),
        ensures
            final(self).wf(),
            final(self)@ == (SymbolTableV {
                labels: old(self)@.labels + 1,
                ..add_entry(
                    old(self)@,
                    scope@,
                    label_name(old(self)@.labels),
                    Category::Label,
                    "-"@,
                    0,
                    0,
                )
            }),
            r == old(self)@.entries.len(),
            (r, final(self)@) == label_result(old(self)@, scope@),
    {
        let num = decimal_string(self.label_count);
        let name = cat2("L", num.as_str());
        proof {
            reveal_strlit("L");
            assert(name@ =~= label_name(self@.labels));
        }
        let r = self.add(scope, name.as_str(), Category::Label, "-", 0, 0);
        assert(self.entries.len() == self.entries@.len());
        self.label_count = self.label_count + 1;
        assert(self@ =~= SymbolTableV {
            labels: old(self)@.labels + 1,
            ..add_entry(
                old(self)@,
                scope@,
                label_name(old(self)@.labels),
                Category::Label,
                "-"@,
                0,
                0,
            )
        });
        r
    }

    /// Intern a literal so 3AC instructions can reference it as an operand.
    /// Repeated literals share a single entry (scope `const`).
    pub fn intern_const(&mut self, lexeme: &str, ty: &str) -> (r: SymRef)
        ensures
            old(self).wf() ==> final(self).wf(),
            match lookup_spec(old(self)@.entries, "const"@, lexeme@) {
                Some(i) => r as int == i && final(self)@ == old(self)@,
                None => r == old(self)@.entries.len() && final(self)@ == add_entry(
                    old(self)@,
                    "const"@,
                    lexeme@,
                    Category::Const,
                    ty@,
                    0,
                    0,
                ),
            },
            (r, final(self)@) == intern_result(old(self)@, lexeme@, ty@),
            r < final(self)@.entries.len(),
    {
        match self.lookup("const", lexeme) {
            Some(idx) => idx,
            None => self.add("const", lexeme, Category::Const, ty, 0, 0),
        }
    }

    /// Display name of an entry (used when rendering 3AC instructions).
    pub fn name_of(&self, sym: SymRef) -> (r: &str)
        requires
            sym < self@.entries.len(),
        ensures
            r@ == self@.entries[sym as int].name,
    {
        self.entries[sym].name.as_str()
    }

    /// Scope-qualified display name, e.g. `Fac.ComputeFac` for the entry
    /// `global::Fac :: ComputeFac`. Falls back to the bare name at top level.
    pub fn qualified_name(&self, sym: SymRef) -> (r: String)
        requires
            sym < self@.entries.len(),
        ensures
            r@ == qualified_name_spec(self@.entries[sym as int]),
    {
        let e = &self.entries[sym];
        let scope = crate::text::chars_of(e.scope.as_str());
        let prefix = crate::text::chars_of("global::");
        proof {
            reveal_strlit("global::");
        }
        let plen = prefix.len();
        let mut has_prefix = scope.len() > plen;
        let mut i: usize = 0;
        while has_prefix && i < plen
            invariant
                i <= plen,
                plen == 8,
                prefix@.len() == plen,
                prefix@ == "global::"@,
                scope@ == e.scope@,
                has_prefix ==> scope@.len() > plen && forall|k: int|
                    0 <= k < i ==> scope@[k] == prefix@[k],
                !has_prefix ==> !(scope@.len() > plen && scope@.subrange(0, plen as int)
                    == prefix@),
            decreases plen - i,
        {
            if scope[i] != prefix[i] {
                has_prefix = false;
                assert(scope@.subrange(0, plen as int)[i as int] != prefix@[i as int]);
            }
            i = i + 1;
        }
        if has_prefix {
            assert(scope@.subrange(0, plen as int) =~= prefix@);
            let mut out = String::new();
            let mut j = plen;
            let ghost rest = scope@.subrange(plen as int, scope@.len() as int);
            while j < scope.len()
                invariant
                    plen <= j <= scope@.len(),
                    scope@ == e.scope@,
                    rest == scope@.subrange(plen as int, scope@.len() as int),
                    out@ + dotted(scope@.subrange(j as int, scope@.len() as int)) == dotted(rest),
                decreases scope@.len() - j,
            {
                let ghost tail = scope@.subrange(j as int, scope@.len() as int);
                if j + 1 < scope.len() && scope[j] == ':' && scope[j + 1] == ':' {
                    push_char(&mut out, '.');
                    assert(sep_at(tail, 0));
                    assert(tail.subrange(2, tail.len() as int) =~= scope@.subrange(
                        j + 2,
                        scope@.len() as int,
                    ));
                    j = j + 2;
                } else {
                    push_char(&mut out, scope[j]);
                    assert(!sep_at(tail, 0));
                    assert(tail.subrange(1, tail.len() as int) =~= scope@.subrange(
                        j + 1,
                        scope@.len() as int,
                    ));
                    j = j + 1;
                }
                assert(out@ + dotted(scope@.subrange(j as int, scope@.len() as int)) =~= dotted(
                    rest,
                ));
            }
            assert(scope@.subrange(j as int, scope@.len() as int) =~= Seq::<char>::empty());
            assert(out@ =~= dotted(rest));
            push_char(&mut out, '.');
            out.append(e.name.as_str());
            assert(out@ =~= qualified_name_spec(self@.entries[sym as int]));
            out
        } else {
            e.name.clone()
        }
    }
}


/// A left-aligned column of width `w`, preceded by two spaces.
pub open spec fn col_r(x: Seq<char>, w: nat) -> Seq<char> {
    "  "@ + pad_right(x, w)
}

/// A right-aligned column of width `w`, preceded by two spaces.
pub open spec fn col_l(x: Seq<char>, w: nat) -> Seq<char> {
    "  "@ + pad_left(x, w)
}

/// One line of the aligned listing (`{:<28}  {:<16}  {:<10}  {:<10}  {:>5}  {:>5}`).
pub open spec fn table_row(
    a: Seq<char>,
    b: Seq<char>,
    c: Seq<char>,
    d: Seq<char>,
    e: Seq<char>,
    f: Seq<char>,
) -> Seq<char> {
    col_r(a, 28) + col_r(b, 16) + col_r(c, 10) + col_r(d, 10) + col_l(e, 5) + col_l(f, 5)
        + seq!['\n']
}

/// The listing line of one entry; compiler-generated entries (line 0) show
/// `-` for their position.
pub open spec fn entry_row(e: EntryV) -> Seq<char> {
    if e.line == 0 {
        table_row(e.scope, e.name, category_label(e.category), e.ty, "-"@, "-"@)
    } else {
        table_row(
            e.scope,
            e.name,
            category_label(e.category),
            e.ty,
            decimal(e.line as nat),
            decimal(e.column as nat),
        )
    }
}

pub open spec fn entry_rows(es: Seq<EntryV>) -> Seq<char>
    decreases es.len(),
{
    if es.len() == 0 {
        Seq::empty()
    } else {
        entry_rows(es.drop_last()) + entry_row(es.last())
    }
}

/// The plain-text listing of the table.
pub open spec fn render_spec(es: Seq<EntryV>) -> Seq<char> {
    if es.len() == 0 {
        "symbol table: (empty)\n"@
    } else {
        "symbol table:\n"@ + table_row(
            "scope"@,
            "name"@,
            "category"@,
            "type"@,
            "line"@,
            "col"@,
        ) + entry_rows(es)
    }
}

fn push_col_r(out: &mut String, x: &str, w: usize)
    ensures
        final(out)@ == old(out)@ + col_r(x@, w as nat),
{
    out.append("  ");
    push_padded_right(out, x, w);
    assert(final(out)@ =~= old(out)@ + col_r(x@, w as nat));
}

fn push_col_l(out: &mut String, x: &str, w: usize)
    ensures
        final(out)@ == old(out)@ + col_l(x@, w as nat),
{
    out.append("  ");
    push_padded_left(out, x, w);
    assert(final(out)@ =~= old(out)@ + col_l(x@, w as nat));
}

fn push_row(out: &mut String, a: &str, b: &str, c: &str, d: &str, e: &str, f: &str)
    ensures
        final(out)@ == old(out)@ + table_row(a@, b@, c@, d@, e@, f@),
{
    let ghost o = out@;
    push_col_r(out, a, 28);
    let ghost p1 = col_r(a@, 28);
    push_col_r(out, b, 16);
    let ghost p2 = p1 + col_r(b@, 16);
    assert(out@ =~= o + p2);
    push_col_r(out, c, 10);
    let ghost p3 = p2 + col_r(c@, 10);
    assert(out@ =~= o + p3);
    push_col_r(out, d, 10);
    let ghost p4 = p3 + col_r(d@, 10);
    assert(out@ =~= o + p4);
    push_col_l(out, e, 5);
    let ghost p5 = p4 + col_l(e@, 5);
    assert(out@ =~= o + p5);
    push_col_l(out, f, 5);
    let ghost p6 = p5 + col_l(f@, 5);
    assert(out@ =~= o + p6);
    push_char(out, '\n');
    assert(out@ =~= o + (p6 + seq!['\n']));
}

impl SymbolTable {
    /// Render the table as an aligned plain-text listing.
    pub fn render(&self) -> (r: String)
        ensures
            r@ == render_spec(self@.entries),
    {
        let mut out = String::new();
        if self.entries.len() == 0 {
            out.append("symbol table: (empty)\n");
            return out;
        }
        out.append("symbol table:\n");
        push_row(&mut out, "scope", "name", "category", "type", "line", "col");
        let ghost head = out@;
        let mut i: usize = 0;
        while i < self.entries.len()
            invariant
                i <= self@.entries.len(),
                out@ == head + entry_rows(self@.entries.subrange(0, i as int)),
            decreases self@.entries.len() - i,
        {
            let e = &self.entries[i];
            if e.line == 0 {
                push_row(&mut out, e.scope.as_str(), e.name.as_str(), e.category.label(), e.ty.as_str(), "-", "-");
            } else {
                let l = decimal_string(e.line);
                let c = decimal_string(e.column);
                push_row(&mut out, e.scope.as_str(), e.name.as_str(), e.category.label(), e.ty.as_str(), l.as_str(), c.as_str());
            }
            proof {
                let es = self@.entries;
                assert(es.subrange(0, i + 1).drop_last() =~= es.subrange(0, i as int));
                assert(es.subrange(0, i + 1).last() == es[i as int]);
            }
            i = i + 1;
        }
        assert(self@.entries.subrange(0, i as int) =~= self@.entries);
        out
    }
}


// ---------------------------------------------------------------------------
// Laws of the table.
// ---------------------------------------------------------------------------

proof fn lemma_last_match_push(entries: Seq<EntryV>, e: EntryV, scope: Seq<char>, name: Seq<char>)
    ensures
        lookup_spec(entries.push(e), scope, name) == (if e.scope == scope && e.name == name {
            Some(entries.len() as int)
        } else {
            lookup_spec(entries, scope, name)
        }),
{
    let es = entries.push(e);
    if !(e.scope == scope && e.name == name) {
        lemma_last_match_prefix(es, entries, scope, name, entries.len() as int);
    }
}

proof fn lemma_last_match_prefix(
    big: Seq<EntryV>,
    small: Seq<EntryV>,
    scope: Seq<char>,
    name: Seq<char>,
    n: int,
)
    requires
        n <= small.len() <= big.len(),
        forall|k: int| 0 <= k < small.len() ==> big[k] == small[k],
    ensures
        last_match(big, scope, name, n) == last_match(small, scope, name, n),
    decreases n,
{
    if n > 0 {
        lemma_last_match_prefix(big, small, scope, name, n - 1);
    }
}

/// A lookup of `(scope, name)` right after adding an entry for it finds that
/// entry; lookups of any other pair are unaffected by the addition.
pub proof fn law_lookup_after_add(
    t: SymbolTableV,
    scope: Seq<char>,
    name: Seq<char>,
    category: Category,
    ty: Seq<char>,
    line: int,
    column: int,
    scope2: Seq<char>,
    name2: Seq<char>,
)
    ensures
        lookup_spec(add_entry(t, scope, name, category, ty, line, column).entries, scope, name)
            == Some(t.entries.len() as int),
        !(scope2 == scope && name2 == name) ==> lookup_spec(
            add_entry(t, scope, name, category, ty, line, column).entries,
            scope2,
            name2,
        ) == lookup_spec(t.entries, scope2, name2),
{
    let e = EntryV { scope, name, category, ty, line, column };
    lemma_last_match_push(t.entries, e, scope, name);
    lemma_last_match_push(t.entries, e, scope2, name2);
}

/// Interning a literal a second time gives back the entry of the first time
/// and leaves the table unchanged.
pub proof fn law_intern_const_idempotent(t: SymbolTableV, lexeme: Seq<char>, ty: Seq<char>, ty2: Seq<char>)
    requires
        lookup_spec(t.entries, "const"@, lexeme) is None,
    ensures
        ({
            let t1 = add_entry(t, "const"@, lexeme, Category::Const, ty, 0, 0);
            lookup_spec(t1.entries, "const"@, lexeme) == Some(t.entries.len() as int)
        }),
{
    law_lookup_after_add(t, "const"@, lexeme, Category::Const, ty, 0, 0, "const"@, lexeme);
}

proof fn lemma_decimal_len(n: nat)
    ensures
        decimal(n).len() >= 1,
        n >= 10 ==> decimal(n).len() >= 2,
    decreases n,
{
    if n >= 10 {
        lemma_decimal_len(n / 10);
    }
}

proof fn lemma_digit_char_injective(x: nat, y: nat)
    requires
        x < 10,
        y < 10,
        digit_char(x) == digit_char(y),
    ensures
        x == y,
{
}

/// Distinct numbers have distinct decimal representations.
pub proof fn law_decimal_injective(a: nat, b: nat)
    requires
        decimal(a) == decimal(b),
    ensures
        a == b,
    decreases a,
{
    lemma_decimal_len(a);
    lemma_decimal_len(b);
    if a >= 10 && b >= 10 {
        let da = decimal(a);
        let db = decimal(b);
        assert(da.drop_last() =~= decimal(a / 10));
        assert(db.drop_last() =~= decimal(b / 10));
        assert(da.last() == db.last());
        lemma_digit_char_injective(a % 10, b % 10);
        law_decimal_injective(a / 10, b / 10);
        assert(a == 10 * (a / 10) + a % 10);
        assert(b == 10 * (b / 10) + b % 10);
    } else if a < 10 && b < 10 {
        assert(decimal(a) == seq![digit_char(a)]);
        assert(decimal(b) == seq![digit_char(b)]);
        assert(decimal(a)[0] == digit_char(a));
        assert(decimal(b)[0] == digit_char(b));
        lemma_digit_char_injective(a, b);
    } else if a < 10 && b >= 10 {
        assert(decimal(a).len() == 1);
    } else if a >= 10 && b < 10 {
        assert(decimal(b).len() == 1);
    }
}

/// Temporaries created one after the other get distinct names, and so do
/// labels.
pub proof fn law_fresh_names_distinct(m: int, n: int)
    requires
        0 <= m,
        0 <= n,
        m != n,
    ensures
        temp_name(m) != temp_name(n),
        label_name(m) != label_name(n),
{
    if temp_name(m) == temp_name(n) {
        assert(temp_name(m).subrange(1, temp_name(m).len() as int) =~= decimal(m as nat));
        assert(temp_name(n).subrange(1, temp_name(n).len() as int) =~= decimal(n as nat));
        law_decimal_injective(m as nat, n as nat);
    }
    if label_name(m) == label_name(n) {
        assert(label_name(m).subrange(1, label_name(m).len() as int) =~= decimal(m as nat));
        assert(label_name(n).subrange(1, label_name(n).len() as int) =~= decimal(n as nat));
        law_decimal_injective(m as nat, n as nat);
    }
}

} // verus!
