//! Comment and whitespace removal ahead of lexical analysis.
//!
//! `remove_comments` drops `/* ... */` and `// ...` comments, keeping the
//! newlines inside them so line numbers survive; `remove_unnecessary_white_spaces`
//! drops every space that does not separate two words. Both keep a
//! `SourceMap` from each byte of their output back to a `(line, column)` of
//! the input text. Their results are specified by `comments_from` and
//! `spaces_from`.

use vstd::prelude::*;
use crate::text::{char_is_whitespace, char_is_word, chars_of, is_whitespace_char, is_word_char, push_char};

verus! {

broadcast use vstd::string::group_string_axioms;

#[derive(Debug, PartialEq, Eq, Structural)]
pub enum PreprocessError {
    UnclosedBlockComment { line: usize },
}

/// For each byte of a text, the `(line, column)` of the source character it
/// came from.
pub struct SourceMap {
    pub mapping: Vec<(usize, usize)>,
}

/// The position recorded for `offset`; past the end, the last one; for an
/// empty map, `(1, 1)`.
pub open spec fn map_get(m: Seq<(usize, usize)>, offset: int) -> (usize, usize) {
    if 0 <= offset < m.len() {
        m[offset]
    } else if m.len() > 0 {
        m.last()
    } else {
        (1, 1)
    }
}

impl SourceMap {
    pub fn new() -> (r: Self)
        ensures
            r.mapping@ == Seq::<(usize, usize)>::empty(),
    {
        SourceMap { mapping: Vec::new() }
    }

    pub fn get(&self, offset: usize) -> (r: (usize, usize))
        ensures
            r == map_get(self.mapping@, offset as int),
    {
        self.get_at(offset as u128)
    }

    fn get_at(&self, offset: u128) -> (r: (usize, usize))
        ensures
            r == map_get(self.mapping@, offset as int),
    {
        if offset < self.mapping.len() as u128 {
            self.mapping[offset as usize]
        } else if self.mapping.len() > 0 {
            self.mapping[self.mapping.len() - 1]
        } else {
            (1, 1)
        }
    }
}

/// Bytes of `c` in UTF-8.
pub open spec fn utf8_len(c: char) -> nat {
    if (c as u32) < 0x80 {
        1
    } else if (c as u32) < 0x800 {
        2
    } else if (c as u32) < 0x10000 {
        3
    } else {
        4
    }
}

fn char_utf8_len(c: char) -> (r: usize)
    ensures
        r == utf8_len(c),
{
    let code = c as u32;
    if code < 0x80 {
        1
    } else if code < 0x800 {
        2
    } else if code < 0x10000 {
        3
    } else {
        4
    }
}

/// Byte offset of the `i`-th character of `s`.
pub open spec fn byte_offset(s: Seq<char>, i: int) -> nat
    decreases i,
{
    if i <= 0 || i > s.len() {
        0
    } else {
        byte_offset(s, i - 1) + utf8_len(s[i - 1])
    }
}

/// `n` copies of `p`.
pub open spec fn copies(p: (usize, usize), n: nat) -> Seq<(usize, usize)> {
    Seq::new(n, |i: int| p)
}

/// What the comment remover produces: the text and its map, or the line of
/// an unclosed block comment.
pub type Stripped = Result<(Seq<char>, Seq<(usize, usize)>), usize>;

/// `out` and `map` in front of what `r` produced.
pub open spec fn prepend(out: Seq<char>, map: Seq<(usize, usize)>, r: Stripped) -> Stripped {
    match r {
        Ok((o, m)) => Ok((out + o, map + m)),
        Err(l) => Err(l),
    }
}

/// The comment remover from the `i`-th character, at `(line, col)`, outside
/// any comment.
pub open spec fn comments_from(s: Seq<char>, i: int, line: usize, col: usize) -> Stripped
    decreases s.len() - i, 0nat,
{
    if i < 0 || i >= s.len() {
        Ok((Seq::empty(), Seq::empty()))
    } else if s[i] == '/' && i + 1 < s.len() && s[i + 1] == '*' {
        block_from(s, i + 2, line, (col + 2) as usize, line)
    } else if s[i] == '/' && i + 1 < s.len() && s[i + 1] == '/' {
        line_comment_from(s, i + 2, line, (col + 2) as usize)
    } else if s[i] == '\n' {
        prepend(seq![s[i]], copies((line, col), 1), comments_from(s, i + 1, (line + 1) as usize, 1))
    } else {
        prepend(
            seq![s[i]],
            copies((line, col), utf8_len(s[i])),
            comments_from(s, i + 1, line, (col + 1) as usize),
        )
    }
}

/// Inside a block comment opened on line `start`: newlines are kept, the
/// rest is dropped up to `*/`; the end of the text leaves it unclosed.
pub open spec fn block_from(s: Seq<char>, j: int, line: usize, col: usize, start: usize) -> Stripped
    decreases s.len() - j, 1nat,
{
    if j < 0 || j >= s.len() {
        Err(start)
    } else if s[j] == '\n' {
        prepend(seq!['\n'], seq![(line, col)], block_from(s, j + 1, (line + 1) as usize, 1, start))
    } else if s[j] == '*' && j + 1 < s.len() && s[j + 1] == '/' {
        comments_from(s, j + 2, line, (col + 2) as usize)
    } else {
        block_from(s, j + 1, line, (col + 1) as usize, start)
    }
}

/// Inside a line comment: dropped up to and excluding the newline, which is
/// kept.
pub open spec fn line_comment_from(s: Seq<char>, j: int, line: usize, col: usize) -> Stripped
    decreases s.len() - j, 1nat,
{
    if j < 0 || j >= s.len() {
        Ok((Seq::empty(), Seq::empty()))
    } else if s[j] == '\n' {
        prepend(seq!['\n'], seq![(line, col)], comments_from(s, j + 1, (line + 1) as usize, 1))
    } else {
        line_comment_from(s, j + 1, line, (col + 1) as usize)
    }
}

pub open spec fn comments_spec(s: Seq<char>) -> Stripped {
    comments_from(s, 0, 1, 1)
}

pub open spec fn stripped_view(r: Result<(String, SourceMap), PreprocessError>) -> Stripped {
    match r {
        Ok((o, m)) => Ok((o@, m.mapping@)),
        Err(PreprocessError::UnclosedBlockComment { line }) => Err(line),
    }
}

/// Removes comments, keeping the newlines inside them; each byte of the
/// output is mapped to the position of its source character.
pub fn remove_comments(src: &str) -> (r: Result<(String, SourceMap), PreprocessError>)
    requires
        src@.len() + 3 < usize::MAX,
    ensures
        stripped_view(r) == comments_spec(src@),
{
    let s = chars_of(src);
    let ghost sv = s@;
    let ghost total = comments_spec(sv);
    let mut output = String::new();
    let mut mapping: Vec<(usize, usize)> = Vec::new();
    let mut line: usize = 1;
    let mut column: usize = 1;
    let mut i: usize = 0;
    assert(output@ =~= Seq::<char>::empty());
    assert(prepend(output@, mapping@, comments_from(sv, 0, 1, 1)) =~= total) by {
        match comments_from(sv, 0, 1, 1) {
            Ok((o, m)) => {
                assert(Seq::<char>::empty() + o =~= o);
                assert(Seq::<(usize, usize)>::empty() + m =~= m);
            },
            Err(_) => {},
        }
    }
    while i < s.len()
        invariant
            sv == s@,
            sv == src@,
            total == comments_spec(sv),
            sv.len() + 3 < usize::MAX,
            i <= sv.len(),
            1 <= line <= i + 1,
            1 <= column <= i + 1,
            prepend(output@, mapping@, comments_from(sv, i as int, line, column)) == total,
        decreases sv.len() - i,
    {
        let c = s[i];
        if c == '/' && i + 1 < s.len() && s[i + 1] == '*' {
            let start_line = line;
            let mut cc: usize = column + 2;
            let mut j: usize = i + 2;
            let mut closed = false;
            while j < s.len()
                invariant_except_break
                    sv == s@,
                    sv == src@,
                    total == comments_spec(sv),
                    sv.len() + 3 < usize::MAX,
                    i + 2 <= j <= sv.len(),
                    1 <= line <= j + 1,
                    1 <= cc <= j + 1,
                    !closed,
                    prepend(output@, mapping@, block_from(sv, j as int, line, cc, start_line)) == total,
                ensures
                    sv == s@,
                    sv == src@,
                    total == comments_spec(sv),
                    sv.len() + 3 < usize::MAX,
                    i + 2 <= j <= sv.len(),
                    1 <= line <= j + 1,
                    1 <= cc <= j + 1,
                    closed ==> prepend(output@, mapping@, comments_from(sv, j as int, line, cc)) == total,
                    !closed ==> j == sv.len() && prepend(output@, mapping@, block_from(sv, j as int, line, cc, start_line)) == total,
                decreases sv.len() - j,
            {
                let d = s[j];
                if d == '\n' {
                    let ghost (o0, m0) = (output@, mapping@);
                    push_char(&mut output, '\n');
                    mapping.push((line, cc));
                    proof {
                        lemma_prepend_assoc(o0, m0, seq!['\n'], seq![(line, cc)], block_from(sv, j + 1, (line + 1) as usize, 1, start_line));
                        assert(o0 + seq!['\n'] =~= output@);
                        assert(m0 + seq![(line, cc)] =~= mapping@);
                    }
                    line = line + 1;
                    cc = 1;
                    j = j + 1;
                } else if d == '*' && j + 1 < s.len() && s[j + 1] == '/' {
                    cc = cc + 2;
                    j = j + 2;
                    closed = true;
                    break;
                } else {
                    cc = cc + 1;
                    j = j + 1;
                }
            }
            if !closed {
                proof {
                    assert(block_from(sv, j as int, line, cc, start_line) == Err::<(Seq<char>, Seq<(usize, usize)>), usize>(start_line));
                    lemma_prepend_err(output@, mapping@, start_line);
                }
                return Err(PreprocessError::UnclosedBlockComment { line: start_line });
            }
            column = cc;
            i = j;
        } else if c == '/' && i + 1 < s.len() && s[i + 1] == '/' {
            let mut cc: usize = column + 2;
            let mut j: usize = i + 2;
            while j < s.len()
                invariant_except_break
                    sv == s@,
                    sv == src@,
                    total == comments_spec(sv),
                    sv.len() + 3 < usize::MAX,
                    i + 2 <= j <= sv.len(),
                    1 <= line <= j + 1,
                    1 <= cc <= j + 1,
                    prepend(output@, mapping@, line_comment_from(sv, j as int, line, cc)) == total,
                ensures
                    sv == s@,
                    sv == src@,
                    total == comments_spec(sv),
                    i + 2 <= j <= sv.len(),
                    1 <= line <= j + 1,
                    1 <= cc <= j + 1,
                    prepend(output@, mapping@, comments_from(sv, j as int, line, cc)) == total,
                decreases sv.len() - j,
            {
                let d = s[j];
                if d == '\n' {
                    let ghost (o0, m0) = (output@, mapping@);
                    push_char(&mut output, '\n');
                    mapping.push((line, cc));
                    proof {
                        lemma_prepend_assoc(o0, m0, seq!['\n'], seq![(line, cc)], comments_from(sv, j + 1, (line + 1) as usize, 1));
                        assert(o0 + seq!['\n'] =~= output@);
                        assert(m0 + seq![(line, cc)] =~= mapping@);
                    }
                    line = line + 1;
                    cc = 1;
                    j = j + 1;
                    break;
                }
                cc = cc + 1;
                j = j + 1;
            }
            column = cc;
            i = j;
        } else {
            let ghost (o0, m0) = (output@, mapping@);
            push_char(&mut output, c);
            let n = char_utf8_len(c);
            let mut k: usize = 0;
            while k < n
                invariant
                    k <= n,
                    n == utf8_len(c),
                    mapping@ == m0 + copies((line, column), k as nat),
                decreases n - k,
            {
                mapping.push((line, column));
                k = k + 1;
                assert(mapping@ =~= m0 + copies((line, column), k as nat));
            }
            proof {
                if c == '\n' {
                    lemma_prepend_assoc(o0, m0, seq![c], copies((line, column), 1), comments_from(sv, i + 1, (line + 1) as usize, 1));
                } else {
                    lemma_prepend_assoc(o0, m0, seq![c], copies((line, column), utf8_len(c)), comments_from(sv, i + 1, line, (column + 1) as usize));
                }
                assert(o0 + seq![c] =~= output@);
            }
            if c == '\n' {
                line = line + 1;
                column = 1;
            } else {
                column = column + 1;
            }
            i = i + 1;
        }
    }
    proof {
        assert(output@ + Seq::<char>::empty() =~= output@);
        assert(mapping@ + Seq::<(usize, usize)>::empty() =~= mapping@);
    }
    Ok((output, SourceMap { mapping }))
}

proof fn lemma_prepend_assoc(
    o0: Seq<char>,
    m0: Seq<(usize, usize)>,
    o1: Seq<char>,
    m1: Seq<(usize, usize)>,
    r: Stripped,
)
    ensures
        prepend(o0, m0, prepend(o1, m1, r)) == prepend(o0 + o1, m0 + m1, r),
{
    match r {
        Ok((o, m)) => {
            assert(o0 + (o1 + o) =~= o0 + o1 + o);
            assert(m0 + (m1 + m) =~= m0 + m1 + m);
        },
        Err(_) => {},
    }
}

proof fn lemma_prepend_err(o: Seq<char>, m: Seq<(usize, usize)>, l: usize)
    ensures
        prepend(o, m, Err(l)) == Err::<(Seq<char>, Seq<(usize, usize)>), usize>(l),
{
}

// -------------------------------------------------------------------------
// Whitespace.
// -------------------------------------------------------------------------

/// A whitespace character other than the newline.
pub open spec fn is_blank(c: char) -> bool {
    is_whitespace_char(c) && c != '\n'
}

/// The end of the run of blanks that starts at `j`.
pub open spec fn blank_run_end(s: Seq<char>, j: int) -> int
    decreases s.len() - j,
{
    if 0 <= j < s.len() && is_blank(s[j]) {
        blank_run_end(s, j + 1)
    } else {
        j
    }
}

/// The run of blanks from `j` ends at or after `j`, within the text, at a
/// character that is not blank.
pub proof fn lemma_blank_run_end(s: Seq<char>, j: int)
    requires
        0 <= j,
    ensures
        j <= blank_run_end(s, j),
        j <= s.len() ==> blank_run_end(s, j) <= s.len(),
        forall|k: int| j <= k < blank_run_end(s, j) ==> is_blank(#[trigger] s[k]),
        blank_run_end(s, j) < s.len() ==> !is_blank(s[blank_run_end(s, j)]),
    decreases s.len() - j,
{
    if 0 <= j < s.len() && is_blank(s[j]) {
        lemma_blank_run_end(s, j + 1);
    }
}

/// The whitespace remover from the `i`-th character: a run of blanks becomes
/// one space when it separates two words and disappears otherwise; every
/// other character is kept. Each output byte maps to the position `m` gives
/// the byte of its source character.
pub open spec fn spaces_from(s: Seq<char>, m: Seq<(usize, usize)>, i: int) -> (Seq<char>, Seq<(usize, usize)>)
    decreases s.len() - i,
{
    if i < 0 || i >= s.len() {
        (Seq::empty(), Seq::empty())
    } else if is_blank(s[i]) {
        let j = blank_run_end(s, i + 1);
        proof {
            lemma_blank_run_end(s, i + 1);
        }
        let rest = spaces_from(s, m, j);
        if i > 0 && is_word_char(s[i - 1]) && j < s.len() && is_word_char(s[j]) {
            (seq![' '] + rest.0, seq![map_get(m, byte_offset(s, i) as int)] + rest.1)
        } else {
            rest
        }
    } else {
        let rest = spaces_from(s, m, i + 1);
        (
            seq![s[i]] + rest.0,
            copies(map_get(m, byte_offset(s, i) as int), utf8_len(s[i])) + rest.1,
        )
    }
}

pub open spec fn spaces_spec(s: Seq<char>, m: Seq<(usize, usize)>) -> (Seq<char>, Seq<(usize, usize)>) {
    spaces_from(s, m, 0)
}

proof fn lemma_byte_offset_bound(s: Seq<char>, i: int)
    requires
        0 <= i <= s.len(),
    ensures
        byte_offset(s, i) <= 4 * i,
    decreases i,
{
    if i > 0 {
        lemma_byte_offset_bound(s, i - 1);
    }
}

/// Drops every run of blanks (whitespace other than newlines) except one
/// space between two words; `incoming_map` maps the bytes of `src`.
pub fn remove_unnecessary_white_spaces(src: &str, incoming_map: SourceMap) -> (r: (String, SourceMap))
    ensures
        r.0@ == spaces_spec(src@, incoming_map.mapping@).0,
        r.1.mapping@ == spaces_spec(src@, incoming_map.mapping@).1,
{
    let s = chars_of(src);
    let ghost sv = s@;
    let ghost m = incoming_map.mapping@;
    let ghost total = spaces_spec(sv, m);
    let mut output = String::new();
    let mut mapping: Vec<(usize, usize)> = Vec::new();
    let mut i: usize = 0;
    let mut off: u128 = 0;
    assert(output@ + total.0 =~= total.0);
    assert(mapping@ + total.1 =~= total.1);
    while i < s.len()
        invariant
            sv == s@,
            sv == src@,
            m == incoming_map.mapping@,
            total == spaces_spec(sv, m),
            i <= sv.len(),
            off == byte_offset(sv, i as int),
            output@ + spaces_from(sv, m, i as int).0 == total.0,
            mapping@ + spaces_from(sv, m, i as int).1 == total.1,
        decreases sv.len() - i,
    {
        proof {
            lemma_byte_offset_bound(sv, i + 1);
        }
        let c = s[i];
        if char_is_whitespace(c) && c != '\n' {
            let mut j: usize = i + 1;
            let mut offj: u128 = off + char_utf8_len(c) as u128;
            proof {
                lemma_blank_run_end(sv, i + 1);
            }
            while j < s.len() && char_is_whitespace(s[j]) && s[j] != '\n'
                invariant
                    sv == s@,
                    i < j <= sv.len(),
                    offj == byte_offset(sv, j as int),
                    blank_run_end(sv, j as int) == blank_run_end(sv, i + 1),
                decreases sv.len() - j,
            {
                proof {
                    lemma_byte_offset_bound(sv, j + 1);
                }
                offj = offj + char_utf8_len(s[j]) as u128;
                j = j + 1;
            }
            let prev_word = i > 0 && char_is_word(s[i - 1]);
            let next_word = j < s.len() && char_is_word(s[j]);
            let ghost (o0, m0) = (output@, mapping@);
            if prev_word && next_word {
                push_char(&mut output, ' ');
                mapping.push(incoming_map.get_at(off));
                assert(output@ =~= o0 + seq![' ']);
                assert(mapping@ =~= m0 + seq![map_get(m, byte_offset(sv, i as int) as int)]);
            }
            proof {
                let rest = spaces_from(sv, m, j as int);
                assert(output@ + rest.0 =~= total.0);
                assert(mapping@ + rest.1 =~= total.1);
            }
            i = j;
            off = offj;
        } else {
            let ghost (o0, m0) = (output@, mapping@);
            push_char(&mut output, c);
            let pos = incoming_map.get_at(off);
            let n = char_utf8_len(c);
            let mut k: usize = 0;
            while k < n
                invariant
                    k <= n,
                    mapping@ == m0 + copies(pos, k as nat),
                decreases n - k,
            {
                mapping.push(pos);
                k = k + 1;
                assert(mapping@ =~= m0 + copies(pos, k as nat));
            }
            proof {
                let rest = spaces_from(sv, m, i + 1);
                assert(output@ + rest.0 =~= total.0);
                assert(mapping@ + rest.1 =~= total.1);
            }
            off = off + n as u128;
            i = i + 1;
        }
    }
    assert(output@ =~= total.0);
    assert(mapping@ =~= total.1);
    (output, SourceMap { mapping })
}

/// Both passes: comments, then whitespace.
pub open spec fn preprocess_spec(s: Seq<char>) -> Stripped {
    match comments_spec(s) {
        Ok((o, m)) => Ok(spaces_spec(o, m)),
        Err(l) => Err(l),
    }
}

pub fn preprocess(src: &str) -> (r: Result<(String, SourceMap), PreprocessError>)
    requires
        src@.len() + 3 < usize::MAX,
    ensures
        stripped_view(r) == preprocess_spec(src@),
{
    let (output, map) = remove_comments(src)?;
    let (output, map) = remove_unnecessary_white_spaces(output.as_str(), map);
    Ok((output, map))
}

// -------------------------------------------------------------------------
// Laws.
// -------------------------------------------------------------------------

/// How many newlines `s` holds.
pub open spec fn newlines(s: Seq<char>) -> nat
    decreases s.len(),
{
    if s.len() == 0 {
        0
    } else {
        (if s[0] == '\n' { 1nat } else { 0nat }) + newlines(s.drop_first())
    }
}

/// How many bytes `s` takes in UTF-8.
pub open spec fn utf8_size(s: Seq<char>) -> nat
    decreases s.len(),
{
    if s.len() == 0 {
        0
    } else {
        utf8_len(s[0]) + utf8_size(s.drop_first())
    }
}

/// The text and map that a pass produced keep every line and give one
/// position per byte of the text.
pub open spec fn keeps_lines(src: Seq<char>, out: Seq<char>, map: Seq<(usize, usize)>) -> bool {
    newlines(out) == newlines(src) && map.len() == utf8_size(out)
}

proof fn lemma_prefix_char(c: char, rest: Seq<char>)
    ensures
        newlines(seq![c] + rest) == (if c == '\n' { 1nat } else { 0nat }) + newlines(rest),
        utf8_size(seq![c] + rest) == utf8_len(c) + utf8_size(rest),
{
    assert((seq![c] + rest).drop_first() =~= rest);
}

proof fn lemma_tail(s: Seq<char>, i: int)
    requires
        0 <= i < s.len(),
    ensures
        newlines(s.subrange(i, s.len() as int)) == (if s[i] == '\n' { 1nat } else { 0nat }) + newlines(
            s.subrange(i + 1, s.len() as int),
        ),
{
    assert(s.subrange(i, s.len() as int).drop_first() =~= s.subrange(i + 1, s.len() as int));
}

proof fn lemma_comments_from(s: Seq<char>, i: int, line: usize, col: usize)
    requires
        0 <= i <= s.len(),
    ensures
        comments_from(s, i, line, col) matches Ok((o, m)) ==> keeps_lines(s.subrange(i, s.len() as int), o, m),
    decreases s.len() - i, 0nat,
{
    if i >= s.len() {
        assert(s.subrange(i, s.len() as int) =~= Seq::<char>::empty());
    } else if s[i] == '/' && i + 1 < s.len() && s[i + 1] == '*' {
        lemma_block_from(s, i + 2, line, (col + 2) as usize, line);
        lemma_tail(s, i);
        lemma_tail(s, i + 1);
    } else if s[i] == '/' && i + 1 < s.len() && s[i + 1] == '/' {
        lemma_line_comment_from(s, i + 2, line, (col + 2) as usize);
        lemma_tail(s, i);
        lemma_tail(s, i + 1);
    } else if s[i] == '\n' {
        lemma_comments_from(s, i + 1, (line + 1) as usize, 1);
        lemma_tail(s, i);
        if let Ok((o, m)) = comments_from(s, i + 1, (line + 1) as usize, 1) {
            lemma_prefix_char(s[i], o);
        }
    } else {
        lemma_comments_from(s, i + 1, line, (col + 1) as usize);
        lemma_tail(s, i);
        if let Ok((o, m)) = comments_from(s, i + 1, line, (col + 1) as usize) {
            lemma_prefix_char(s[i], o);
        }
    }
}

proof fn lemma_block_from(s: Seq<char>, j: int, line: usize, col: usize, start: usize)
    requires
        0 <= j <= s.len(),
    ensures
        block_from(s, j, line, col, start) matches Ok((o, m)) ==> keeps_lines(s.subrange(j, s.len() as int), o, m),
    decreases s.len() - j, 1nat,
{
    if j >= s.len() {
    } else if s[j] == '\n' {
        lemma_block_from(s, j + 1, (line + 1) as usize, 1, start);
        lemma_tail(s, j);
        if let Ok((o, m)) = block_from(s, j + 1, (line + 1) as usize, 1, start) {
            lemma_prefix_char('\n', o);
        }
    } else if s[j] == '*' && j + 1 < s.len() && s[j + 1] == '/' {
        lemma_comments_from(s, j + 2, line, (col + 2) as usize);
        lemma_tail(s, j);
        lemma_tail(s, j + 1);
    } else {
        lemma_block_from(s, j + 1, line, (col + 1) as usize, start);
        lemma_tail(s, j);
    }
}

proof fn lemma_line_comment_from(s: Seq<char>, j: int, line: usize, col: usize)
    requires
        0 <= j <= s.len(),
    ensures
        line_comment_from(s, j, line, col) matches Ok((o, m)) ==> keeps_lines(s.subrange(j, s.len() as int), o, m),
    decreases s.len() - j, 1nat,
{
    if j >= s.len() {
        assert(s.subrange(j, s.len() as int) =~= Seq::<char>::empty());
    } else if s[j] == '\n' {
        lemma_comments_from(s, j + 1, (line + 1) as usize, 1);
        lemma_tail(s, j);
        if let Ok((o, m)) = comments_from(s, j + 1, (line + 1) as usize, 1) {
            lemma_prefix_char('\n', o);
        }
    } else {
        lemma_line_comment_from(s, j + 1, line, (col + 1) as usize);
        lemma_tail(s, j);
    }
}

proof fn lemma_spaces_from(s: Seq<char>, m: Seq<(usize, usize)>, i: int)
    requires
        0 <= i <= s.len(),
    ensures
        keeps_lines(s.subrange(i, s.len() as int), spaces_from(s, m, i).0, spaces_from(s, m, i).1),
    decreases s.len() - i,
{
    if i >= s.len() {
        assert(s.subrange(i, s.len() as int) =~= Seq::<char>::empty());
    } else if is_blank(s[i]) {
        let j = blank_run_end(s, i + 1);
        lemma_blank_run_end(s, i + 1);
        lemma_spaces_from(s, m, j);
        lemma_run_newlines(s, i, j);
        let rest = spaces_from(s, m, j);
        lemma_prefix_char(' ', rest.0);
    } else {
        lemma_spaces_from(s, m, i + 1);
        lemma_tail(s, i);
        let rest = spaces_from(s, m, i + 1);
        lemma_prefix_char(s[i], rest.0);
    }
}

/// A run of blanks holds no newline.
proof fn lemma_run_newlines(s: Seq<char>, i: int, j: int)
    requires
        0 <= i < j <= s.len(),
        forall|k: int| i <= k < j ==> is_blank(#[trigger] s[k]),
    ensures
        newlines(s.subrange(i, s.len() as int)) == newlines(s.subrange(j, s.len() as int)),
    decreases j - i,
{
    lemma_tail(s, i);
    assert(is_blank(s[i]));
    if i + 1 < j {
        lemma_run_newlines(s, i + 1, j);
    }
}

/// Removing comments keeps every line: the text that remains has as many
/// newlines as the source, and its map gives a position for each of its
/// bytes.
pub proof fn law_comments_keep_lines(s: Seq<char>)
    ensures
        comments_spec(s) matches Ok((o, m)) ==> keeps_lines(s, o, m),
{
    lemma_comments_from(s, 0, 1, 1);
    assert(s.subrange(0, s.len() as int) =~= s);
}

/// Removing whitespace keeps every line, and its map gives a position for
/// each byte of its text.
pub proof fn law_spaces_keep_lines(s: Seq<char>, m: Seq<(usize, usize)>)
    ensures
        keeps_lines(s, spaces_spec(s, m).0, spaces_spec(s, m).1),
{
    lemma_spaces_from(s, m, 0);
    assert(s.subrange(0, s.len() as int) =~= s);
}

/// Preprocessing keeps every line of the source and maps each byte of its
/// output to a source position.
pub proof fn law_preprocess_keeps_lines(s: Seq<char>)
    ensures
        preprocess_spec(s) matches Ok((o, m)) ==> keeps_lines(s, o, m),
{
    law_comments_keep_lines(s);
    if let Ok((o, m)) = comments_spec(s) {
        law_spaces_keep_lines(o, m);
    }
}

// -------------------------------------------------------------------------
// What comment removal leaves.
// -------------------------------------------------------------------------

/// `t` holds no comment opener: no `/` directly followed by `/` or `*`.
pub open spec fn no_opener(t: Seq<char>) -> bool {
    forall|k: int| 0 <= k < t.len() - 1 ==> !(#[trigger] t[k] == '/' && (t[k + 1] == '/' || t[k + 1] == '*'))
}

/// Position `i` of `s` starts a comment.
pub open spec fn opens_comment(s: Seq<char>, i: int) -> bool {
    s[i] == '/' && i + 1 < s.len() && (s[i + 1] == '/' || s[i + 1] == '*')
}

proof fn lemma_no_opener_prepend(c: char, r: Seq<char>)
    requires
        no_opener(r),
        c == '/' ==> r.len() == 0 || (r[0] != '/' && r[0] != '*'),
    ensures
        no_opener(seq![c] + r),
{
    let t = seq![c] + r;
    assert forall|k: int| 0 <= k < t.len() - 1 implies !(#[trigger] t[k] == '/' && (t[k + 1] == '/' || t[k + 1] == '*')) by {
        if k > 0 {
            assert(t[k] == r[k - 1]);
            assert(t[k + 1] == r[k]);
        }
    }
}

/// Where no comment starts, the output begins with the character itself.
proof fn lemma_comments_first(s: Seq<char>, i: int, line: usize, col: usize)
    requires
        0 <= i < s.len(),
        !opens_comment(s, i),
    ensures
        comments_from(s, i, line, col) matches Ok((o, m)) ==> o.len() > 0 && o[0] == s[i],
{
    if s[i] == '\n' {
        match comments_from(s, i + 1, (line + 1) as usize, 1) {
            Ok((o, m)) => assert((seq![s[i]] + o)[0] == s[i]),
            Err(_) => {},
        }
    } else {
        match comments_from(s, i + 1, line, (col + 1) as usize) {
            Ok((o, m)) => assert((seq![s[i]] + o)[0] == s[i]),
            Err(_) => {},
        }
    }
}

proof fn lemma_comments_no_opener(s: Seq<char>, i: int, line: usize, col: usize)
    ensures
        comments_from(s, i, line, col) matches Ok((o, m)) ==> no_opener(o),
    decreases s.len() - i, 0nat,
{
    if i < 0 || i >= s.len() {
    } else if s[i] == '/' && i + 1 < s.len() && s[i + 1] == '*' {
        lemma_block_no_opener(s, i + 2, line, (col + 2) as usize, line);
    } else if s[i] == '/' && i + 1 < s.len() && s[i + 1] == '/' {
        lemma_line_no_opener(s, i + 2, line, (col + 2) as usize);
    } else {
        let (l2, c2) = if s[i] == '\n' { ((line + 1) as usize, 1usize) } else { (line, (col + 1) as usize) };
        lemma_comments_no_opener(s, i + 1, l2, c2);
        if s[i] == '/' && i + 1 < s.len() {
            lemma_comments_first(s, i + 1, l2, c2);
        }
        if let Ok((o, m)) = comments_from(s, i + 1, l2, c2) {
            lemma_no_opener_prepend(s[i], o);
        }
    }
}

proof fn lemma_block_no_opener(s: Seq<char>, j: int, line: usize, col: usize, start: usize)
    ensures
        block_from(s, j, line, col, start) matches Ok((o, m)) ==> no_opener(o),
    decreases s.len() - j, 1nat,
{
    if j < 0 || j >= s.len() {
    } else if s[j] == '\n' {
        lemma_block_no_opener(s, j + 1, (line + 1) as usize, 1, start);
        if let Ok((o, m)) = block_from(s, j + 1, (line + 1) as usize, 1, start) {
            lemma_no_opener_prepend('\n', o);
        }
    } else if s[j] == '*' && j + 1 < s.len() && s[j + 1] == '/' {
        lemma_comments_no_opener(s, j + 2, line, (col + 2) as usize);
    } else {
        lemma_block_no_opener(s, j + 1, line, (col + 1) as usize, start);
    }
}

proof fn lemma_line_no_opener(s: Seq<char>, j: int, line: usize, col: usize)
    ensures
        line_comment_from(s, j, line, col) matches Ok((o, m)) ==> no_opener(o),
    decreases s.len() - j, 1nat,
{
    if j < 0 || j >= s.len() {
    } else if s[j] == '\n' {
        lemma_comments_no_opener(s, j + 1, (line + 1) as usize, 1);
        if let Ok((o, m)) = comments_from(s, j + 1, (line + 1) as usize, 1) {
            lemma_no_opener_prepend('\n', o);
        }
    } else {
        lemma_line_no_opener(s, j + 1, line, (col + 1) as usize);
    }
}

/// A text without comment openers passes through unchanged.
proof fn lemma_comment_free_from(t: Seq<char>, i: int, line: usize, col: usize)
    requires
        no_opener(t),
        0 <= i <= t.len(),
    ensures
        comments_from(t, i, line, col) matches Ok((o, m)) && o == t.subrange(i, t.len() as int),
    decreases t.len() - i,
{
    if i >= t.len() {
        assert(t.subrange(i, t.len() as int) =~= Seq::<char>::empty());
    } else {
        assert(!opens_comment(t, i)) by {
            if i + 1 < t.len() {
                assert(!(t[i] == '/' && (t[i + 1] == '/' || t[i + 1] == '*')));
            }
        }
        let (l2, c2) = if t[i] == '\n' { ((line + 1) as usize, 1usize) } else { (line, (col + 1) as usize) };
        lemma_comment_free_from(t, i + 1, l2, c2);
        assert(seq![t[i]] + t.subrange(i + 1, t.len() as int) =~= t.subrange(i, t.len() as int));
    }
}

/// Removing comments leaves no comment opener behind, so a second pass
/// gives back the same text.
pub proof fn law_comments_removed(s: Seq<char>)
    ensures
        comments_spec(s) matches Ok((o, m)) ==> no_opener(o) && (comments_spec(o) matches Ok((o2, m2))
            && o2 == o),
{
    lemma_comments_no_opener(s, 0, 1, 1);
    if let Ok((o, m)) = comments_spec(s) {
        lemma_comment_free_from(o, 0, 1, 1);
        assert(o.subrange(0, o.len() as int) =~= o);
    }
}

/// A source without comment openers comes back unchanged.
pub proof fn law_comment_free_unchanged(s: Seq<char>)
    requires
        no_opener(s),
    ensures
        comments_spec(s) matches Ok((o, m)) && o == s,
{
    lemma_comment_free_from(s, 0, 1, 1);
    assert(s.subrange(0, s.len() as int) =~= s);
}

// -------------------------------------------------------------------------
// What whitespace removal leaves.
// -------------------------------------------------------------------------

/// A character that whitespace removal never touches: neither a blank nor
/// the space that the pass may put in place of a run of blanks.
pub open spec fn visible(c: char) -> bool {
    !is_blank(c) && c != ' '
}

/// The visible characters of `t`, in order.
pub open spec fn visible_chars(t: Seq<char>) -> Seq<char>
    decreases t.len(),
{
    if t.len() == 0 {
        Seq::empty()
    } else {
        (if visible(t[0]) { seq![t[0]] } else { Seq::empty() }) + visible_chars(t.drop_first())
    }
}

/// A word character that is not blank.
pub open spec fn word_mark(c: char) -> bool {
    is_word_char(c) && !is_blank(c)
}

/// Every blank of `t` is a single `' '` with a word character on each side;
/// `prev` is the character before `t`, if any.
pub open spec fn spaces_between_words(prev: Option<char>, t: Seq<char>) -> bool {
    forall|k: int|
        0 <= k < t.len() && is_blank(#[trigger] t[k]) ==> t[k] == ' ' && k + 1 < t.len() && word_mark(t[k + 1])
            && (if k == 0 {
            prev matches Some(p) && word_mark(p)
        } else {
            word_mark(t[k - 1])
        })
}

proof fn lemma_visible_prepend(c: char, r: Seq<char>)
    ensures
        visible_chars(seq![c] + r) == (if visible(c) { seq![c] } else { Seq::<char>::empty() }) + visible_chars(r),
{
    assert((seq![c] + r).drop_first() =~= r);
}

proof fn lemma_visible_tail(s: Seq<char>, i: int)
    requires
        0 <= i < s.len(),
    ensures
        visible_chars(s.subrange(i, s.len() as int)) == (if visible(s[i]) { seq![s[i]] } else {
            Seq::<char>::empty()
        }) + visible_chars(s.subrange(i + 1, s.len() as int)),
{
    assert(s.subrange(i, s.len() as int).drop_first() =~= s.subrange(i + 1, s.len() as int));
}

/// A run of blanks holds no visible character.
proof fn lemma_run_visible(s: Seq<char>, i: int, j: int)
    requires
        0 <= i <= j <= s.len(),
        forall|k: int| i <= k < j ==> is_blank(#[trigger] s[k]),
    ensures
        visible_chars(s.subrange(i, s.len() as int)) == visible_chars(s.subrange(j, s.len() as int)),
    decreases j - i,
{
    if i < j {
        lemma_visible_tail(s, i);
        assert(is_blank(s[i]));
        assert(Seq::<char>::empty() + visible_chars(s.subrange(i + 1, s.len() as int)) =~= visible_chars(
            s.subrange(i + 1, s.len() as int),
        ));
        lemma_run_visible(s, i + 1, j);
    }
}

proof fn lemma_spaces_visible(s: Seq<char>, m: Seq<(usize, usize)>, i: int)
    requires
        0 <= i <= s.len(),
    ensures
        visible_chars(spaces_from(s, m, i).0) == visible_chars(s.subrange(i, s.len() as int)),
    decreases s.len() - i,
{
    if i >= s.len() {
        assert(s.subrange(i, s.len() as int) =~= Seq::<char>::empty());
    } else if is_blank(s[i]) {
        let j = blank_run_end(s, i + 1);
        lemma_blank_run_end(s, i + 1);
        lemma_spaces_visible(s, m, j);
        lemma_run_visible(s, i, j);
        let rest = spaces_from(s, m, j);
        lemma_visible_prepend(' ', rest.0);
        assert(Seq::<char>::empty() + visible_chars(rest.0) =~= visible_chars(rest.0));
    } else {
        lemma_spaces_visible(s, m, i + 1);
        lemma_visible_tail(s, i);
        lemma_visible_prepend(s[i], spaces_from(s, m, i + 1).0);
    }
}

proof fn lemma_spaces_shape(s: Seq<char>, m: Seq<(usize, usize)>, i: int, prev: Option<char>)
    requires
        0 <= i <= s.len(),
        i < s.len() && is_blank(s[i]) && i > 0 ==> prev == Some(s[i - 1]) && !is_blank(s[i - 1]),
    ensures
        spaces_between_words(prev, spaces_from(s, m, i).0),
    decreases s.len() - i,
{
    let o = spaces_from(s, m, i).0;
    if i >= s.len() {
    } else if is_blank(s[i]) {
        let j = blank_run_end(s, i + 1);
        lemma_blank_run_end(s, i + 1);
        lemma_spaces_shape(s, m, j, prev);
        lemma_spaces_shape(s, m, j, Some(' '));
        let rest = spaces_from(s, m, j).0;
        if j < s.len() {
            assert(rest =~= seq![s[j]] + spaces_from(s, m, j + 1).0);
            assert(rest[0] == s[j]);
        }
        if i > 0 && is_word_char(s[i - 1]) && j < s.len() && is_word_char(s[j]) {
            assert(o =~= seq![' '] + rest);
            assert forall|k: int| 0 <= k < o.len() && is_blank(#[trigger] o[k]) implies o[k] == ' ' && k + 1
                < o.len() && word_mark(o[k + 1]) && (if k == 0 {
                prev matches Some(p) && word_mark(p)
            } else {
                word_mark(o[k - 1])
            }) by {
                if k > 0 {
                    assert(o[k] == rest[k - 1]);
                    if k - 1 > 0 {
                        assert(o[k - 1] == rest[k - 2]);
                    }
                    assert(o[k + 1] == rest[k]);
                }
            }
        }
    } else {
        lemma_spaces_shape(s, m, i + 1, Some(s[i]));
        let rest = spaces_from(s, m, i + 1).0;
        assert(o =~= seq![s[i]] + rest);
        assert forall|k: int| 0 <= k < o.len() && is_blank(#[trigger] o[k]) implies o[k] == ' ' && k + 1
            < o.len() && word_mark(o[k + 1]) && (if k == 0 {
            prev matches Some(p) && word_mark(p)
        } else {
            word_mark(o[k - 1])
        }) by {
            if k > 0 {
                assert(o[k] == rest[k - 1]);
                if k - 1 > 0 {
                    assert(o[k - 1] == rest[k - 2]);
                }
                assert(o[k + 1] == rest[k]);
            }
        }
    }
}

/// A text whose blanks are single spaces between words passes through
/// unchanged.
proof fn lemma_spaces_fixed(t: Seq<char>, m: Seq<(usize, usize)>, i: int)
    requires
        spaces_between_words(None, t),
        0 <= i <= t.len(),
    ensures
        spaces_from(t, m, i).0 == t.subrange(i, t.len() as int),
    decreases t.len() - i,
{
    if i >= t.len() {
        assert(t.subrange(i, t.len() as int) =~= Seq::<char>::empty());
    } else {
        lemma_spaces_fixed(t, m, i + 1);
        if is_blank(t[i]) {
            assert(t[i] == ' ' && i + 1 < t.len() && word_mark(t[i + 1]));
            assert(i != 0);
            assert(word_mark(t[i - 1]));
            assert(blank_run_end(t, i + 1) == i + 1);
        }
        assert(seq![t[i]] + t.subrange(i + 1, t.len() as int) =~= t.subrange(i, t.len() as int));
    }
}

/// Whitespace removal keeps every visible character in order, leaves no
/// whitespace but single spaces between two word characters and newlines,
/// and a second pass, with any map, gives back the same text.
pub proof fn law_spaces_normalized(s: Seq<char>, m: Seq<(usize, usize)>, m2: Seq<(usize, usize)>)
    ensures
        ({
            let o = spaces_spec(s, m).0;
            &&& visible_chars(o) == visible_chars(s)
            &&& forall|k: int| 0 <= k < o.len() && is_whitespace_char(#[trigger] o[k]) ==> o[k] == ' ' || o[k] == '\n'
            &&& spaces_between_words(None, o)
            &&& spaces_spec(o, m2).0 == o
        }),
{
    let o = spaces_spec(s, m).0;
    lemma_spaces_visible(s, m, 0);
    assert(s.subrange(0, s.len() as int) =~= s);
    lemma_spaces_shape(s, m, 0, None);
    assert forall|k: int| 0 <= k < o.len() && is_whitespace_char(#[trigger] o[k]) implies o[k] == ' ' || o[k] == '\n' by {
        if o[k] != '\n' {
            assert(is_blank(o[k]));
        }
    }
    lemma_spaces_fixed(o, m2, 0);
    assert(o.subrange(0, o.len() as int) =~= o);
}

} // verus!
