//! The script line grammar.
//!
//! A directive line is: arbitrary quote-free prose, a double-quoted find
//! pattern, an arrow `->` optionally surrounded by whitespace, a double-quoted
//! replace template, and arbitrary trailing prose. Each quoted span stops at
//! the first closing quote, so a quote cannot appear inside the find pattern
//! or the template; that is a documented limitation of the format.
//!
//! Replace templates carry the escapes `\n`, `\r` and `\\`, resolved in a
//! single left-to-right pass so that a backslash produced by `\\` is never
//! re-read as the start of another escape.

use vstd::prelude::*;

use crate::text::copy_range;

verus! {

/// The whitespace the grammar accepts around the arrow token: the Unicode
/// whitespace characters, the line feed left aside since a line never holds
/// one.
pub open spec fn is_script_ws(c: char) -> bool {
    c == ' ' || c == '\t' || c == '\u{000B}' || c == '\u{000C}' || c == '\r' || c == '\u{0085}'
        || c == '\u{00A0}' || c == '\u{1680}' || (0x2000 <= c as u32 && c as u32 <= 0x200A)
        || c == '\u{2028}' || c == '\u{2029}' || c == '\u{202F}' || c == '\u{205F}'
        || c == '\u{3000}'
}

fn is_ws(c: char) -> (r: bool)
    ensures
        r == is_script_ws(c),
{
    c == ' ' || c == '\t' || c == '\u{000B}' || c == '\u{000C}' || c == '\r' || c == '\u{0085}'
        || c == '\u{00A0}' || c == '\u{1680}' || (0x2000 <= c as u32 && c as u32 <= 0x200A)
        || c == '\u{2028}' || c == '\u{2029}' || c == '\u{202F}' || c == '\u{205F}'
        || c == '\u{3000}'
}

/// The least index `i >= from` with `s[i] == c`, or `s.len()` if there is
/// none.
pub open spec fn find_from(s: Seq<char>, from: int, c: char) -> int
    decreases s.len() - from,
{
    if from < 0 || from >= s.len() {
        s.len() as int
    } else if s[from] == c {
        from
    } else {
        find_from(s, from + 1, c)
    }
}

/// The least index `i >= from` whose character is not grammar whitespace, or
/// `s.len()` if all of them are.
pub open spec fn skip_ws(s: Seq<char>, from: int) -> int
    decreases s.len() - from,
{
    if from < 0 || from >= s.len() {
        s.len() as int
    } else if is_script_ws(s[from]) {
        skip_ws(s, from + 1)
    } else {
        from
    }
}

/// `find_from` is pinned down by its characterization: no occurrence of `c`
/// before `i`, and `c` at `i` unless `i` is the end.
proof fn lemma_find_from_eq(s: Seq<char>, from: int, c: char, i: int)
    requires
        0 <= from <= i <= s.len(),
        forall|k: int| from <= k < i ==> s[k] != c,
        i < s.len() ==> s[i] == c,
    ensures
        find_from(s, from, c) == i,
    decreases i - from,
{
    if from < i {
        lemma_find_from_eq(s, from + 1, c, i);
    }
}

/// `skip_ws` is pinned down by its characterization: whitespace everywhere
/// before `i`, and none at `i` unless `i` is the end.
proof fn lemma_skip_ws_eq(s: Seq<char>, from: int, i: int)
    requires
        0 <= from <= i <= s.len(),
        forall|k: int| from <= k < i ==> is_script_ws(s[k]),
        i < s.len() ==> !is_script_ws(s[i]),
    ensures
        skip_ws(s, from) == i,
    decreases i - from,
{
    if from < i {
        lemma_skip_ws_eq(s, from + 1, i);
    }
}

/// `find_from` lands on the first occurrence: nothing before it matches, and
/// it points at `c` unless it is the end.
proof fn lemma_find_from_props(s: Seq<char>, from: int, c: char)
    requires
        0 <= from,
    ensures
        find_from(s, from, c) <= s.len(),
        from <= s.len() ==> from <= find_from(s, from, c),
        forall|k: int| from <= k < find_from(s, from, c) ==> s[k] != c,
        find_from(s, from, c) < s.len() ==> s[find_from(s, from, c)] == c,
    decreases s.len() - from,
{
    if from < s.len() && s[from] != c {
        lemma_find_from_props(s, from + 1, c);
    }
}

/// `skip_ws` lands right after the whitespace run: everything before it is
/// whitespace, and it points at a non-whitespace character unless it is the
/// end.
proof fn lemma_skip_ws_props(s: Seq<char>, from: int)
    requires
        0 <= from,
    ensures
        skip_ws(s, from) <= s.len(),
        from <= s.len() ==> from <= skip_ws(s, from),
        forall|k: int| from <= k < skip_ws(s, from) ==> is_script_ws(s[k]),
        skip_ws(s, from) < s.len() ==> !is_script_ws(s[skip_ws(s, from)]),
    decreases s.len() - from,
{
    if from < s.len() && is_script_ws(s[from]) {
        lemma_skip_ws_props(s, from + 1);
    }
}

/// Parses one script line: `Some((find, replace))` when the line holds a
/// well-formed quoted pair, `None` otherwise. The replace text is returned as
/// written, before escape processing.
pub open spec fn line_parse(s: Seq<char>) -> Option<(Seq<char>, Seq<char>)> {
    let q1 = find_from(s, 0, '"');
    let q2 = find_from(s, q1 + 1, '"');
    let a = skip_ws(s, q2 + 1);
    let q3 = skip_ws(s, a + 2);
    let q4 = find_from(s, q3 + 1, '"');
    if q2 >= s.len() {
        None
    } else if !(a + 1 < s.len() && s[a] == '-' && s[a + 1] == '>') {
        None
    } else if !(q3 < s.len() && s[q3] == '"') {
        None
    } else if q4 >= s.len() {
        None
    } else {
        Some((s.subrange(q1 + 1, q2), s.subrange(q3 + 1, q4)))
    }
}

/// Parses one script line held as a character vector; agrees exactly with
/// [`line_parse`] on the line's characters.
pub fn parse_line(seg: &Vec<char>) -> (r: Option<(Vec<char>, Vec<char>)>)
    ensures
        r is Some <==> line_parse(seg@) is Some,
        r is Some ==> (r->Some_0.0@, r->Some_0.1@) == line_parse(seg@)->Some_0,
{
    let n = seg.len();
    let mut i: usize = 0;
    while i < n && seg[i] != '"'
        invariant
            i <= n == seg@.len(),
            forall|k: int| 0 <= k < i ==> seg@[k] != '"',
        decreases n - i,
    {
        i = i + 1;
    }
    let q1 = i;
    proof {
        lemma_find_from_eq(seg@, 0, '"', q1 as int);
    }
    if q1 == n {
        return None;
    }
    let mut j: usize = q1 + 1;
    while j < n && seg[j] != '"'
        invariant
            q1 + 1 <= j <= n == seg@.len(),
            forall|k: int| q1 + 1 <= k < j ==> seg@[k] != '"',
        decreases n - j,
    {
        j = j + 1;
    }
    let q2 = j;
    proof {
        lemma_find_from_eq(seg@, q1 as int + 1, '"', q2 as int);
    }
    if q2 == n {
        return None;
    }
    let mut a: usize = q2 + 1;
    while a < n && is_ws(seg[a])
        invariant
            q2 + 1 <= a <= n == seg@.len(),
            forall|k: int| q2 + 1 <= k < a ==> is_script_ws(seg@[k]),
        decreases n - a,
    {
        a = a + 1;
    }
    proof {
        lemma_skip_ws_eq(seg@, q2 as int + 1, a as int);
    }
    if n - a < 2 {
        return None;
    }
    if seg[a] != '-' || seg[a + 1] != '>' {
        return None;
    }
    let mut t: usize = a + 2;
    while t < n && is_ws(seg[t])
        invariant
            a + 2 <= t <= n == seg@.len(),
            forall|k: int| a + 2 <= k < t ==> is_script_ws(seg@[k]),
        decreases n - t,
    {
        t = t + 1;
    }
    let q3 = t;
    proof {
        lemma_skip_ws_eq(seg@, a as int + 2, q3 as int);
    }
    if q3 == n {
        return None;
    }
    if seg[q3] != '"' {
        return None;
    }
    let mut u: usize = q3 + 1;
    while u < n && seg[u] != '"'
        invariant
            q3 + 1 <= u <= n == seg@.len(),
            forall|k: int| q3 + 1 <= k < u ==> seg@[k] != '"',
        decreases n - u,
    {
        u = u + 1;
    }
    let q4 = u;
    proof {
        lemma_find_from_eq(seg@, q3 as int + 1, '"', q4 as int);
    }
    if q4 == n {
        return None;
    }
    let find = copy_range(seg, q1 + 1, q2);
    let rep = copy_range(seg, q3 + 1, q4);
    Some((find, rep))
}

/// Prose around a well-formed quoted pair does not matter: a line that
/// parses keeps exactly the same find and replace text when arbitrary
/// quote-free prose stands before it and arbitrary text after it.
pub proof fn lemma_prose_irrelevant(prose: Seq<char>, line: Seq<char>, trail: Seq<char>)
    requires
        line_parse(line) is Some,
        forall|k: int| 0 <= k < prose.len() ==> prose[k] != '"',
    ensures
        line_parse(prose + line + trail) == line_parse(line),
{
    let s = line;
    let w = prose + line + trail;
    let p = prose.len() as int;
    let q1 = find_from(s, 0, '"');
    let q2 = find_from(s, q1 + 1, '"');
    let a = skip_ws(s, q2 + 1);
    let q3 = skip_ws(s, a + 2);
    let q4 = find_from(s, q3 + 1, '"');
    lemma_find_from_props(s, 0, '"');
    lemma_find_from_props(s, q1 + 1, '"');
    lemma_skip_ws_props(s, q2 + 1);
    lemma_skip_ws_props(s, a + 2);
    lemma_find_from_props(s, q3 + 1, '"');
    assert(q2 < s.len());
    assert(q1 < s.len());
    assert(a + 1 < s.len() && s[a] == '-' && s[a + 1] == '>');
    assert(q3 < s.len() && s[q3] == '"');
    assert(q4 < s.len());
    assert(w.len() == p + s.len() + trail.len());
    assert forall|i: int| 0 <= i < s.len() implies w[p + i] == s[i] by {
        assert((prose + line)[p + i] == line[i]);
        assert(w[p + i] == (prose + line)[p + i]);
    }
    assert forall|k: int| 0 <= k < p implies w[k] != '"' by {
        assert((prose + line)[k] == prose[k]);
        assert(w[k] == (prose + line)[k]);
    }
    lemma_find_from_eq(w, 0, '"', p + q1);
    lemma_find_from_eq(w, p + q1 + 1, '"', p + q2);
    lemma_skip_ws_eq(w, p + q2 + 1, p + a);
    lemma_skip_ws_eq(w, p + a + 2, p + q3);
    lemma_find_from_eq(w, p + q3 + 1, '"', p + q4);
    assert(w.subrange(p + q1 + 1, p + q2) =~= s.subrange(q1 + 1, q2));
    assert(w.subrange(p + q3 + 1, p + q4) =~= s.subrange(q3 + 1, q4));
}

/// Resolves the template escapes `\n`, `\r` and `\\` in one left-to-right
/// pass; any other character, a backslash before an unknown character
/// included, is kept as it is.
pub open spec fn unescape(s: Seq<char>) -> Seq<char>
    decreases s.len(),
{
    if s.len() == 0 {
        Seq::empty()
    } else if s.len() >= 2 && s[0] == '\\' && s[1] == 'n' {
        seq!['\n'] + unescape(s.skip(2))
    } else if s.len() >= 2 && s[0] == '\\' && s[1] == 'r' {
        seq!['\r'] + unescape(s.skip(2))
    } else if s.len() >= 2 && s[0] == '\\' && s[1] == '\\' {
        seq!['\\'] + unescape(s.skip(2))
    } else {
        seq![s[0]] + unescape(s.skip(1))
    }
}

/// Rewrites `v` according to [`unescape`].
pub fn unescape_chars(v: &Vec<char>) -> (out: Vec<char>)
    ensures
        out@ == unescape(v@),
{
    let mut out: Vec<char> = Vec::new();
    let mut i: usize = 0;
    proof {
        assert(v@.skip(0) =~= v@);
        assert(out@ + unescape(v@.skip(0)) =~= unescape(v@));
    }
    while i < v.len()
        invariant
            i <= v@.len(),
            unescape(v@) == out@ + unescape(v@.skip(i as int)),
        decreases v@.len() - i,
    {
        let ghost pre = v@.skip(i as int);
        if v[i] == '\\' && i + 1 < v.len() && (v[i + 1] == 'n' || v[i + 1] == 'r' || v[i + 1]
            == '\\') {
            if v[i + 1] == 'n' {
                out.push('\n');
            } else if v[i + 1] == 'r' {
                out.push('\r');
            } else {
                out.push('\\');
            }
            i = i + 2;
            proof {
                assert(pre.skip(2) =~= v@.skip(i as int));
                assert(out@ + unescape(v@.skip(i as int)) =~= (out@.drop_last() + (seq![
                    out@.last(),
                ] + unescape(pre.skip(2)))));
            }
        } else {
            out.push(v[i]);
            i = i + 1;
            proof {
                assert(pre.skip(1) =~= v@.skip(i as int));
                assert(out@ + unescape(v@.skip(i as int)) =~= (out@.drop_last() + (seq![
                    pre[0],
                ] + unescape(pre.skip(1)))));
            }
        }
    }
    proof {
        assert(v@.skip(v@.len() as int) =~= Seq::<char>::empty());
        assert(out@ + unescape(v@.skip(v@.len() as int)) =~= out@);
    }
    out
}

} // verus!
