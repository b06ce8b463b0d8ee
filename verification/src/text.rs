//! Character-level utilities shared by the script parser and the transform
//! engine: moving between `String` and `Vec<char>`, and the normalization of
//! line endings and non-breaking spaces.
//!
//! Line-ending normalization collapses every run of carriage returns that
//! stands directly before a line feed, together with that line feed, to a
//! single `\n`. The result therefore never holds a `\r` directly before a
//! `\n`, which makes the normalization idempotent; a carriage return not
//! followed (through further carriage returns) by a line feed is kept.

use vstd::prelude::*;
use vstd::string::StrSliceExecFns;

verus! {

/// Collects the characters of a string slice into a vector.
pub fn chars_vec(s: &str) -> (v: Vec<char>)
    ensures
        v@ == s@,
{
    let n = s.unicode_len();
    let mut v: Vec<char> = Vec::new();
    let mut i: usize = 0;
    while i < n
        invariant
            n == s@.len(),
            i <= n,
            v@ == s@.take(i as int),
        decreases n - i,
    {
        let c = s.get_char(i);
        v.push(c);
        i = i + 1;
        proof {
            assert(s@.take(i as int) =~= s@.take(i - 1).push(s@[i - 1]));
        }
    }
    proof {
        assert(s@.take(n as int) =~= s@);
    }
    v
}

/// Relies on `String::push`: appends exactly one character at the end of the
/// string, changing nothing else.
#[verifier::external_body]
fn push_char(s: &mut String, c: char)
    ensures
        final(s)@ == old(s)@.push(c),
{
    s.push(c);
}

/// Builds a string whose characters are exactly those of `v`, in order.
pub fn chars_to_string(v: &Vec<char>) -> (s: String)
    ensures
        s@ == v@,
{
    let mut s = String::new();
    let mut i: usize = 0;
    while i < v.len()
        invariant
            i <= v@.len(),
            s@ == v@.take(i as int),
        decreases v@.len() - i,
    {
        push_char(&mut s, v[i]);
        i = i + 1;
        proof {
            assert(v@.take(i as int) =~= v@.take(i - 1).push(v@[i - 1]));
        }
    }
    proof {
        assert(v@.take(v.len() as int) =~= v@);
    }
    s
}

/// Copies the characters of `v` with indices in `[lo, hi)` into a fresh vector.
pub fn copy_range(v: &Vec<char>, lo: usize, hi: usize) -> (out: Vec<char>)
    requires
        lo <= hi <= v@.len(),
    ensures
        out@ == v@.subrange(lo as int, hi as int),
{
    let mut out: Vec<char> = Vec::new();
    let mut i: usize = lo;
    while i < hi
        invariant
            lo <= i <= hi <= v@.len(),
            out@ == v@.subrange(lo as int, i as int),
        decreases hi - i,
    {
        out.push(v[i]);
        i = i + 1;
        proof {
            assert(v@.subrange(lo as int, i as int) =~= v@.subrange(lo as int, i - 1).push(
                v@[i - 1],
            ));
        }
    }
    out
}

/// `s` begins with zero or more carriage returns followed by a line feed: a
/// carriage return standing before such a text is collapsed away by the
/// line-ending normalization.
pub open spec fn cr_run_to_lf(s: Seq<char>) -> bool
    decreases s.len(),
{
    if s.len() == 0 {
        false
    } else if s[0] == '\n' {
        true
    } else if s[0] == '\r' {
        cr_run_to_lf(s.skip(1))
    } else {
        false
    }
}

/// Collapses every run of carriage returns standing directly before a line
/// feed, together with that line feed, to a single `\n`; every other
/// character, a carriage return not before a line feed included, is kept.
pub open spec fn crlf_to_lf(s: Seq<char>) -> Seq<char>
    decreases s.len(),
{
    if s.len() == 0 {
        Seq::empty()
    } else if s[0] == '\r' && cr_run_to_lf(s.skip(1)) {
        crlf_to_lf(s.skip(1))
    } else {
        seq![s[0]] + crlf_to_lf(s.skip(1))
    }
}

/// The fixed end-of-pipeline normalization: every run of carriage returns
/// directly before a line feed collapses with it to a single `\n`, and every
/// non-breaking space becomes an ordinary space. The result never holds a
/// `\r` directly before a `\n`.
pub open spec fn normalize(s: Seq<char>) -> Seq<char>
    decreases s.len(),
{
    if s.len() == 0 {
        Seq::empty()
    } else if s[0] == '\r' && cr_run_to_lf(s.skip(1)) {
        normalize(s.skip(1))
    } else if s[0] == '\u{00A0}' {
        seq![' '] + normalize(s.skip(1))
    } else {
        seq![s[0]] + normalize(s.skip(1))
    }
}

/// `cr_run_to_lf` evaluated at the end of the leading carriage-return run:
/// it holds exactly when the first non-`\r` character is a line feed.
proof fn lemma_cr_run_eval(s: Seq<char>, m: int)
    requires
        0 <= m <= s.len(),
        forall|k: int| 0 <= k < m ==> s[k] == '\r',
        m < s.len() ==> s[m] != '\r',
    ensures
        cr_run_to_lf(s) == (m < s.len() && s[m] == '\n'),
    decreases m,
{
    if m > 0 {
        lemma_cr_run_eval(s.skip(1), m - 1);
    }
}

/// Normalization keeps the shape `cr_run_to_lf` looks at: the normalized
/// text begins with a carriage-return run ending in a line feed exactly when
/// the text itself does.
proof fn lemma_cr_run_normalize(u: Seq<char>)
    ensures
        cr_run_to_lf(normalize(u)) == cr_run_to_lf(u),
    decreases u.len(),
{
    if u.len() == 0 {
    } else {
        let tail = u.skip(1);
        if u[0] == '\r' && cr_run_to_lf(tail) {
            lemma_cr_run_normalize(tail);
        } else if u[0] == '\u{00A0}' {
            let w = normalize(u);
            assert(w[0] == ' ');
            assert(!cr_run_to_lf(w));
        } else if u[0] == '\r' {
            lemma_cr_run_normalize(tail);
            let w = normalize(u);
            assert(w == seq!['\r'] + normalize(tail));
            assert(w[0] == '\r');
            assert(w.skip(1) =~= normalize(tail));
        } else {
            let w = normalize(u);
            assert(w[0] == u[0]);
        }
    }
}

/// The fixed end-of-pipeline normalization changes nothing the second time:
/// applying it twice yields what one application yields, for every text.
pub proof fn lemma_normalize_idempotent(s: Seq<char>)
    ensures
        normalize(normalize(s)) == normalize(s),
    decreases s.len(),
{
    if s.len() == 0 {
        assert(normalize(normalize(s)) =~= normalize(s));
    } else {
        let tail = s.skip(1);
        let rec = normalize(tail);
        lemma_normalize_idempotent(tail);
        if s[0] == '\r' && cr_run_to_lf(tail) {
            assert(normalize(s) == rec);
        } else {
            let c = if s[0] == '\u{00A0}' {
                ' '
            } else {
                s[0]
            };
            let whole = normalize(s);
            assert(whole == seq![c] + rec);
            assert(whole[0] == c);
            assert(whole.skip(1) =~= rec);
            if c == '\r' {
                lemma_cr_run_normalize(tail);
                assert(!cr_run_to_lf(rec));
                assert(normalize(whole) == seq![c] + normalize(rec));
            } else {
                assert(c != '\r' && c != '\u{00A0}');
                assert(normalize(whole) == seq![c] + normalize(rec));
            }
        }
    }
}

/// What the fixed normalization guarantees of its output, whatever text the
/// rules produced: no non-breaking space is left, and no carriage return
/// stands directly before a line feed.
pub proof fn lemma_normalize_canonical(s: Seq<char>)
    ensures
        forall|i: int| 0 <= i < normalize(s).len() ==> normalize(s)[i] != '\u{00A0}',
        forall|i: int|
            0 <= i && i + 1 < normalize(s).len() ==> !(#[trigger] normalize(s)[i] == '\r'
                && normalize(s)[i + 1] == '\n'),
    decreases s.len(),
{
    if s.len() == 0 {
    } else {
        let tail = s.skip(1);
        lemma_normalize_canonical(tail);
        if s[0] == '\r' && cr_run_to_lf(tail) {
        } else {
            let c = if s[0] == '\u{00A0}' {
                ' '
            } else {
                s[0]
            };
            let n1 = normalize(tail);
            let w = normalize(s);
            assert(w == seq![c] + n1);
            assert(c != '\u{00A0}');
            if c == '\r' && n1.len() > 0 {
                lemma_cr_run_normalize(tail);
                assert(!cr_run_to_lf(n1));
                assert(n1[0] != '\n');
            }
            assert forall|i: int|
                0 <= i && i + 1 < w.len() implies !(#[trigger] w[i] == '\r' && w[i + 1]
                    == '\n') by {
                if i == 0 {
                    assert(w[0] == c);
                    assert(w[1] == n1[0]);
                } else {
                    assert(w[i] == n1[i - 1]);
                    assert(w[i + 1] == n1[i]);
                }
            }
            assert(forall|i: int| 1 <= i < w.len() ==> #[trigger] w[i] == n1[i - 1]);
        }
    }
}

/// Decides [`cr_run_to_lf`] for the text from index `from` on.
fn cr_run_check(v: &Vec<char>, from: usize) -> (r: bool)
    requires
        from <= v@.len(),
    ensures
        r == cr_run_to_lf(v@.skip(from as int)),
{
    let mut j: usize = from;
    while j < v.len() && v[j] == '\r'
        invariant
            from <= j <= v@.len(),
            forall|k: int| from <= k < j ==> v@[k] == '\r',
        decreases v@.len() - j,
    {
        j = j + 1;
    }
    proof {
        lemma_cr_run_eval(v@.skip(from as int), j - from);
    }
    j < v.len() && v[j] == '\n'
}

/// Rewrites `v` according to [`crlf_to_lf`].
pub fn crlf_to_lf_chars(v: &Vec<char>) -> (out: Vec<char>)
    ensures
        out@ == crlf_to_lf(v@),
{
    let mut out: Vec<char> = Vec::new();
    let mut i: usize = 0;
    proof {
        assert(v@.skip(0) =~= v@);
        assert(out@ + crlf_to_lf(v@.skip(0)) =~= crlf_to_lf(v@));
    }
    while i < v.len()
        invariant
            i <= v@.len(),
            crlf_to_lf(v@) == out@ + crlf_to_lf(v@.skip(i as int)),
        decreases v@.len() - i,
    {
        let ghost pre = v@.skip(i as int);
        if v[i] == '\r' && cr_run_check(v, i + 1) {
            i = i + 1;
            proof {
                assert(pre.skip(1) =~= v@.skip(i as int));
                assert(cr_run_to_lf(pre.skip(1)));
                assert(crlf_to_lf(pre) == crlf_to_lf(pre.skip(1)));
            }
        } else {
            out.push(v[i]);
            i = i + 1;
            proof {
                assert(pre.skip(1) =~= v@.skip(i as int));
                assert(out@ + crlf_to_lf(v@.skip(i as int)) =~= (out@.drop_last() + (seq![
                    pre[0],
                ] + crlf_to_lf(pre.skip(1)))));
            }
        }
    }
    proof {
        assert(v@.skip(v@.len() as int) =~= Seq::<char>::empty());
        assert(out@ + crlf_to_lf(v@.skip(v@.len() as int)) =~= out@);
    }
    out
}

/// Rewrites `v` according to [`normalize`].
pub fn normalize_chars(v: &Vec<char>) -> (out: Vec<char>)
    ensures
        out@ == normalize(v@),
{
    let mut out: Vec<char> = Vec::new();
    let mut i: usize = 0;
    proof {
        assert(v@.skip(0) =~= v@);
        assert(out@ + normalize(v@.skip(0)) =~= normalize(v@));
    }
    while i < v.len()
        invariant
            i <= v@.len(),
            normalize(v@) == out@ + normalize(v@.skip(i as int)),
        decreases v@.len() - i,
    {
        let ghost pre = v@.skip(i as int);
        if v[i] == '\r' && cr_run_check(v, i + 1) {
            i = i + 1;
            proof {
                assert(pre.skip(1) =~= v@.skip(i as int));
                assert(cr_run_to_lf(pre.skip(1)));
                assert(normalize(pre) == normalize(pre.skip(1)));
            }
        } else if v[i] == '\u{00A0}' {
            out.push(' ');
            i = i + 1;
            proof {
                assert(pre.skip(1) =~= v@.skip(i as int));
                assert(out@ + normalize(v@.skip(i as int)) =~= (out@.drop_last() + (seq![' ']
                    + normalize(pre.skip(1)))));
            }
        } else {
            out.push(v[i]);
            i = i + 1;
            proof {
                assert(pre.skip(1) =~= v@.skip(i as int));
                assert(out@ + normalize(v@.skip(i as int)) =~= (out@.drop_last() + (seq![
                    pre[0],
                ] + normalize(pre.skip(1)))));
            }
        }
    }
    proof {
        assert(v@.skip(v@.len() as int) =~= Seq::<char>::empty());
        assert(out@ + normalize(v@.skip(v@.len() as int)) =~= out@);
    }
    out
}

} // verus!
