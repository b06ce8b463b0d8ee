//! A whole script of rules: parsing it line by line into an ordered
//! [`RegexCommands`] pipeline, and applying that pipeline to a subject.
//!
//! A script is split into lines after its line endings are normalized: any
//! run of carriage returns directly before a line feed collapses with it to
//! one `\n`, so `\r\n` endings read exactly like `\n` endings.
//! Blank lines and lines starting with `//` are skipped; every other line
//! must parse as a rule, and the first line that does not stops parsing with
//! its 1-based line number. Application folds the subject through the rules
//! in order and ends with the fixed normalization of line endings and
//! non-breaking spaces.

use vstd::prelude::*;

use crate::line::{line_parse, unescape};
use crate::rule::{pattern_ok, replaced, LineError, RegexCommand};
use crate::text::{chars_to_string, chars_vec, copy_range, crlf_to_lf, crlf_to_lf_chars, normalize,
    normalize_chars};

verus! {

/// A line that produces no rule: blank, or marked as a comment by a leading
/// `//`.
pub open spec fn line_skipped(l: Seq<char>) -> bool {
    l.len() == 0 || (l.len() >= 2 && l[0] == '/' && l[1] == '/')
}

/// Splits on `\n`, keeping empty pieces; the empty text is one empty line.
pub open spec fn split_lf(s: Seq<char>) -> Seq<Seq<char>>
    decreases s.len(),
{
    if s.len() == 0 {
        seq![Seq::<char>::empty()]
    } else if s[0] == '\n' {
        seq![Seq::<char>::empty()] + split_lf(s.skip(1))
    } else {
        let rest = split_lf(s.skip(1));
        seq![seq![s[0]] + rest[0]] + rest.skip(1)
    }
}

proof fn lemma_split_lf_len(s: Seq<char>)
    ensures
        split_lf(s).len() >= 1,
    decreases s.len(),
{
    if s.len() > 0 {
        lemma_split_lf_len(s.skip(1));
    }
}

/// The first line of a split is everything up to the first `\n`, and the
/// remaining lines are the split of what follows it.
proof fn lemma_split_lf_head(s: Seq<char>, i: int)
    requires
        0 <= i <= s.len(),
        forall|k: int| 0 <= k < i ==> s[k] != '\n',
        i < s.len() ==> s[i] == '\n',
    ensures
        i == s.len() ==> split_lf(s) == seq![s],
        i < s.len() ==> split_lf(s) == seq![s.subrange(0, i)] + split_lf(s.skip(i + 1)),
    decreases i,
{
    if i == 0 {
        if s.len() == 0 {
            assert(Seq::<char>::empty() =~= s);
        } else {
            assert(s.subrange(0, 0) =~= Seq::<char>::empty());
            assert(s.skip(1) =~= s.skip(0int + 1));
        }
    } else {
        lemma_split_lf_head(s.skip(1), i - 1);
        let rest = split_lf(s.skip(1));
        lemma_split_lf_len(s.skip(1));
        if i == s.len() {
            assert(rest == seq![s.skip(1)]);
            assert(seq![s[0]] + s.skip(1) =~= s);
            assert(rest.skip(1) =~= Seq::<Seq<char>>::empty());
            assert(split_lf(s) =~= seq![s]);
        } else {
            let tail = split_lf(s.skip(1).skip(i));
            assert(rest == seq![s.skip(1).subrange(0, i - 1)] + tail);
            assert(rest[0] == s.skip(1).subrange(0, i - 1));
            assert(seq![s[0]] + s.skip(1).subrange(0, i - 1) =~= s.subrange(0, i));
            assert(s.skip(1).skip(i) =~= s.skip(i + 1));
            assert(rest.skip(1) =~= tail);
            assert(split_lf(s) =~= seq![s.subrange(0, i)] + split_lf(s.skip(i + 1)));
        }
    }
}

/// A line the parser accepts: skipped, or a well-formed quoted pair whose
/// find pattern compiles.
pub open spec fn line_ok(l: Seq<char>) -> bool {
    line_skipped(l) || (line_parse(l) is Some && pattern_ok(line_parse(l)->Some_0.0))
}

/// Every line of the script is acceptable.
pub open spec fn script_ok(lines: Seq<Seq<char>>) -> bool {
    forall|i: int| 0 <= i < lines.len() ==> line_ok(#[trigger] lines[i])
}

/// The `(pattern, template)` pairs the script's non-skipped lines declare, in
/// order, with the template's escapes resolved.
pub open spec fn rules_of(lines: Seq<Seq<char>>) -> Seq<(Seq<char>, Seq<char>)>
    decreases lines.len(),
{
    if lines.len() == 0 {
        Seq::empty()
    } else if line_skipped(lines[0]) {
        rules_of(lines.skip(1))
    } else {
        seq![(line_parse(lines[0])->Some_0.0, unescape(line_parse(lines[0])->Some_0.1))]
            + rules_of(lines.skip(1))
    }
}

/// The index of the first unacceptable line.
pub open spec fn first_bad(lines: Seq<Seq<char>>) -> int
    decreases lines.len(),
{
    if lines.len() == 0 {
        0
    } else if !line_ok(lines[0]) {
        0
    } else {
        1 + first_bad(lines.skip(1))
    }
}

/// `rules_of` distributes over appending one line.
proof fn lemma_rules_of_push(lines: Seq<Seq<char>>, l: Seq<char>)
    ensures
        rules_of(lines.push(l)) == rules_of(lines) + rules_of(seq![l]),
    decreases lines.len(),
{
    if lines.len() == 0 {
        assert(lines.push(l) =~= seq![l]);
        assert(Seq::<(Seq<char>, Seq<char>)>::empty() + rules_of(seq![l]) =~= rules_of(seq![l]));
    } else {
        lemma_rules_of_push(lines.skip(1), l);
        assert(lines.push(l).skip(1) =~= lines.skip(1).push(l));
        assert(lines.push(l)[0] == lines[0]);
        if line_skipped(lines[0]) {
        } else {
            let head = seq![
                (line_parse(lines[0])->Some_0.0, unescape(line_parse(lines[0])->Some_0.1)),
            ];
            assert(head + (rules_of(lines.skip(1)) + rules_of(seq![l])) =~= (head + rules_of(
                lines.skip(1),
            )) + rules_of(seq![l]));
        }
    }
}

/// What a one-line script declares.
proof fn lemma_rules_of_single(l: Seq<char>)
    ensures
        line_skipped(l) ==> rules_of(seq![l]) == Seq::<(Seq<char>, Seq<char>)>::empty(),
        !line_skipped(l) ==> rules_of(seq![l]) == seq![
            (line_parse(l)->Some_0.0, unescape(line_parse(l)->Some_0.1)),
        ],
{
    let s = seq![l];
    assert(s[0] == l);
    assert(s.skip(1) =~= Seq::<Seq<char>>::empty());
    assert(rules_of(Seq::<Seq<char>>::empty()) == Seq::<(Seq<char>, Seq<char>)>::empty());
    if !line_skipped(l) {
        let head = seq![(line_parse(l)->Some_0.0, unescape(line_parse(l)->Some_0.1))];
        assert(head + Seq::<(Seq<char>, Seq<char>)>::empty() =~= head);
    }
}

/// `first_bad` is the index of the first line that is not acceptable.
proof fn lemma_first_bad_at(lines: Seq<Seq<char>>, m: int)
    requires
        0 <= m < lines.len(),
        forall|k: int| 0 <= k < m ==> line_ok(#[trigger] lines[k]),
        !line_ok(lines[m]),
    ensures
        first_bad(lines) == m,
    decreases m,
{
    if m > 0 {
        assert(forall|k: int| 0 <= k < m - 1 ==> lines.skip(1)[k] == lines[k + 1]);
        lemma_first_bad_at(lines.skip(1), m - 1);
    }
}

proof fn lemma_rules_of_all_skipped(lines: Seq<Seq<char>>)
    requires
        forall|i: int| 0 <= i < lines.len() ==> line_skipped(#[trigger] lines[i]),
    ensures
        rules_of(lines) == Seq::<(Seq<char>, Seq<char>)>::empty(),
    decreases lines.len(),
{
    if lines.len() > 0 {
        assert(forall|i: int| 0 <= i < lines.len() - 1 ==> lines.skip(1)[i] == lines[i + 1]);
        lemma_rules_of_all_skipped(lines.skip(1));
    }
}

/// A script made only of blank and comment lines parses, declares no rule at
/// all, and an empty rule list sends any subject through unchanged — so the
/// whole pipeline then does nothing to the subject but the fixed final
/// normalization.
pub proof fn lemma_all_skipped(script: Seq<char>, subject: Seq<char>)
    requires
        forall|i: int|
            0 <= i < split_lf(crlf_to_lf(script)).len() ==> line_skipped(
                #[trigger] split_lf(crlf_to_lf(script))[i],
            ),
    ensures
        script_ok(split_lf(crlf_to_lf(script))),
        rules_of(split_lf(crlf_to_lf(script))) == Seq::<(Seq<char>, Seq<char>)>::empty(),
        apply_rules(rules_of(split_lf(crlf_to_lf(script))), subject) == subject,
{
    lemma_rules_of_all_skipped(split_lf(crlf_to_lf(script)));
}

/// The left fold of the engine: each rule rewrites the subject the previous
/// rules produced.
pub open spec fn apply_rules(rules: Seq<(Seq<char>, Seq<char>)>, subject: Seq<char>) -> Seq<char>
    decreases rules.len(),
{
    if rules.len() == 0 {
        subject
    } else {
        apply_rules(rules.skip(1), replaced(rules[0].0, subject, rules[0].1))
    }
}

/// The `(pattern, template)` pairs of a sequence of commands.
pub open spec fn rule_views(cmds: Seq<RegexCommand>) -> Seq<(Seq<char>, Seq<char>)> {
    cmds.map_values(|c: RegexCommand| (c.pattern(), c.template()))
}

/// A parse failure, naming the offending 1-based line and its cause.
#[derive(Debug)]
pub struct ScriptError {
    /// The 1-based number of the line that failed.
    pub line: usize,
    /// What was wrong with that line.
    pub cause: LineError,
}

/// A series of find and replace commands, applied in order.
pub struct RegexCommands(Vec<RegexCommand>);

impl RegexCommands {
    /// The ordered `(pattern, template)` pairs this pipeline applies.
    pub closed spec fn rules(self) -> Seq<(Seq<char>, Seq<char>)> {
        rule_views(self.0@)
    }

    /// Parses a whole script: line endings are normalized, lines are
    /// numbered from 1, blank and `//` lines are skipped, and every other
    /// line must declare a rule. The first unacceptable line aborts parsing
    /// and is named in the error; on success the rules stand in line order.
    pub fn from_str(s: &str) -> (r: Result<RegexCommands, ScriptError>)
        ensures
            ({
                let lines = split_lf(crlf_to_lf(s@));
                &&& (r is Ok <==> script_ok(lines))
                &&& (r is Ok ==> r->Ok_0.rules() == rules_of(lines))
                &&& (r is Err ==> ({
                    let b = first_bad(lines);
                    &&& 0 <= b < lines.len()
                    &&& !line_ok(lines[b])
                    &&& r->Err_0.line == b + 1
                    &&& (r->Err_0.cause is LineFormatError <==> line_parse(lines[b]) is None)
                    &&& (r->Err_0.cause is PatternError <==> (line_parse(lines[b]) is Some
                        && !pattern_ok(line_parse(lines[b])->Some_0.0)))
                }))
            }),
    {
        let raw = chars_vec(s);
        let norm = crlf_to_lf_chars(&raw);
        let ghost lines = split_lf(norm@);
        let n = norm.len();
        let mut cmds: Vec<RegexCommand> = Vec::new();
        let mut pos: usize = 0;
        let mut line_idx: usize = 0;
        proof {
            lemma_split_lf_len(norm@);
            assert(norm@.skip(0) =~= norm@);
            assert(lines.skip(0) =~= lines);
            assert(lines.take(0) =~= Seq::<Seq<char>>::empty());
            assert(rule_views(cmds@) =~= rules_of(lines.take(0)));
        }
        loop
            invariant
                n == norm@.len(),
                pos <= n,
                line_idx <= pos,
                line_idx < lines.len(),
                lines == split_lf(crlf_to_lf(s@)),
                norm@ == crlf_to_lf(s@),
                lines.skip(line_idx as int) == split_lf(norm@.skip(pos as int)),
                forall|k: int| 0 <= k < line_idx ==> line_ok(#[trigger] lines[k]),
                rule_views(cmds@) == rules_of(lines.take(line_idx as int)),
            decreases n - pos,
        {
            let mut j: usize = pos;
            while j < n && norm[j] != '\n'
                invariant
                    pos <= j <= n == norm@.len(),
                    forall|k: int| pos <= k < j ==> norm@[k] != '\n',
                decreases n - j,
            {
                j = j + 1;
            }
            let ghost t = norm@.skip(pos as int);
            let ghost cur = lines[line_idx as int];
            proof {
                lemma_split_lf_head(t, j - pos);
                assert(t.subrange(0, j - pos) =~= norm@.subrange(pos as int, j as int));
                if j < n {
                    assert(t.skip(j - pos + 1) =~= norm@.skip(j + 1));
                }
                assert(lines.skip(line_idx as int)[0] == cur);
                assert(cur == norm@.subrange(pos as int, j as int));
            }
            let skip_this = j == pos || (j - pos >= 2 && norm[pos] == '/' && norm[pos + 1] == '/');
            if skip_this {
                proof {
                    assert(line_skipped(cur));
                    assert(lines.take(line_idx + 1) =~= lines.take(line_idx as int).push(cur));
                    lemma_rules_of_push(lines.take(line_idx as int), cur);
                    lemma_rules_of_single(cur);
                    assert(rule_views(cmds@) =~= rules_of(lines.take(line_idx + 1)));
                }
            } else {
                let seg = copy_range(&norm, pos, j);
                let seg_str = chars_to_string(&seg);
                match RegexCommand::from_line(seg_str.as_str()) {
                    Err(e) => {
                        proof {
                            assert(!line_ok(cur));
                            lemma_first_bad_at(lines, line_idx as int);
                            assert(line_idx < j);
                        }
                        return Err(ScriptError { line: line_idx + 1, cause: e });
                    },
                    Ok(cmd) => {
                        cmds.push(cmd);
                        proof {
                            assert(line_ok(cur));
                            assert(lines.take(line_idx + 1) =~= lines.take(
                                line_idx as int,
                            ).push(cur));
                            lemma_rules_of_push(lines.take(line_idx as int), cur);
                            lemma_rules_of_single(cur);
                            assert(rule_views(cmds@) =~= rules_of(lines.take(line_idx + 1)));
                        }
                    },
                }
            }
            if j == n {
                proof {
                    assert(lines.skip(line_idx as int) == seq![t]);
                    assert(lines.len() == line_idx + 1);
                    assert(lines.take(line_idx + 1) =~= lines);
                    assert(script_ok(lines));
                }
                return Ok(RegexCommands(cmds));
            } else {
                proof {
                    lemma_split_lf_len(t.skip(j - pos + 1));
                    assert(lines.skip(line_idx as int).skip(1) =~= lines.skip(line_idx + 1));
                    assert((seq![cur] + split_lf(norm@.skip(j + 1))).skip(1) =~= split_lf(
                        norm@.skip(j + 1),
                    ));
                }
                pos = j + 1;
                line_idx = line_idx + 1;
            }
        }
    }

    /// Applies the rules in order to `subject` — each rule rewrites the text
    /// the previous rules produced — then runs the fixed end-of-pipeline
    /// normalization.
    pub fn transmorgify(&self, subject: &String) -> (r: String)
        ensures
            r@ == normalize(apply_rules(self.rules(), subject@)),
    {
        let ghost all = rule_views(self.0@);
        let mut cur: String = subject.clone();
        let mut i: usize = 0;
        proof {
            assert(all.skip(0) =~= all);
        }
        while i < self.0.len()
            invariant
                i <= self.0@.len(),
                all == rule_views(self.0@),
                apply_rules(all, subject@) == apply_rules(all.skip(i as int), cur@),
            decreases self.0@.len() - i,
        {
            let ghost pre = all.skip(i as int);
            let next = self.0[i].transmorgify(cur.as_str());
            cur = next;
            i = i + 1;
            proof {
                assert(pre[0] == (self.0@[i - 1].pattern(), self.0@[i - 1].template()));
                assert(pre.skip(1) =~= all.skip(i as int));
            }
        }
        proof {
            assert(all.skip(self.0@.len() as int) =~= Seq::<(Seq<char>, Seq<char>)>::empty());
        }
        let chars = chars_vec(cur.as_str());
        let normed = normalize_chars(&chars);
        chars_to_string(&normed)
    }
}

impl Default for RegexCommands {
    /// The empty pipeline: no rules at all.
    fn default() -> (r: Self)
        ensures
            r.rules() == Seq::<(Seq<char>, Seq<char>)>::empty(),
    {
        let r = RegexCommands(Vec::new());
        proof {
            assert(r.rules() =~= Seq::<(Seq<char>, Seq<char>)>::empty());
        }
        r
    }
}

} // verus!
