//! A single find/replace rule and its trusted boundary to the `regex` crate.
//!
//! The rule stores the pattern source, the matcher compiled from it once at
//! construction, and the replace template after escape processing. Matching
//! itself is the `regex` crate's work; this crate only states what it relies
//! on: whether a pattern compiles depends on the pattern text alone, and the
//! text `replace_all` returns depends only on the pattern, the subject and
//! the template.

use vstd::prelude::*;
use vstd::string::StringExecFns;

use crate::line::{line_parse, parse_line, unescape, unescape_chars};
use crate::text::{chars_to_string, chars_vec};

verus! {

#[verifier::external_type_specification]
#[verifier::external_body]
pub struct ExRegex(regex::Regex);

#[verifier::external_type_specification]
#[verifier::external_body]
pub struct ExRegexError(regex::Error);

/// Whether the `regex` crate accepts this pattern text; a pattern either
/// compiles or it does not, independent of anything but its characters.
pub uninterp spec fn pattern_ok(pattern: Seq<char>) -> bool;

/// The text `replace_all` produces when the matcher compiled from `pattern`
/// rewrites every non-overlapping match in `subject` with `template`,
/// resolving the template's capture-group references per match.
pub uninterp spec fn replaced(pattern: Seq<char>, subject: Seq<char>, template: Seq<char>) -> Seq<
    char,
>;

/// Relies on `regex::Regex::new`: compilation succeeds or fails depending on
/// the pattern text alone.
#[verifier::external_body]
fn compile_regex(pattern: &str) -> (r: Result<regex::Regex, regex::Error>)
    ensures
        r is Ok <==> pattern_ok(pattern@),
{
    regex::Regex::new(pattern)
}

/// Relies on the `Display` implementation of `regex::Error` for the
/// compiler's diagnostic text.
#[verifier::external_body]
fn regex_error_text(e: &regex::Error) -> String {
    format!("{}", e)
}

/// What [`RegexCommand::description`] prints for a given pattern and
/// template.
pub open spec fn description_of(pattern: Seq<char>, template: Seq<char>) -> Seq<char> {
    "RegexCommand { find: \""@ + pattern + "\", replace: \""@ + template + "\" }"@
}

/// Why one line of script text did not yield a rule.
#[derive(Debug)]
pub enum LineError {
    /// The find pattern failed to compile; carries the compiler's diagnostic.
    PatternError { message: String },
    /// The line is neither blank, a comment, nor a well-formed quoted pair.
    LineFormatError,
}

/// A single find and replace command: a find pattern, the matcher compiled
/// from it once at construction, and a replace template.
pub struct RegexCommand {
    find: String,
    find_compiled: regex::Regex,
    replace: String,
}

impl RegexCommand {
    /// The find pattern's source text.
    pub closed spec fn pattern(self) -> Seq<char> {
        self.find@
    }

    /// The replace template, after escape processing.
    pub closed spec fn template(self) -> Seq<char> {
        self.replace@
    }

    /// Compiles `search` and pairs it with the literal replace text; fails
    /// exactly when `search` is not an acceptable pattern. No escape
    /// processing happens here: `replace` is stored as given.
    pub fn new(search: String, replace: String) -> (r: Result<Self, LineError>)
        ensures
            r is Ok <==> pattern_ok(search@),
            r is Ok ==> r->Ok_0.pattern() == search@ && r->Ok_0.template() == replace@,
            r is Err ==> r->Err_0 is PatternError,
    {
        match compile_regex(search.as_str()) {
            Ok(compiled) => Ok(RegexCommand { find: search, find_compiled: compiled, replace }),
            Err(e) => Err(LineError::PatternError { message: regex_error_text(&e) }),
        }
    }

    /// Parses one script line, `"find" -> "replace"` with optional prose
    /// around it, resolves the template escapes, and compiles the pattern.
    /// Fails with `LineFormatError` when the line does not fit the grammar,
    /// and with `PatternError` when the extracted pattern does not compile.
    pub fn from_line(line: &str) -> (r: Result<Self, LineError>)
        requires
            forall|k: int| 0 <= k < line@.len() ==> line@[k] != '\n',
        ensures
            r is Ok <==> (line_parse(line@) is Some && pattern_ok(line_parse(line@)->Some_0.0)),
            r is Ok ==> r->Ok_0.pattern() == line_parse(line@)->Some_0.0,
            r is Ok ==> r->Ok_0.template() == unescape(line_parse(line@)->Some_0.1),
            r is Err ==> (r->Err_0 is LineFormatError <==> line_parse(line@) is None),
    {
        let chars = chars_vec(line);
        match parse_line(&chars) {
            None => Err(LineError::LineFormatError),
            Some((search, replace)) => {
                let unescaped = unescape_chars(&replace);
                Self::new(chars_to_string(&search), chars_to_string(&unescaped))
            },
        }
    }

    /// Rule's textual description: the find pattern and the replace
    /// template, quoted; the derived matcher takes no part in it.
    pub fn description(&self) -> (r: String)
        ensures
            r@ == description_of(self.pattern(), self.template()),
    {
        let mut r: String = "RegexCommand { find: \"".to_owned();
        r.append(self.find.as_str());
        r.append("\", replace: \"");
        r.append(self.replace.as_str());
        r.append("\" }");
        r
    }

    /// Relies on `regex::Regex::replace_all` with a template string: the
    /// result is a function of the pattern, the subject and the template
    /// alone. `find_compiled` is built from `find` by the constructor and
    /// never changed afterwards.
    #[verifier::external_body]
    fn replace_all(&self, subject: &str) -> (r: String)
        ensures
            r@ == replaced(self.find@, subject@, self.replace@),
    {
        self.find_compiled.replace_all(subject, self.replace.as_str()).to_string()
    }

    /// Rewrites every non-overlapping match of this rule's pattern in
    /// `subject` with its template.
    pub fn transmorgify(&self, subject: &str) -> (r: String)
        ensures
            r@ == replaced(self.pattern(), subject@, self.template()),
    {
        self.replace_all(subject)
    }
}

impl PartialEq for RegexCommand {
    /// Two rules are equal exactly when their pattern and template strings
    /// are; the compiled matcher is derived and takes no part in identity.
    fn eq(&self, other: &Self) -> (r: bool) {
        self.find == other.find && self.replace == other.replace
    }
}

impl vstd::std_specs::cmp::PartialEqSpecImpl for RegexCommand {
    open spec fn obeys_eq_spec() -> bool {
        true
    }

    open spec fn eq_spec(&self, other: &Self) -> bool {
        self.pattern() == other.pattern() && self.template() == other.template()
    }
}

impl Eq for RegexCommand {}

} // verus!
