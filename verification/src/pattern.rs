//! Compiled regular expressions, matched by the `regex` crate.
use vstd::prelude::*;

verus! {

#[verifier::external_type_specification]
#[verifier::external_body]
pub struct ExRegex(regex::Regex);

/// Whether `regex::RegexBuilder` accepts `pattern` with the given
/// case-insensitivity setting.
pub uninterp spec fn regex_compiles(pattern: Seq<char>, case_insensitive: bool) -> bool;

/// The text of each successive non-overlapping match of `pattern` in
/// `haystack`, as `regex::Regex::find_iter` reports them.
pub uninterp spec fn regex_find_all(
    pattern: Seq<char>,
    case_insensitive: bool,
    haystack: Seq<char>,
) -> Seq<Seq<char>>;

/// For each successive non-overlapping match of `pattern` in `haystack`,
/// the text of every capture group (group 0 first; `None` for a group that
/// took no part in the match), as `regex::Regex::captures_iter` reports them.
pub uninterp spec fn regex_captures_all(
    pattern: Seq<char>,
    case_insensitive: bool,
    haystack: Seq<char>,
) -> Seq<Seq<Option<Seq<char>>>>;

/// Whether `pattern` matches anywhere in `haystack`, as
/// `regex::Regex::is_match` reports it.
pub uninterp spec fn regex_is_match(
    pattern: Seq<char>,
    case_insensitive: bool,
    haystack: Seq<char>,
) -> bool;

/// A regular expression together with the pattern text and the
/// case-insensitivity setting it was compiled from. Only [`compile`] makes
/// one, so the compiled expression always belongs to the text and setting
/// kept beside it.
pub(crate) struct Pattern {
    source: String,
    case_insensitive: bool,
    compiled: regex::Regex,
}

impl Pattern {
    /// The pattern text this expression was compiled from.
    pub closed spec fn source(&self) -> Seq<char> {
        self.source@
    }

    /// Whether this expression was compiled to ignore case.
    pub closed spec fn ignores_case(&self) -> bool {
        self.case_insensitive
    }
}

/// Compiles `source` with `regex::RegexBuilder` (`case_insensitive` set as
/// given). The contract claims that the build succeeds exactly when
/// `regex_compiles` holds of the arguments, and that the result remembers
/// the pattern text and setting it was built from.
#[verifier::external_body]
pub(crate) fn compile(source: &str, case_insensitive: bool) -> (r: Option<Pattern>)
    ensures
        r is Some <==> regex_compiles(source@, case_insensitive),
        r matches Some(p) ==> p.source() == source@ && p.ignores_case() == case_insensitive,
{
    match regex::RegexBuilder::new(source).case_insensitive(case_insensitive).build() {
        Ok(compiled) => Some(Pattern { source: source.to_string(), case_insensitive, compiled }),
        Err(_) => None,
    }
}

/// Runs `regex::Regex::find_iter` and hands out the text of each match.
/// The contract claims the texts are `regex_find_all` of the pattern the
/// expression was compiled from and the haystack.
#[verifier::external_body]
pub(crate) fn find_all(p: &Pattern, haystack: &str) -> (r: Vec<String>)
    ensures
        r.deep_view() == regex_find_all(p.source(), p.ignores_case(), haystack@),
{
    p.compiled.find_iter(haystack).map(|m| m.as_str().to_string()).collect()
}

/// Runs `regex::Regex::captures_iter` and hands out, per match, the text of
/// each group (`Captures::iter`). The contract claims the result is
/// `regex_captures_all` of the pattern text and the haystack.
#[verifier::external_body]
pub(crate) fn captures_all(p: &Pattern, haystack: &str) -> (r: Vec<Vec<Option<String>>>)
    ensures
        r.deep_view() == regex_captures_all(p.source(), p.ignores_case(), haystack@),
{
    p.compiled.captures_iter(haystack).map(
        |c| c.iter().map(|g| g.map(|m| m.as_str().to_string())).collect(),
    ).collect()
}

/// Runs `regex::Regex::is_match`. The contract claims the answer is
/// `regex_is_match` of the pattern text and the haystack.
#[verifier::external_body]
pub(crate) fn is_match(p: &Pattern, haystack: &str) -> (r: bool)
    ensures
        r == regex_is_match(p.source(), p.ignores_case(), haystack@),
{
    p.compiled.is_match(haystack)
}

} // verus!
