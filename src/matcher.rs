//! The compiled search pattern.
use vstd::prelude::*;

verus! {

#[verifier::external_type_specification]
#[verifier::external_body]
pub struct ExRegex(regex::Regex);

#[verifier::external_type_specification]
#[verifier::external_body]
pub struct ExRegexError(regex::Error);

/// Whether `pattern` compiles as a regular expression, case-insensitive when
/// `nocase` holds.
pub uninterp spec fn pattern_compiles(pattern: Seq<char>, nocase: bool) -> bool;

/// Whether the regular expression compiled from `pattern` and `nocase` matches
/// somewhere in `line`.
pub uninterp spec fn line_matches(pattern: Seq<char>, nocase: bool, line: Seq<char>) -> bool;

/// Why a search cannot start.
#[derive(Clone, Copy, Debug, PartialEq, Eq, Structural)]
pub enum ConfigError {
    /// The pattern is not a valid regular expression.
    InvalidPattern,
}

/// Relies on regex's `RegexBuilder::new(pattern).case_insensitive(nocase).build()`,
/// which succeeds or fails by the pattern and the flag alone.
#[verifier::external_body]
fn build_regex(pattern: &str, nocase: bool) -> (r: Result<regex::Regex, regex::Error>)
    ensures
        r is Ok <==> pattern_compiles(pattern@, nocase),
{
    regex::RegexBuilder::new(pattern).case_insensitive(nocase).build()
}

/// A pattern compiled for matching lines, with the text and the flag it was
/// compiled from.
pub struct Matcher {
    pattern: String,
    nocase: bool,
    regex: regex::Regex,
}

impl View for Matcher {
    type V = (Seq<char>, bool);

    closed spec fn view(&self) -> (Seq<char>, bool) {
        (self.pattern@, self.nocase)
    }
}

impl Matcher {
    /// Compiles `pattern`, case-insensitive when `nocase` holds.
    pub fn new(pattern: &str, nocase: bool) -> (r: Result<Matcher, ConfigError>)
        ensures
            r is Ok <==> pattern_compiles(pattern@, nocase),
            r matches Ok(m) ==> m@ == (pattern@, nocase),
            r matches Err(e) ==> e == ConfigError::InvalidPattern,
    {
        match build_regex(pattern, nocase) {
            Ok(regex) => Ok(Matcher { pattern: String::from_str(pattern), nocase, regex }),
            Err(_) => Err(ConfigError::InvalidPattern),
        }
    }
}

/// Relies on regex's `Regex::is_match`, true exactly when the expression
/// matches somewhere in `line`. The field `regex` is only ever set by
/// `Matcher::new`, from the fields `pattern` and `nocase`.
#[verifier::external_body]
pub(crate) fn regex_is_match(m: &Matcher, line: &str) -> (r: bool)
    ensures
        r == line_matches(m@.0, m@.1, line@),
{
    m.regex.is_match(line)
}

} // verus!
