//! Name patterns: regular expressions that select files by base name.

use vstd::prelude::*;

verus! {

#[verifier::external_type_specification]
#[verifier::external_body]
pub struct ExRegex(regex::Regex);

#[verifier::external_type_specification]
#[verifier::external_body]
pub struct ExRegexError(regex::Error);

/// Whether the regex crate accepts `pattern`.
pub uninterp spec fn regex_compiles(pattern: Seq<char>) -> bool;

/// Whether the regex written `pattern` matches somewhere in `text`.
pub uninterp spec fn regex_matches(pattern: Seq<char>, text: Seq<char>) -> bool;

/// Relies on `regex::Regex::new`: it compiles `pattern`, and whether it
/// succeeds depends on the pattern alone.
#[verifier::external_body]
fn compile_regex(pattern: &str) -> (r: Result<regex::Regex, regex::Error>)
    ensures
        r is Ok <==> regex_compiles(pattern@),
{
    regex::Regex::new(pattern)
}

/// A compiled name pattern together with its source text.
///
/// The only constructor compiles `regex` from `source`, so the two always
/// agree.
pub struct NamePattern {
    source: String,
    regex: regex::Regex,
}

/// A pattern that the regex crate refuses.
pub enum PatternError {
    Invalid { pattern: String },
}

impl View for NamePattern {
    type V = Seq<char>;

    closed spec fn view(&self) -> Seq<char> {
        self.source@
    }
}

/// Relies on `regex::Regex::is_match`, on a regex compiled from the
/// pattern's source: whether it matches anywhere in `text`.
#[verifier::external_body]
fn pattern_is_match(p: &NamePattern, text: &str) -> (r: bool)
    ensures
        r == regex_matches(p@, text@),
{
    p.regex.is_match(text)
}

impl NamePattern {
    /// Compiles `source`; fails exactly when the regex crate refuses it.
    pub fn new(source: &str) -> (r: Result<NamePattern, PatternError>)
        ensures
            r is Ok <==> regex_compiles(source@),
            r matches Ok(p) ==> p@ == source@,
            r matches Err(PatternError::Invalid { pattern }) ==> pattern@ == source@,
    {
        match compile_regex(source) {
            Ok(regex) => Ok(NamePattern { source: String::from_str(source), regex }),
            Err(_) => Err(PatternError::Invalid { pattern: String::from_str(source) }),
        }
    }

    /// The pattern's source text.
    pub fn as_str(&self) -> (r: &str)
        ensures
            r@ == self@,
    {
        self.source.as_str()
    }

    /// Whether the pattern matches somewhere in `text`.
    pub fn is_match(&self, text: &str) -> (r: bool)
        ensures
            r == regex_matches(self@, text@),
    {
        pattern_is_match(self, text)
    }
}

/// The sources of a list of patterns.
pub open spec fn pattern_sources(ps: Seq<NamePattern>) -> Seq<Seq<char>> {
    ps.map_values(|p: NamePattern| p@)
}

/// Whether some pattern of `ps` matches `name`.
pub open spec fn any_matches(ps: Seq<Seq<char>>, name: Seq<char>) -> bool {
    exists|i: int| 0 <= i < ps.len() && regex_matches(#[trigger] ps[i], name)
}

/// Whether some pattern of `patterns` matches `name`.
pub fn any_pattern_matches(patterns: &Vec<NamePattern>, name: &str) -> (r: bool)
    ensures
        r == any_matches(pattern_sources(patterns@), name@),
{
    let ghost ps = pattern_sources(patterns@);
    let mut i: usize = 0;
    while i < patterns.len()
        invariant
            i <= patterns@.len(),
            ps == pattern_sources(patterns@),
            forall|j: int| 0 <= j < i ==> !regex_matches(#[trigger] ps[j], name@),
        decreases patterns@.len() - i,
    {
        if patterns[i].is_match(name) {
            assert(regex_matches(ps[i as int], name@));
            return true;
        }
        i = i + 1;
    }
    false
}

} // verus!
