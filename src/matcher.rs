//! Compiled regular expressions that remember the pattern they were built from.
use vstd::prelude::*;

verus! {

#[verifier::external_type_specification]
#[verifier::external_body]
pub struct ExRegex(regex::Regex);

/// Whether `pattern` is a regular expression that `Regex::new` accepts.
pub uninterp spec fn regex_compiles(pattern: Seq<char>) -> bool;

/// Whether the regular expression `pattern`, compiled by `Regex::new`, matches
/// somewhere in `text`.
pub uninterp spec fn regex_is_match(pattern: Seq<char>, text: Seq<char>) -> bool;

/// The text that results from replacing every match of `pattern` (compiled by
/// `Regex::new`) in `text`
/// with `replacement`, where `$n` / `${n}` in `replacement` stand for groups.
pub uninterp spec fn regex_replace_all(
    pattern: Seq<char>,
    text: Seq<char>,
    replacement: Seq<char>,
) -> Seq<char>;

/// A regular expression together with the pattern it was compiled from.
///
/// Both fields are private and only `compile` sets them: the expression is
/// always `Regex::new` of the stored pattern, so how it matches is a function
/// of that pattern alone.
pub struct Matcher {
    source: String,
    regex: regex::Regex,
}

impl Matcher {
    /// The pattern this matcher was compiled from.
    pub closed spec fn pattern(&self) -> Seq<char> {
        self.source@
    }
}

/// Relies on regex::Regex::new: compiles `pattern` with the default settings,
/// or reports that it cannot.
#[verifier::external_body]
pub(crate) fn compile(pattern: &str) -> (r: Option<Matcher>)
    ensures
        r is Some <==> regex_compiles(pattern@),
        r matches Some(m) ==> m.pattern() == pattern@,
{
    match regex::Regex::new(pattern) {
        Ok(regex) => Some(Matcher { source: pattern.to_string(), regex }),
        Err(_) => None,
    }
}

/// Relies on regex::Regex::is_match, applied to the UTF-8 encoding of the one
/// character `c`.
#[verifier::external_body]
pub(crate) fn matches_char(m: &Matcher, c: char) -> (r: bool)
    ensures
        r == regex_is_match(m.pattern(), seq![c]),
{
    let mut buffer = [0u8; 4];
    m.regex.is_match(c.encode_utf8(&mut buffer))
}

/// Relies on regex::Regex::replace_all: every match replaced, left to right.
#[verifier::external_body]
pub(crate) fn replace_all(m: &Matcher, text: &str, replacement: &str) -> (r: String)
    ensures
        r@ == regex_replace_all(m.pattern(), text@, replacement@),
{
    m.regex.replace_all(text, replacement).into_owned()
}

} // verus!
