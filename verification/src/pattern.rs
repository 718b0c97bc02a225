//! Regular expressions, as the `regex` crate matches them.

use vstd::prelude::*;

verus! {

broadcast use vstd::string::group_string_axioms;

/// The text is a regular expression that `regex` compiles.
pub uninterp spec fn is_pattern(pattern: Seq<char>) -> bool;

/// The leftmost match of a pattern: the text before it, the match, and the
/// text after it.
pub uninterp spec fn regex_found(pattern: Seq<char>, hay: Seq<char>) -> Option<
    (Seq<char>, Seq<char>, Seq<char>),
>;

/// The groups of the leftmost match of a pattern, the whole match first.
pub uninterp spec fn regex_groups(pattern: Seq<char>, hay: Seq<char>) -> Option<
    Seq<Option<Seq<char>>>,
>;

/// The groups of each match of a pattern, from left to right.
pub uninterp spec fn regex_all_groups(pattern: Seq<char>, hay: Seq<char>) -> Seq<
    Seq<Option<Seq<char>>>,
>;

/// The text with each match of a pattern replaced.
pub uninterp spec fn regex_replaced(
    pattern: Seq<char>,
    hay: Seq<char>,
    replacement: Seq<char>,
) -> Seq<char>;

/// The character means something in a pattern.
pub open spec fn is_meta(c: char) -> bool {
    c == '\\' || c == '.' || c == '+' || c == '*' || c == '?' || c == '(' || c == ')' || c == '|'
        || c == '[' || c == ']' || c == '{' || c == '}' || c == '^' || c == '$' || c == '#' || c
        == '&' || c == '-' || c == '~'
}

/// The first `n` characters, each that means something in a pattern behind a
/// backslash.
pub open spec fn escaped(text: Seq<char>, n: int) -> Seq<char>
    decreases n,
{
    if n <= 0 {
        Seq::empty()
    } else if is_meta(text[n - 1]) {
        escaped(text, n - 1).push('\\').push(text[n - 1])
    } else {
        escaped(text, n - 1).push(text[n - 1])
    }
}

/// A pattern that stands for the text itself.
pub open spec fn regex_escaped(text: Seq<char>) -> Seq<char> {
    escaped(text, text.len() as int)
}

/// `regex::Regex::new`: whether the pattern compiles, which the pattern
/// alone decides.
#[verifier::external_body]
pub(crate) fn compiles(pattern: &str) -> (r: bool)
    ensures
        r == is_pattern(pattern@),
{
    regex::Regex::new(pattern).is_ok()
}

/// `regex::Regex::find`: the leftmost match, with what stands before and
/// after it. The three make up the text that was searched.
#[verifier::external_body]
pub(crate) fn find(pattern: &str, hay: &str) -> (r: Option<(String, String, String)>)
    requires
        is_pattern(pattern@),
    ensures
        r.deep_view() == regex_found(pattern@, hay@),
        r matches Some(m) ==> m.0@ + m.1@ + m.2@ == hay@,
{
    let compiled = regex::Regex::new(pattern).unwrap();
    compiled.find(hay).map(
        |m|
            (
                hay[..m.start()].to_string(),
                m.as_str().to_string(),
                hay[m.end()..].to_string(),
            ),
    )
}

/// `regex::Regex::captures`: the groups of the leftmost match, the whole
/// match first, each as the text it matched.
#[verifier::external_body]
pub(crate) fn captures(pattern: &str, hay: &str) -> (r: Option<Vec<Option<String>>>)
    requires
        is_pattern(pattern@),
    ensures
        r.deep_view() == regex_groups(pattern@, hay@),
{
    let compiled = regex::Regex::new(pattern).unwrap();
    compiled.captures(hay).map(
        |groups| groups.iter().map(|g| g.map(|m| m.as_str().to_string())).collect(),
    )
}

/// `regex::Regex::captures_iter`: the groups of each match, from left to
/// right, each as the text it matched.
#[verifier::external_body]
pub(crate) fn all_captures(pattern: &str, hay: &str) -> (r: Vec<Vec<Option<String>>>)
    requires
        is_pattern(pattern@),
    ensures
        r.deep_view() == regex_all_groups(pattern@, hay@),
{
    let compiled = regex::Regex::new(pattern).unwrap();
    compiled.captures_iter(hay).map(
        |groups| groups.iter().map(|g| g.map(|m| m.as_str().to_string())).collect(),
    ).collect()
}

/// `regex::Regex::replace_all` with a replacement text.
#[verifier::external_body]
pub(crate) fn replace_matches(pattern: &str, hay: &str, replacement: &str) -> (r: String)
    requires
        is_pattern(pattern@),
    ensures
        r@ == regex_replaced(pattern@, hay@, replacement@),
{
    regex::Regex::new(pattern).unwrap().replace_all(hay, replacement).into_owned()
}

/// `regex::escape`: the text with a backslash before each character that
/// means something in a pattern.
#[verifier::external_body]
pub(crate) fn escape(text: &str) -> (r: String)
    ensures
        r@ == regex_escaped(text@),
{
    regex::escape(text)
}

} // verus!
