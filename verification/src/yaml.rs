//! YAML documents, as `serde_yaml` reads them.

use vstd::prelude::*;

verus! {

broadcast use vstd::string::group_string_axioms;

/// `serde_yaml::Value`, held as it is.
#[verifier::external_type_specification]
#[verifier::external_body]
pub struct ExYamlValue(serde_yaml::Value);

/// What a YAML value holds. A number is held as it is written out; the
/// entries of a mapping stand in the order in which they are walked.
pub ghost enum YamlView {
    Null,
    Bool(bool),
    Number(Seq<char>),
    Text(Seq<char>),
    Sequence(Seq<YamlView>),
    Mapping(Seq<(YamlView, YamlView)>),
    Tagged(Box<YamlView>),
}

/// What a `serde_yaml::Value` holds.
pub uninterp spec fn yaml_tree(v: serde_yaml::Value) -> YamlView;

/// The document that a text spells out, where it spells one.
pub uninterp spec fn yaml_document(text: Seq<char>) -> Option<YamlView>;

/// A value without the tags around it.
pub open spec fn untagged(v: YamlView) -> YamlView
    decreases v,
{
    match v {
        YamlView::Tagged(inner) => untagged(*inner),
        _ => v,
    }
}

/// The entries of a mapping, and none of another value.
pub open spec fn yaml_entries(v: YamlView) -> Seq<(YamlView, YamlView)> {
    match untagged(v) {
        YamlView::Mapping(entries) => entries,
        _ => Seq::empty(),
    }
}

/// The first place from `i` on with the text `k` as its key.
pub open spec fn entry_place(entries: Seq<(YamlView, YamlView)>, k: Seq<char>, i: int) -> Option<
    int,
>
    decreases entries.len() - i,
{
    if i < 0 || i >= entries.len() {
        None
    } else if entries[i].0 == YamlView::Text(k) {
        Some(i)
    } else {
        entry_place(entries, k, i + 1)
    }
}

/// The value of a mapping under the text `k`.
pub open spec fn yaml_member(v: YamlView, k: Seq<char>) -> Option<YamlView> {
    match entry_place(yaml_entries(v), k, 0) {
        Some(i) => Some(yaml_entries(v)[i].1),
        None => None,
    }
}

/// The text that a value is, where it is one.
pub open spec fn yaml_string(v: YamlView) -> Option<Seq<char>> {
    match untagged(v) {
        YamlView::Text(s) => Some(s),
        _ => None,
    }
}

/// The text or the number that a value is, as text, where it is one of the
/// two without any tag.
pub open spec fn yaml_scalar(v: YamlView) -> Option<Seq<char>> {
    match v {
        YamlView::Text(s) => Some(s),
        YamlView::Number(s) => Some(s),
        _ => None,
    }
}

/// Reads a document with `serde_yaml::from_str`: the outcome depends on the
/// text alone. Which texts are documents, and what they spell out, is left
/// to `serde_yaml`.
#[verifier::external_body]
pub(crate) fn parse(text: &str) -> (r: Option<serde_yaml::Value>)
    ensures
        yaml_document(text@) == (match r {
            Some(v) => Some(yaml_tree(v)),
            None => None,
        }),
{
    serde_yaml::from_str(text).ok()
}

/// `serde_yaml::Value::get` with a text: the value of a mapping under that
/// key, tags around the mapping set aside, and nothing for another value.
#[verifier::external_body]
pub(crate) fn member<'a>(v: &'a serde_yaml::Value, k: &str) -> (r: Option<&'a serde_yaml::Value>)
    ensures
        yaml_member(yaml_tree(*v), k@) == (match r {
            Some(m) => Some(yaml_tree(*m)),
            None => None,
        }),
{
    v.get(k)
}

/// `serde_yaml::Value::as_str`: the text, tags set aside, where the value
/// is one.
#[verifier::external_body]
pub(crate) fn string_of(v: &serde_yaml::Value) -> (r: Option<&str>)
    ensures
        yaml_string(yaml_tree(*v)) == (match r {
            Some(s) => Some(s@),
            None => None,
        }),
{
    v.as_str()
}

/// The variants of `serde_yaml::Value` that are a text or a number, the
/// number written out by its `to_string`; nothing for another variant.
#[verifier::external_body]
pub(crate) fn scalar_text(v: &serde_yaml::Value) -> (r: Option<String>)
    ensures
        r.deep_view() == yaml_scalar(yaml_tree(*v)),
{
    match v {
        serde_yaml::Value::String(s) => Some(s.clone()),
        serde_yaml::Value::Number(n) => Some(n.to_string()),
        _ => None,
    }
}

/// The keys and the values of a list of entries.
pub open spec fn entry_trees(s: Seq<(&serde_yaml::Value, &serde_yaml::Value)>) -> Seq<
    (YamlView, YamlView),
> {
    Seq::new(s.len(), |i: int| (yaml_tree(*s[i].0), yaml_tree(*s[i].1)))
}

/// `serde_yaml::Value::as_mapping` and the walk over the mapping it gives:
/// the entries, tags set aside, where the value is a mapping.
#[verifier::external_body]
pub(crate) fn entries_of(v: &serde_yaml::Value) -> (r: Option<
    Vec<(&serde_yaml::Value, &serde_yaml::Value)>,
>)
    ensures
        match r {
            Some(entries) => untagged(yaml_tree(*v)) == YamlView::Mapping(entry_trees(entries@)),
            None => !(untagged(yaml_tree(*v)) is Mapping),
        },
{
    v.as_mapping().map(|map| map.iter().collect())
}

} // verus!
