//! The text that an incident in JavaScript or TypeScript matched.

use crate::engine::rename::{find_mapping, mapping_of};
use crate::json::{items_of, json_string, json_trees, string_of, JsonView};
use crate::model::{RenameMapping, RenameMappingView};
use crate::report::{text_var, Incident, IncidentView};
use crate::strategy::or_else;
use crate::table::lookup;
use crate::text::owned;
use vstd::prelude::*;

verus! {

broadcast use vstd::string::group_string_axioms;

/// The text that an incident matched: the name of the attribute, the
/// component, the import, the class or the variable, whichever comes first.
pub open spec fn matched_text(incident: IncidentView) -> Seq<char> {
    or_else(
        text_var(incident, "propName"@),
        or_else(
            text_var(incident, "componentName"@),
            or_else(
                text_var(incident, "importedName"@),
                or_else(
                    text_var(incident, "className"@),
                    or_else(text_var(incident, "variableName"@), Seq::empty()),
                ),
            ),
        ),
    )
}

/// The text is the old name of a rename.
pub open spec fn is_renamed(mappings: Seq<RenameMappingView>, text: Seq<char>) -> bool {
    mapping_of(mappings, text, 0) is Some
}

/// The first text from `i` on that is renamed.
pub open spec fn renamed_item(
    items: Seq<JsonView>,
    mappings: Seq<RenameMappingView>,
    i: int,
) -> Option<Seq<char>>
    decreases items.len() - i,
{
    if i < 0 || i >= items.len() {
        None
    } else {
        match json_string(items[i]) {
            Some(s) => if is_renamed(mappings, s) {
                Some(s)
            } else {
                renamed_item(items, mappings, i + 1)
            },
            None => renamed_item(items, mappings, i + 1),
        }
    }
}

/// The elements of a variable that is a list, and none of another.
pub open spec fn list_var(incident: IncidentView, name: Seq<char>) -> Seq<JsonView> {
    match lookup(incident.variables, name) {
        Some(JsonView::Array(items)) => items,
        _ => Seq::empty(),
    }
}

/// The text that an incident matched, in view of the renames: its name
/// where that is renamed, else the value of the attribute or one of its
/// values where that is renamed, else its name.
pub open spec fn matched_for_renames(
    incident: IncidentView,
    mappings: Seq<RenameMappingView>,
) -> Seq<char> {
    let name = matched_text(incident);
    let value = text_var(incident, "propValue"@);
    if is_renamed(mappings, name) {
        name
    } else if value is Some && is_renamed(mappings, value->0) {
        value->0
    } else {
        or_else(renamed_item(list_var(incident, "propObjectValues"@), mappings, 0), name)
    }
}

/// The text that an incident matched.
pub fn get_matched_text_from_incident(incident: &Incident) -> (r: String)
    ensures
        r@ == matched_text(incident.deep_view()),
{
    match incident.text_variable("propName") {
        Some(s) => {
            return owned(s);
        },
        None => {},
    }
    match incident.text_variable("componentName") {
        Some(s) => {
            return owned(s);
        },
        None => {},
    }
    match incident.text_variable("importedName") {
        Some(s) => {
            return owned(s);
        },
        None => {},
    }
    match incident.text_variable("className") {
        Some(s) => {
            return owned(s);
        },
        None => {},
    }
    match incident.text_variable("variableName") {
        Some(s) => owned(s),
        None => String::new(),
    }
}

fn find_renamed_item(incident: &Incident, mappings: &Vec<RenameMapping>) -> (r: Option<String>)
    ensures
        r.deep_view() == renamed_item(
            list_var(incident.deep_view(), "propObjectValues"@),
            mappings.deep_view(),
            0,
        ),
{
    let list = match incident.variables.get("propObjectValues") {
        Some(v) => match items_of(&v.0) {
            Some(list) => list,
            None => {
                return None;
            },
        },
        None => {
            return None;
        },
    };
    let ghost items = json_trees(list@);
    let mut i: usize = 0;
    while i < list.len()
        invariant
            i <= list@.len(),
            items == json_trees(list@),
            items == list_var(incident.deep_view(), "propObjectValues"@),
            renamed_item(items, mappings.deep_view(), 0) == renamed_item(
                items,
                mappings.deep_view(),
                i as int,
            ),
        decreases list@.len() - i,
    {
        match string_of(&list[i]) {
            Some(s) => {
                if find_mapping(mappings, s).is_some() {
                    return Some(owned(s));
                }
            },
            None => {},
        }
        i = i + 1;
    }
    None
}

/// The text that an incident matched, in view of the renames.
pub fn get_matched_text_for_rename_from_incident(
    incident: &Incident,
    mappings: &Vec<RenameMapping>,
) -> (r: String)
    ensures
        r@ == matched_for_renames(incident.deep_view(), mappings.deep_view()),
{
    let name = get_matched_text_from_incident(incident);
    if find_mapping(mappings, name.as_str()).is_some() {
        return name;
    }
    match incident.text_variable("propValue") {
        Some(value) => {
            if find_mapping(mappings, value).is_some() {
                return owned(value);
            }
        },
        None => {},
    }
    match find_renamed_item(incident, mappings) {
        Some(item) => item,
        None => name,
    }
}

} // verus!
