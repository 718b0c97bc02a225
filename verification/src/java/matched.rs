//! The text that a Java incident matched.

use crate::model::RenameMapping;
use crate::report::{text_var, Incident, IncidentView};
use crate::strategy::or_else;
use crate::text::owned;
use vstd::prelude::*;

verus! {

broadcast use vstd::string::group_string_axioms;

/// The text of a variable, unless it is empty.
pub open spec fn nonempty_var(incident: IncidentView, name: Seq<char>) -> Option<Seq<char>> {
    match text_var(incident, name) {
        Some(s) => if s.len() > 0 {
            Some(s)
        } else {
            None
        },
        None => None,
    }
}

/// The text that an incident matched: the name of the import, the type, the
/// method, the constructor or the annotation, or the whole matched text,
/// whichever comes first.
pub open spec fn matched_text(incident: IncidentView) -> Seq<char> {
    or_else(
        nonempty_var(incident, "importedName"@),
        or_else(
            nonempty_var(incident, "typeName"@),
            or_else(
                nonempty_var(incident, "methodName"@),
                or_else(
                    nonempty_var(incident, "constructorName"@),
                    or_else(
                        nonempty_var(incident, "annotationName"@),
                        or_else(nonempty_var(incident, "matchingText"@), Seq::empty()),
                    ),
                ),
            ),
        ),
    )
}

fn nonempty_variable<'a>(incident: &'a Incident, name: &str) -> (r: Option<&'a str>)
    ensures
        nonempty_var(incident.deep_view(), name@) == (match r {
            Some(s) => Some(s@),
            None => None,
        }),
{
    match incident.text_variable(name) {
        Some(s) => {
            if s.unicode_len() > 0 {
                Some(s)
            } else {
                None
            }
        },
        None => None,
    }
}

/// The text that an incident matched.
pub fn get_matched_text_from_incident(incident: &Incident) -> (r: String)
    ensures
        r@ == matched_text(incident.deep_view()),
{
    match nonempty_variable(incident, "importedName") {
        Some(s) => {
            return owned(s);
        },
        None => {},
    }
    match nonempty_variable(incident, "typeName") {
        Some(s) => {
            return owned(s);
        },
        None => {},
    }
    match nonempty_variable(incident, "methodName") {
        Some(s) => {
            return owned(s);
        },
        None => {},
    }
    match nonempty_variable(incident, "constructorName") {
        Some(s) => {
            return owned(s);
        },
        None => {},
    }
    match nonempty_variable(incident, "annotationName") {
        Some(s) => {
            return owned(s);
        },
        None => {},
    }
    match nonempty_variable(incident, "matchingText") {
        Some(s) => owned(s),
        None => String::new(),
    }
}

/// The text that an incident matched. The renames make no difference: the
/// first variable with a text decides, whether a rename is for it or not.
pub fn get_matched_text_for_rename_from_incident(
    incident: &Incident,
    mappings: &Vec<RenameMapping>,
) -> (r: String)
    ensures
        r@ == matched_text(incident.deep_view()),
{
    get_matched_text_from_incident(incident)
}

} // verus!
