//! What an analysis reports: sets of rules, the violations of each rule and
//! the incidents of each violation.

use crate::json::{json_string, string_of, Json, JsonView};
use crate::table::{lookup, TextTable};
use vstd::prelude::*;

verus! {

broadcast use vstd::string::group_string_axioms;

/// A place in a file that a rule matched.
#[derive(Debug)]
pub struct Incident {
    /// The file.
    pub file_uri: String,
    /// The line, counted from one.
    pub line_number: Option<u32>,
    /// What the rule says about it.
    pub message: String,
    /// The code around the line.
    pub code_snip: Option<String>,
    /// What the rule captured.
    pub variables: TextTable<Json>,
}

/// What a [`Incident`] holds.
#[verifier::ext_equal]
pub ghost struct IncidentView {
    pub file_uri: Seq<char>,
    pub line_number: Option<u32>,
    pub message: Seq<char>,
    pub code_snip: Option<Seq<char>>,
    pub variables: Seq<(Seq<char>, JsonView)>,
}

impl DeepView for Incident {
    type V = IncidentView;

    open spec fn deep_view(&self) -> IncidentView {
        IncidentView {
            file_uri: self.file_uri.deep_view(),
            line_number: self.line_number.deep_view(),
            message: self.message.deep_view(),
            code_snip: self.code_snip.deep_view(),
            variables: self.variables.deep_view(),
        }
    }
}

/// A rule that matched.
#[derive(Debug)]
pub struct Violation {
    /// The labels of the rule.
    pub labels: Vec<String>,
    /// The places that it matched.
    pub incidents: Vec<Incident>,
}

/// What a [`Violation`] holds.
#[verifier::ext_equal]
pub ghost struct ViolationView {
    pub labels: Seq<Seq<char>>,
    pub incidents: Seq<IncidentView>,
}

impl DeepView for Violation {
    type V = ViolationView;

    open spec fn deep_view(&self) -> ViolationView {
        ViolationView {
            labels: self.labels.deep_view(),
            incidents: self.incidents.deep_view(),
        }
    }
}

/// A set of rules with what they found.
#[derive(Debug)]
pub struct RuleFindings {
    /// The name of the set.
    pub name: String,
    /// The violations, by rule.
    pub violations: TextTable<Violation>,
    /// The errors of rules that could not be evaluated, by rule.
    pub errors: TextTable<String>,
}

/// What a [`RuleFindings`] holds.
#[verifier::ext_equal]
pub ghost struct RuleFindingsView {
    pub name: Seq<char>,
    pub violations: Seq<(Seq<char>, ViolationView)>,
    pub errors: Seq<(Seq<char>, Seq<char>)>,
}

impl DeepView for RuleFindings {
    type V = RuleFindingsView;

    open spec fn deep_view(&self) -> RuleFindingsView {
        RuleFindingsView {
            name: self.name.deep_view(),
            violations: self.violations.deep_view(),
            errors: self.errors.deep_view(),
        }
    }
}

/// The text that a variable of an incident holds, where it holds one.
pub open spec fn text_var(incident: IncidentView, name: Seq<char>) -> Option<Seq<char>> {
    match lookup(incident.variables, name) {
        Some(v) => json_string(v),
        None => None,
    }
}

/// An incident has a variable.
pub open spec fn has_var(incident: IncidentView, name: Seq<char>) -> bool {
    lookup(incident.variables, name) is Some
}

impl Incident {
    /// The text that a variable holds, where it holds one.
    pub fn text_variable(&self, name: &str) -> (r: Option<&str>)
        ensures
            text_var(self.deep_view(), name@) == (match r {
                Some(s) => Some(s@),
                None => None,
            }),
    {
        match self.variables.get(name) {
            Some(v) => string_of(&v.0),
            None => None,
        }
    }

    /// Whether there is a variable of the name.
    pub fn has_variable(&self, name: &str) -> (r: bool)
        ensures
            r == has_var(self.deep_view(), name@),
    {
        self.variables.contains_key(name)
    }
}

} // verus!
