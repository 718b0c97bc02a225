//! What a framework tells a language model: prompts, constraints and the
//! order in which requests are processed.

use crate::text::cat3;
use vstd::prelude::*;

verus! {

broadcast use vstd::string::group_string_axioms;

/// The prompt for a language model, around the description of a migration.
pub open spec fn system_prompt(description: Seq<char>) -> Seq<char> {
    "You are a "@ + description
        + " assistant. Given a code snippet and a migration message, output ONLY the corrected code for the affected lines. Output in this exact format:\n\n```fix\nLINE:<line_number>\nOLD:<exact old text on that line>\nNEW:<replacement text>\n```\n\nYou may output multiple fix blocks. Do not include any explanation outside the fix blocks. Only output fixes for lines that need to change."@
}

/// What a framework or a rule set tells a language model. Contexts are kept
/// in a registry and found by the name of their rule set. A context says in
/// `name` and `description` what its two texts are; one that is written in
/// plain Rust leaves the two out, and nothing is known of its texts.
pub trait FixContext: Send + Sync {
    /// The name of the rule set.
    open spec fn name(&self) -> Seq<char> {
        arbitrary()
    }

    /// The migration in words.
    open spec fn description(&self) -> Seq<char> {
        arbitrary()
    }

    /// The name of the rule set.
    fn ruleset_name(&self) -> (r: &str)
        ensures
            r@ == self.name(),
    ;

    /// The migration in words, such as "PatternFly v5 to v6".
    fn migration_description(&self) -> (r: &str)
        ensures
            r@ == self.description(),
    ;

    /// Constraints for prompts, one line each.
    fn llm_constraints(&self) -> &[String];

    /// What a prompt warns against undoing, where there is something.
    fn revert_warnings(&self) -> (r: Option<&str>)
        default_ensures
            r is None,
    {
        None
    }

    /// The place of a request in a batch: lower numbers come first.
    fn fix_priority(&self, _rule_id: &str) -> (r: u8)
        default_ensures
            r == 3,
    {
        3
    }

    /// Kinds of changes, as a list for prompts.
    fn change_type_examples(&self) -> (r: &str)
        default_ensures
            r@ == "add/remove/rename identifiers, update references"@,
    {
        "add/remove/rename identifiers, update references"
    }

    /// What to verify after fixes, where there is something.
    fn verification_prompt(&self) -> (r: Option<&str>)
        default_ensures
            r is None,
    {
        None
    }

    /// The prompt for a language model.
    fn llm_system_prompt(&self) -> (r: String)
        default_ensures
            r@ == system_prompt(self.description()),
    {
        cat3(
            "You are a ",
            self.migration_description(),
            " assistant. Given a code snippet and a migration message, output ONLY the corrected code for the affected lines. Output in this exact format:\n\n```fix\nLINE:<line_number>\nOLD:<exact old text on that line>\nNEW:<replacement text>\n```\n\nYou may output multiple fix blocks. Do not include any explanation outside the fix blocks. Only output fixes for lines that need to change.",
        )
    }
}

/// A context gives these constraints.
pub open spec fn gives_constraints<C: FixContext + ?Sized>(c: &C, r: &[String]) -> bool {
    call_ensures(C::llm_constraints, (c,), r)
}

/// A context gives this warning.
pub open spec fn gives_warnings<C: FixContext + ?Sized>(c: &C, r: Option<&str>) -> bool {
    call_ensures(C::revert_warnings, (c,), r)
}

/// A context gives requests of a rule this place.
pub open spec fn gives_priority<C: FixContext + ?Sized>(c: &C, rule_id: &str, r: u8) -> bool {
    call_ensures(C::fix_priority, (c, rule_id), r)
}

/// A context gives these kinds of changes.
pub open spec fn gives_examples<C: FixContext + ?Sized>(c: &C, r: &str) -> bool {
    call_ensures(C::change_type_examples, (c,), r)
}

/// A context gives this to verify.
pub open spec fn gives_verification<C: FixContext + ?Sized>(c: &C, r: Option<&str>) -> bool {
    call_ensures(C::verification_prompt, (c,), r)
}

/// A context gives this prompt.
pub open spec fn gives_prompt<C: FixContext + ?Sized>(c: &C, r: String) -> bool {
    call_ensures(C::llm_system_prompt, (c,), r)
}

/// The context for rule sets without one of their own.
#[derive(Debug, Clone, Copy)]
pub struct GenericFixContext;

impl FixContext for GenericFixContext {
    open spec fn name(&self) -> Seq<char> {
        ""@
    }

    open spec fn description(&self) -> Seq<char> {
        "code migration"@
    }

    fn ruleset_name(&self) -> (r: &str) {
        ""
    }

    fn migration_description(&self) -> (r: &str) {
        "code migration"
    }

    fn llm_constraints(&self) -> (r: &[String])
        ensures
            r@.len() == 0,
    {
        &[]
    }
}

} // verus!
