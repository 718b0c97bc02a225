//! The contexts that are known, by the names of their rule sets.

use crate::context::{
    gives_constraints, gives_examples, gives_priority, gives_prompt, gives_verification,
    gives_warnings, system_prompt, FixContext, GenericFixContext,
};
use crate::text::{owned, same};
use vstd::prelude::*;

verus! {

broadcast use vstd::string::group_string_axioms;

/// The place from `i` on of a name.
pub open spec fn name_place(names: Seq<Seq<char>>, name: Seq<char>, i: int) -> Option<int>
    decreases names.len() - i,
{
    if i < 0 || i >= names.len() {
        None
    } else if names[i] == name {
        Some(i)
    } else {
        name_place(names, name, i + 1)
    }
}

/// The names of a registry, and a value for each, once a context is
/// registered: in place of the one with its name, or behind the others.
pub open spec fn with_context<T>(
    names: Seq<Seq<char>>,
    values: Seq<T>,
    name: Seq<char>,
    value: T,
) -> (Seq<Seq<char>>, Seq<T>) {
    match name_place(names, name, 0) {
        Some(i) => (names, values.update(i, value)),
        None => (names.push(name), values.push(value)),
    }
}

/// The value that stands under a name.
pub open spec fn value_for<T>(
    names: Seq<Seq<char>>,
    values: Seq<T>,
    name: Seq<char>,
) -> Option<T> {
    match name_place(names, name, 0) {
        Some(i) => Some(values[i]),
        None => None,
    }
}

/// Each name stands once.
pub open spec fn names_once(names: Seq<Seq<char>>) -> bool {
    forall|i: int, j: int| 0 <= i < j < names.len() ==> names[i] != names[j]
}

/// A context with its name and its description.
pub struct Entry<T> {
    name: String,
    description: String,
    context: T,
}

impl<T> Entry<T> {
    /// The name of the rule set.
    pub closed spec fn title(&self) -> Seq<char> {
        self.name@
    }

    /// The migration in words.
    pub closed spec fn words(&self) -> Seq<char> {
        self.description@
    }

    /// The context.
    pub closed spec fn held(&self) -> &T {
        &self.context
    }
}

fn make_entry<T>(name: String, description: String, context: T) -> (r: Entry<T>)
    ensures
        r.title() == name@,
        r.words() == description@,
        r.held() == &context,
{
    Entry { name, description, context }
}

/// The contexts that are known, by the names of their rule sets, and the
/// one for all other rule sets.
pub struct FixContextRegistry {
    entries: Vec<Entry<Box<dyn FixContext>>>,
    fallback: GenericFixContext,
}

impl FixContextRegistry {
    /// The names of the rule sets that have a context.
    pub closed spec fn names(&self) -> Seq<Seq<char>> {
        Seq::new(self.entries@.len(), |i: int| self.entries@[i].title())
    }

    /// The descriptions of the contexts, in the order of the names.
    pub closed spec fn descriptions(&self) -> Seq<Seq<char>> {
        Seq::new(self.entries@.len(), |i: int| self.entries@[i].words())
    }

    /// The contexts, in the order of the names.
    pub closed spec fn contexts(&self) -> Seq<&Box<dyn FixContext>> {
        Seq::new(self.entries@.len(), |i: int| self.entries@[i].held())
    }

    /// Each name stands once, with a description and a context.
    pub open spec fn well_formed(&self) -> bool {
        &&& names_once(self.names())
        &&& self.descriptions().len() == self.names().len()
        &&& self.contexts().len() == self.names().len()
    }

    /// A registry without contexts.
    pub fn new() -> (r: FixContextRegistry)
        ensures
            r.names().len() == 0,
            r.well_formed(),
    {
        FixContextRegistry { entries: Vec::new(), fallback: GenericFixContext }
    }

    fn place_of(&self, name: &str) -> (r: Option<usize>)
        ensures
            name_place(self.names(), name@, 0) == (match r {
                Some(i) => Some(i as int),
                None => None,
            }),
            r matches Some(i) ==> i < self.entries@.len(),
    {
        let mut i: usize = 0;
        while i < self.entries.len()
            invariant
                i <= self.entries@.len(),
                name_place(self.names(), name@, 0) == name_place(self.names(), name@, i as int),
            decreases self.entries@.len() - i,
        {
            if same(self.entries[i].name.as_str(), name) {
                return Some(i);
            }
            i = i + 1;
        }
        None
    }

    /// Registers a context under the name of its rule set, in place of the
    /// one that stood there.
    pub fn register(&mut self, ctx: Box<dyn FixContext>)
        ensures
            old(self).well_formed() ==> final(self).well_formed(),
            registered(*old(self), &ctx, *final(self)),
    {
        let ghost contexts = self.contexts();
        let ghost kept = &ctx;
        let ghost names = self.names();
        let ghost descriptions = self.descriptions();
        let ghost wanted = ctx.name();
        let ghost said = ctx.description();
        let name = owned(ctx.ruleset_name());
        let description = owned(ctx.migration_description());
        let entry = make_entry(name, description, ctx);
        proof {
            lemma_name_place(names, wanted, 0);
        }
        match self.place_of(entry.name.as_str()) {
            Some(i) => {
                self.entries.set(i, entry);
                assert(self.names() =~= names);
                assert(self.descriptions() =~= descriptions.update(i as int, said));
                assert(self.contexts() =~= contexts.update(i as int, kept));
            },
            None => {
                self.entries.push(entry);
                assert(self.names() =~= names.push(wanted));
                assert(self.descriptions() =~= descriptions.push(said));
                assert(self.contexts() =~= contexts.push(kept));
            },
        }
    }

    /// Looks up the context for a rule set: the one registered under its
    /// name, or the generic one.
    pub fn get<'a>(&'a self, ruleset_name: &str) -> (r: ContextRef<'a>)
        ensures
            match value_for(self.names(), self.descriptions(), ruleset_name@) {
                Some(d) => r.name() == ruleset_name@ && r.description() == d,
                None => r.name() == ""@ && r.description() == "code migration"@,
            },
            match value_for(self.names(), self.contexts(), ruleset_name@) {
                Some(c) => r matches ContextRef::Registered(e) && e.held() == c,
                None => r is Generic,
            },
    {
        proof {
            lemma_name_place(self.names(), ruleset_name@, 0);
        }
        match self.place_of(ruleset_name) {
            Some(i) => ContextRef::Registered(&self.entries[i]),
            None => ContextRef::Generic(&self.fallback),
        }
    }

    /// Whether a context is registered for a rule set.
    pub fn has(&self, ruleset_name: &str) -> (r: bool)
        ensures
            r == self.names().contains(ruleset_name@),
    {
        proof {
            lemma_name_place(self.names(), ruleset_name@, 0);
        }
        self.place_of(ruleset_name).is_some()
    }
}

/// One registry is another one once a context is registered.
pub open spec fn registered(
    before: FixContextRegistry,
    ctx: &Box<dyn FixContext>,
    after: FixContextRegistry,
) -> bool {
    &&& (after.names(), after.descriptions()) == with_context(
        before.names(),
        before.descriptions(),
        ctx.name(),
        ctx.description(),
    )
    &&& (after.names(), after.contexts()) == with_context(
        before.names(),
        before.contexts(),
        ctx.name(),
        ctx,
    )
}

impl Default for FixContextRegistry {
    fn default() -> (r: FixContextRegistry)
        ensures
            r.names().len() == 0,
            r.well_formed(),
    {
        FixContextRegistry::new()
    }
}

/// `name_place` is the first place of a name.
pub proof fn lemma_name_place(names: Seq<Seq<char>>, name: Seq<char>, i: int)
    requires
        0 <= i,
    ensures
        match name_place(names, name, i) {
            Some(p) => i <= p < names.len() && names[p] == name && forall|j: int|
                i <= j < p ==> names[j] != name,
            None => forall|j: int| i <= j < names.len() ==> names[j] != name,
        },
    decreases names.len() - i,
{
    if i < names.len() && names[i] != name {
        lemma_name_place(names, name, i + 1);
    }
}

/// The constraints that a context gives.
fn constraints_of<C: FixContext + ?Sized>(c: &C) -> (r: &[String])
    ensures
        gives_constraints(c, r),
{
    c.llm_constraints()
}

/// The warning that a context gives.
fn warnings_of<C: FixContext + ?Sized>(c: &C) -> (r: Option<&str>)
    ensures
        gives_warnings(c, r),
{
    c.revert_warnings()
}

/// The place that a context gives to requests of a rule.
fn priority_of<C: FixContext + ?Sized>(c: &C, rule_id: &str) -> (r: u8)
    ensures
        gives_priority(c, rule_id, r),
{
    c.fix_priority(rule_id)
}

/// The kinds of changes that a context gives.
fn examples_of<C: FixContext + ?Sized>(c: &C) -> (r: &str)
    ensures
        gives_examples(c, r),
{
    c.change_type_examples()
}

/// What a context gives to verify.
fn verification_of<C: FixContext + ?Sized>(c: &C) -> (r: Option<&str>)
    ensures
        gives_verification(c, r),
{
    c.verification_prompt()
}

/// The prompt that a context gives.
fn prompt_of<C: FixContext + ?Sized>(c: &C) -> (r: String)
    ensures
        gives_prompt(c, r),
{
    c.llm_system_prompt()
}

/// A context that was looked up.
pub enum ContextRef<'a> {
    /// One that is registered.
    Registered(&'a Entry<Box<dyn FixContext>>),
    /// The one for all other rule sets.
    Generic(&'a GenericFixContext),
}

impl<'a> FixContext for ContextRef<'a> {
    open spec fn name(&self) -> Seq<char> {
        match self {
            ContextRef::Registered(c) => c.title(),
            ContextRef::Generic(c) => c.name(),
        }
    }

    open spec fn description(&self) -> Seq<char> {
        match self {
            ContextRef::Registered(c) => c.words(),
            ContextRef::Generic(c) => c.description(),
        }
    }

    fn ruleset_name(&self) -> (r: &str) {
        match self {
            ContextRef::Registered(c) => c.name.as_str(),
            ContextRef::Generic(c) => c.ruleset_name(),
        }
    }

    fn migration_description(&self) -> (r: &str) {
        match self {
            ContextRef::Registered(c) => c.description.as_str(),
            ContextRef::Generic(c) => c.migration_description(),
        }
    }

    fn llm_constraints(&self) -> (r: &[String])
        ensures
            match self {
                ContextRef::Registered(c) => gives_constraints::<dyn FixContext + 'static>(
                    &**c.held(),
                    r,
                ),
                ContextRef::Generic(_) => r@.len() == 0,
            },
    {
        match self {
            ContextRef::Registered(c) => constraints_of::<dyn FixContext + 'static>(&*c.context),
            ContextRef::Generic(c) => c.llm_constraints(),
        }
    }

    fn revert_warnings(&self) -> (r: Option<&str>)
        ensures
            match self {
                ContextRef::Registered(c) => gives_warnings::<dyn FixContext + 'static>(
                    &**c.held(),
                    r,
                ),
                ContextRef::Generic(_) => r is None,
            },
    {
        match self {
            ContextRef::Registered(c) => warnings_of::<dyn FixContext + 'static>(&*c.context),
            ContextRef::Generic(c) => c.revert_warnings(),
        }
    }

    fn fix_priority(&self, rule_id: &str) -> (r: u8)
        ensures
            match self {
                ContextRef::Registered(c) => gives_priority::<dyn FixContext + 'static>(
                    &**c.held(),
                    rule_id,
                    r,
                ),
                ContextRef::Generic(_) => r == 3,
            },
    {
        match self {
            ContextRef::Registered(c) => priority_of::<dyn FixContext + 'static>(
                &*c.context,
                rule_id,
            ),
            ContextRef::Generic(c) => c.fix_priority(rule_id),
        }
    }

    fn change_type_examples(&self) -> (r: &str)
        ensures
            match self {
                ContextRef::Registered(c) => gives_examples::<dyn FixContext + 'static>(
                    &**c.held(),
                    r,
                ),
                ContextRef::Generic(_) => r@ == "add/remove/rename identifiers, update references"@,
            },
    {
        match self {
            ContextRef::Registered(c) => examples_of::<dyn FixContext + 'static>(&*c.context),
            ContextRef::Generic(c) => c.change_type_examples(),
        }
    }

    fn verification_prompt(&self) -> (r: Option<&str>)
        ensures
            match self {
                ContextRef::Registered(c) => gives_verification::<dyn FixContext + 'static>(
                    &**c.held(),
                    r,
                ),
                ContextRef::Generic(_) => r is None,
            },
    {
        match self {
            ContextRef::Registered(c) => verification_of::<dyn FixContext + 'static>(&*c.context),
            ContextRef::Generic(c) => c.verification_prompt(),
        }
    }

    fn llm_system_prompt(&self) -> (r: String)
        ensures
            match self {
                ContextRef::Registered(c) => gives_prompt::<dyn FixContext + 'static>(
                    &**c.held(),
                    r,
                ),
                ContextRef::Generic(_) => r@ == system_prompt("code migration"@),
            },
    {
        match self {
            ContextRef::Registered(c) => prompt_of::<dyn FixContext + 'static>(&*c.context),
            ContextRef::Generic(c) => c.llm_system_prompt(),
        }
    }
}

} // verus!
