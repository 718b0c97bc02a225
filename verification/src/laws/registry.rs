//! The registry of migration contexts.

use crate::context::FixContext;
use crate::registry::{
    lemma_name_place, name_place, registered, value_for, with_context, FixContextRegistry,
};
use vstd::prelude::*;

verus! {

/// What was put under a name is found there, and what stands under other
/// names is as it was.
proof fn lemma_with_context<T>(
    names: Seq<Seq<char>>,
    values: Seq<T>,
    name: Seq<char>,
    value: T,
    other: Seq<char>,
)
    requires
        names.len() == values.len(),
    ensures
        ({
            let after = with_context(names, values, name, value);
            &&& value_for(after.0, after.1, name) == Some(value)
            &&& other != name ==> value_for(after.0, after.1, other) == value_for(
                names,
                values,
                other,
            )
        }),
{
    let after = with_context(names, values, name, value);
    lemma_name_place(names, name, 0);
    lemma_name_place(names, other, 0);
    lemma_name_place(after.0, name, 0);
    lemma_name_place(after.0, other, 0);
    match name_place(names, name, 0) {
        Some(_) => {},
        None => {
            assert(after.0[names.len() as int] == name);
            match name_place(names, other, 0) {
                Some(i) => {
                    assert(after.0[i] == other);
                    let q = name_place(after.0, other, 0)->Some_0;
                    if q < i {
                        assert(names[q] == other);
                    }
                },
                None => {
                    match name_place(after.0, other, 0) {
                        Some(q) => {
                            if q < names.len() {
                                assert(names[q] == other);
                            }
                        },
                        None => {},
                    }
                },
            }
        },
    }
}

/// A context that was registered, and its description, is found under its
/// name, in place of an earlier one.
pub proof fn law_registered_context_is_found(
    before: FixContextRegistry,
    ctx: &Box<dyn FixContext>,
    after: FixContextRegistry,
)
    requires
        before.well_formed(),
        registered(before, ctx, after),
    ensures
        after.names().contains(ctx.name()),
        value_for(after.names(), after.contexts(), ctx.name()) == Some(ctx),
        value_for(after.names(), after.descriptions(), ctx.name()) == Some(ctx.description()),
{
    lemma_with_context(before.names(), before.contexts(), ctx.name(), ctx, ctx.name());
    lemma_with_context(
        before.names(),
        before.descriptions(),
        ctx.name(),
        ctx.description(),
        ctx.name(),
    );
    lemma_name_place(after.names(), ctx.name(), 0);
}

/// Registering a context leaves what is found under every other name as it
/// was: the same context with the same description, or none.
pub proof fn law_registering_keeps_the_other_contexts(
    before: FixContextRegistry,
    ctx: &Box<dyn FixContext>,
    after: FixContextRegistry,
    other: Seq<char>,
)
    requires
        before.well_formed(),
        registered(before, ctx, after),
        other != ctx.name(),
    ensures
        after.names().contains(other) == before.names().contains(other),
        value_for(after.names(), after.contexts(), other) == value_for(
            before.names(),
            before.contexts(),
            other,
        ),
        value_for(after.names(), after.descriptions(), other) == value_for(
            before.names(),
            before.descriptions(),
            other,
        ),
{
    lemma_with_context(before.names(), before.contexts(), ctx.name(), ctx, other);
    lemma_with_context(
        before.names(),
        before.descriptions(),
        ctx.name(),
        ctx.description(),
        other,
    );
    lemma_name_place(before.names(), other, 0);
    lemma_name_place(after.names(), other, 0);
}

} // verus!
