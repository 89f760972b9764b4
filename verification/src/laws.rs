//! Laws the library states about its derivation and construction model.

use vstd::prelude::*;

use crate::lifecycle::base_slots;
use crate::lifecycle::construct_from;
use crate::lifecycle::dep_vals;
use crate::lifecycle::slot_of;
use crate::lifecycle::slot_resolve;
use crate::lifecycle::Slot;
use crate::lifecycle::TailInit;
use crate::resolver::lemma_picks_desc;
use crate::resolver::resolves_to;
use crate::resolver::ConstructionPlan;
use crate::shape::ObjectShape;

verus! {

/// In every plan the resolver derives from a valid shape, each dependency
/// of a tail field is a field declared strictly after it whose name the
/// tail declares; in particular the dependency graph is acyclic and
/// declaration order is a sound disposal order.
pub proof fn lemma_dependencies_declared_after(shape: ObjectShape, plan: ConstructionPlan)
    requires
        shape.wf(),
        resolves_to(shape, plan),
    ensures
        forall|k: int, x: int|
            0 <= k < plan.tails@.len() && 0 <= x < plan.deps@[k]@.len() ==> plan.tails@[k]
                < #[trigger] plan.deps@[k]@[x] && shape.dep_match(
                plan.tails@[k] as int,
                plan.deps@[k]@[x] as int,
            ),
        forall|k: int|
            0 <= k < plan.tails@.len() ==> shape.is_tail_at(#[trigger] plan.tails@[k] as int),
{
    lemma_picks_desc((|i: int| shape.is_tail_at(i)), 0, shape.n_constructible());
    assert forall|k: int, x: int|
        0 <= k < plan.tails@.len() && 0 <= x < plan.deps@[k]@.len() implies plan.tails@[k]
        < #[trigger] plan.deps@[k]@[x] && shape.dep_match(
        plan.tails@[k] as int,
        plan.deps@[k]@[x] as int,
    ) by {
        let t = plan.tails@[k];
        lemma_picks_desc((|j: int| shape.dep_match(t as int, j)), t + 1, shape.n_constructible());
    }
}

/// Construction never touches a head field: whatever the tail
/// constructors make of the slots, every non-tail position keeps its
/// value, and the length is kept.
pub proof fn lemma_construct_preserves_nontails<T: TailInit>(
    plan: ConstructionPlan,
    user: T,
    slots: Seq<Slot>,
    k: int,
)
    requires
        plan.wf(),
        slots.len() == plan.n_fields,
    ensures
        match construct_from(plan, user, slots, k) {
            Ok(s) => s.len() == slots.len() && forall|i: usize|
                i < plan.n_fields && !plan.is_tail_pos(i) ==> s[i as int] == slots[i as int],
            Err(_) => true,
        },
    decreases plan.tails@.len() - k,
{
    if 0 <= k < plan.tails@.len() {
        match user.init_field_spec(plan.tails@[k] as int, dep_vals(plan, slots, k)) {
            Ok(out) => {
                let t = plan.tails@[k];
                let next = slots.update(t as int, slot_of(out, plan.deps@[k]@));
                assert(plan.is_tail_pos(t)) by {
                    assert(plan.tails@.contains(t));
                }
                lemma_construct_preserves_nontails(plan, user, next, k + 1);
            },
            Err(_) => {},
        }
    }
}

/// Construction is deterministic in the plan, the constructors and the
/// head values: two fresh allocations that agree on every head field
/// construct to the same outcome, and, on success, every field of the two
/// results reads the same value.
pub proof fn lemma_construction_deterministic<T: TailInit>(
    plan: ConstructionPlan,
    user: T,
    s1: Seq<Slot>,
    s2: Seq<Slot>,
)
    requires
        plan.wf(),
        s1.len() == plan.n_fields,
        s2.len() == plan.n_fields,
        forall|i: usize|
            i < plan.n_fields && !plan.is_tail_pos(i) ==> s1[i as int] == s2[i as int],
        forall|i: usize|
            i < plan.n_fields && plan.is_tail_pos(i) ==> s1[i as int] == Slot::Val(0i64) && s2[
                i as int
            ] == Slot::Val(0i64),
    ensures
        construct_from(plan, user, s1, 0) == construct_from(plan, user, s2, 0),
        match (construct_from(plan, user, s1, 0), construct_from(plan, user, s2, 0)) {
            (Ok(f1), Ok(f2)) => forall|i: int|
                0 <= i < plan.n_fields ==> slot_resolve(f1, i) == slot_resolve(f2, i),
            _ => true,
        },
{
    assert(s1 =~= s2);
}

/// Re-synchronization follows the head values as they now are: rebuilding
/// two instances whose head fields agree yields the same outcome, whatever
/// tail values either held before. In particular, after a head field
/// changed, the rebuilt tails reflect the new value.
pub proof fn lemma_resynchronize_follows_heads<T: TailInit>(
    plan: ConstructionPlan,
    user: T,
    s1: Seq<Slot>,
    s2: Seq<Slot>,
)
    requires
        plan.wf(),
        s1.len() == plan.n_fields,
        s2.len() == plan.n_fields,
        forall|i: usize|
            i < plan.n_fields && !plan.is_tail_pos(i) ==> s1[i as int] == s2[i as int],
    ensures
        construct_from(plan, user, base_slots(plan, s1), 0) == construct_from(
            plan,
            user,
            base_slots(plan, s2),
            0,
        ),
{
    assert(base_slots(plan, s1) =~= base_slots(plan, s2));
}

} // verus!
