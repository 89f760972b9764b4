//! The pointer wrappers: heap-allocated, fully constructed instances.
//!
//! `new_box` and `new_rc` allocate storage with single or shared
//! ownership, write the head fields, and drive construction to completion
//! before the handle is handed out. On a constructor error the rolled-back
//! allocation is released through `drop_uninit_in_place` — never through a
//! destructor that would touch tail fields that were never built — and the
//! error is returned. `resynchronize` rebuilds every tail field of an
//! already initialized instance, for a caller that changed a head value
//! and needs the tails to follow it.
//!
//! Fields reference each other by position, resolved at read time, so a
//! handle's placement in memory never invalidates the references: the
//! pinning that address-based self-references would demand is met by
//! construction.

use std::rc::Rc;

use vstd::prelude::*;

use crate::lifecycle::alloc_slots;
use crate::lifecycle::base_slots;
use crate::lifecycle::construct_from;
use crate::lifecycle::drop_uninit_in_place;
use crate::lifecycle::ensure_init;
use crate::lifecycle::force_init;
use crate::lifecycle::new_uninit;
use crate::lifecycle::Header;
use crate::lifecycle::Instance;
use crate::lifecycle::TailInit;
use crate::resolver::ConstructionPlan;

verus! {

/// Allocates an instance with single ownership, writes the head fields
/// from the caller-supplied values (in the plan's head order), and runs
/// construction to completion. On a constructor error the allocation is
/// released, the user is notified of each head field's destruction, and
/// the error is returned; no initialized handle ever escapes.
pub fn new_box<T: TailInit>(plan: &ConstructionPlan, user: &T, head_vals: &Vec<i64>) -> (r: Result<
    Box<Instance>,
    T::Error,
>)
    requires
        plan.wf(),
        head_vals@.len() == plan.heads@.len(),
    ensures
        match construct_from(*plan, *user, alloc_slots(*plan, head_vals@), 0) {
            Ok(s) => match r {
                Ok(b) => b.wf(*plan) && b.hdr is Inited && b.slots@ == s,
                Err(_) => false,
            },
            Err(e) => r == Err::<Box<Instance>, T::Error>(e),
        },
{
    let mut inst = new_uninit(plan, head_vals);
    proof {
        assert(base_slots(*plan, inst.slots@) =~= inst.slots@);
    }
    match ensure_init(plan, user, &mut inst) {
        Ok(_) => Ok(Box::new(inst)),
        Err(e) => {
            drop_uninit_in_place(plan, user, inst);
            Err(e)
        },
    }
}

/// As [`new_box`], but the storage has shared ownership: the same
/// allocate, construct and release discipline runs to completion before
/// the first shared handle is handed out.
pub fn new_rc<T: TailInit>(plan: &ConstructionPlan, user: &T, head_vals: &Vec<i64>) -> (r: Result<
    Rc<Instance>,
    T::Error,
>)
    requires
        plan.wf(),
        head_vals@.len() == plan.heads@.len(),
    ensures
        match construct_from(*plan, *user, alloc_slots(*plan, head_vals@), 0) {
            Ok(s) => match r {
                Ok(b) => b.wf(*plan) && b.hdr is Inited && b.slots@ == s,
                Err(_) => false,
            },
            Err(e) => r == Err::<Rc<Instance>, T::Error>(e),
        },
{
    let mut inst = new_uninit(plan, head_vals);
    proof {
        assert(base_slots(*plan, inst.slots@) =~= inst.slots@);
    }
    match ensure_init(plan, user, &mut inst) {
        Ok(_) => Ok(Rc::new(inst)),
        Err(e) => {
            drop_uninit_in_place(plan, user, inst);
            Err(e)
        },
    }
}

/// Rebuilds every tail field of an initialized instance: full teardown in
/// declaration order, then reconstruction in processing order, as
/// [`force_init`] specifies. The sanctioned path to recover after a head
/// field changed.
pub fn resynchronize<T: TailInit>(plan: &ConstructionPlan, user: &T, inst: &mut Instance) -> (r:
    Result<(), T::Error>)
    requires
        old(inst).wf(*plan),
        old(inst).hdr is Inited,
    ensures
        final(inst).wf(*plan),
        match construct_from(*plan, *user, base_slots(*plan, old(inst).slots@), 0) {
            Ok(s) => r is Ok && final(inst).hdr is Inited && final(inst).slots@ == s,
            Err(e) => r == Err::<(), T::Error>(e) && final(inst).hdr is Uninited && final(inst).slots@ == base_slots(*plan, old(inst).slots@),
        },
        forall|i: usize|
            i < plan.n_fields && !plan.is_tail_pos(i) ==> final(inst).slots@[i as int] == old(
                inst,
            ).slots@[i as int],
{
    force_init(plan, user, inst)
}

} // verus!
