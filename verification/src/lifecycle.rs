//! The lifecycle controller: per-instance two-phase construction.
//!
//! An instance holds one slot per constructible field of its shape. Head
//! slots hold plain values written at allocation; tail slots are written
//! during construction, either with a plain value or with a reference to a
//! dependency, represented as the dependency's position and resolved at
//! read time. A position cutoff into the plan's processing order records
//! which tails are built, so validity is always a declaration-order suffix
//! and rollback destroys a known-valid set. The lifecycle tag moves
//! between `Uninited`, `Initing` (transient, during construction) and
//! `Inited`.
//!
//! Tail constructors are supplied by the user as an implementation of
//! [`TailInit`], the per-shape contract: one constructor invocation per
//! tail field, given the resolved values of exactly its declared
//! dependencies, and one destruction notification per field destroyed.

use vstd::prelude::*;

use crate::resolver::ConstructionPlan;

verus! {

/// The lifecycle tag of an instance.
#[derive(Clone, Debug)]
pub enum Header {
    /// All head fields hold valid values; no tail field does.
    Uninited,
    /// Transient: tail construction is running. Observing this tag from a
    /// tail constructor would mean construction re-entered itself.
    Initing,
    /// Every field holds a valid value.
    Inited,
}

/// One field's storage: a plain value, or a reference to the field at a
/// position, resolved at read time.
#[derive(Clone, Copy, Debug, PartialEq, Eq)]
pub enum Slot {
    Val(i64),
    RefTo(usize),
}

/// What a tail constructor returns: a plain value, or a reference to one
/// of the tail's dependencies, given as a position into its dependency
/// list.
#[derive(Clone, Copy, Debug, PartialEq, Eq)]
pub enum TailOut {
    Val(i64),
    RefToDep(usize),
}

/// The per-shape construction contract, implemented by the user.
///
/// `init_field_spec` names, per implementation, the value each tail
/// constructor computes; `init_field` is the constructor itself and must
/// return that value. The controller calls `init_field` once per tail
/// field in processing order, handing it the resolved values of exactly
/// the tail's declared dependencies, and calls `drop_field` once per
/// field it destroys, in declaration order.
pub trait TailInit {
    /// The shared error type of the shape's tail constructors.
    type Error;

    /// The value the constructor of the tail at position `t` computes
    /// from the resolved values of its dependencies. A verified
    /// implementation overrides this; an implementation that keeps the
    /// default leaves the constructed values unspecified, fixed only by
    /// the arguments.
    open spec fn init_field_spec(&self, t: int, vals: Seq<i64>) -> Result<TailOut, Self::Error> {
        vstd::pervasive::arbitrary()
    }

    /// Constructs the tail at position `t` from the resolved values of
    /// its dependencies, in reverse declaration order. An implementation
    /// the verifier has not checked is taken at its word here, as the
    /// generated signatures of a per-shape contract would be.
    fn init_field(&self, t: usize, vals: &Vec<i64>) -> (r: Result<TailOut, Self::Error>)
        ensures
            r == self.init_field_spec(t as int, vals@),
    ;

    /// Notification that the field at position `t` is being destroyed.
    fn drop_field(&self, t: usize);
}

/// A per-instance object: one slot per constructible field, the count of
/// built tails (a prefix of the plan's processing order), and the
/// lifecycle tag.
#[derive(Debug)]
pub struct Instance {
    pub slots: Vec<Slot>,
    pub built: usize,
    pub hdr: Header,
}

/// The value read at position `i`: a plain value directly, a reference by
/// resolving the referenced position. References only ever point to
/// higher positions, so resolution terminates.
pub open spec fn slot_resolve(slots: Seq<Slot>, i: int) -> i64
    decreases slots.len() - i,
{
    if 0 <= i < slots.len() {
        match slots[i] {
            Slot::Val(v) => v,
            Slot::RefTo(j) => if i < j < slots.len() {
                slot_resolve(slots, j as int)
            } else {
                0
            },
        }
    } else {
        0
    }
}

/// Whether reading position `i` only ever meets in-range references to
/// strictly higher positions.
pub open spec fn chain_ok(slots: Seq<Slot>, i: int) -> bool
    decreases slots.len() - i,
{
    &&& 0 <= i < slots.len()
    &&& match slots[i] {
        Slot::Val(_) => true,
        Slot::RefTo(j) => i < j < slots.len() && chain_ok(slots, j as int),
    }
}

/// Whether the tail at processing position `k` holds a valid slot: a
/// plain value, or a reference to one of its own dependencies.
pub open spec fn valid_tail_slot(plan: ConstructionPlan, slots: Seq<Slot>, k: int) -> bool {
    match slots[plan.tails@[k] as int] {
        Slot::Val(_) => true,
        Slot::RefTo(j) => plan.deps@[k]@.contains(j),
    }
}

/// Whether position `i` holds a valid value when the first `built` tails
/// of the processing order are built: every head does, and so does every
/// built tail.
pub open spec fn readable(plan: ConstructionPlan, built: int, i: usize) -> bool {
    ||| !plan.is_tail_pos(i)
    ||| exists|k: int| 0 <= k < built && #[trigger] plan.tails@[k] == i
}

impl Instance {
    /// Structural soundness of an instance against its plan: one slot per
    /// constructible field, heads always plain values, built tails valid,
    /// unbuilt tails inert, and the tag consistent with the cutoff. The
    /// `Initing` tag never outlives an operation.
    pub open spec fn wf(self, plan: ConstructionPlan) -> bool {
        &&& plan.wf()
        &&& self.slots@.len() == plan.n_fields
        &&& self.built <= plan.tails@.len()
        &&& match self.hdr {
            Header::Uninited => self.built == 0,
            Header::Initing => false,
            Header::Inited => self.built == plan.tails@.len(),
        }
        &&& forall|i: usize|
            i < plan.n_fields && !plan.is_tail_pos(i) ==> (#[trigger] self.slots@[i as int])
                is Val
        &&& forall|k: int| 0 <= k < self.built ==> valid_tail_slot(plan, self.slots@, k)
        &&& forall|k: int|
            self.built <= k < plan.tails@.len() ==> self.slots@[#[trigger] plan.tails@[k] as int]
                == Slot::Val(0i64)
    }
}

/// The slots with every tail position reset to the inert value: the state
/// construction starts from, with the head values kept.
pub open spec fn base_slots(plan: ConstructionPlan, slots: Seq<Slot>) -> Seq<Slot> {
    Seq::new(
        slots.len(),
        |i: int|
            if plan.is_tail_pos(i as usize) {
                Slot::Val(0i64)
            } else {
                slots[i]
            },
    )
}

/// The resolved values of the dependencies of the tail at processing
/// position `k`, in reverse declaration order.
pub open spec fn dep_vals(plan: ConstructionPlan, slots: Seq<Slot>, k: int) -> Seq<i64> {
    Seq::new(plan.deps@[k]@.len(), |x: int| slot_resolve(slots, plan.deps@[k]@[x] as int))
}

/// The slot a constructor's reply is stored as: a plain value as itself;
/// a reference to the dependency at position `x` of the tail's dependency
/// list as a reference to that dependency's field position. A reply
/// naming no dependency is stored as the inert value.
pub open spec fn slot_of(out: TailOut, deps: Seq<usize>) -> Slot {
    match out {
        TailOut::Val(v) => Slot::Val(v),
        TailOut::RefToDep(x) => if x < deps.len() {
            Slot::RefTo(deps[x as int])
        } else {
            Slot::Val(0i64)
        },
    }
}

/// The outcome of running the tail constructors from processing position
/// `k` on, over the given slots: the final slots on success, or the first
/// constructor error. This is the functional model of construction; the
/// controller is proved to realize it.
pub open spec fn construct_from<T: TailInit>(
    plan: ConstructionPlan,
    user: T,
    slots: Seq<Slot>,
    k: int,
) -> Result<Seq<Slot>, T::Error>
    decreases plan.tails@.len() - k,
{
    if !(0 <= k < plan.tails@.len()) {
        Ok(slots)
    } else {
        match user.init_field_spec(plan.tails@[k] as int, dep_vals(plan, slots, k)) {
            Ok(out) => construct_from(
                plan,
                user,
                slots.update(plan.tails@[k] as int, slot_of(out, plan.deps@[k]@)),
                k + 1,
            ),
            Err(e) => Err(e),
        }
    }
}

/// A readable position has a sound reference chain: heads are plain
/// values, and a built tail only ever references its own dependencies,
/// which lie strictly after it and are heads or earlier-built tails.
pub proof fn lemma_readable_chain_ok(
    plan: ConstructionPlan,
    slots: Seq<Slot>,
    built: int,
    i: usize,
)
    requires
        plan.wf(),
        slots.len() == plan.n_fields,
        0 <= built <= plan.tails@.len(),
        forall|p: usize|
            p < plan.n_fields && !plan.is_tail_pos(p) ==> (#[trigger] slots[p as int]) is Val,
        forall|k: int| 0 <= k < built ==> valid_tail_slot(plan, slots, k),
        i < plan.n_fields,
        readable(plan, built, i),
    ensures
        chain_ok(slots, i as int),
    decreases plan.n_fields - i,
{
    if plan.is_tail_pos(i) {
        let k = choose|k: int| 0 <= k < built && #[trigger] plan.tails@[k] == i;
        assert(valid_tail_slot(plan, slots, k));
        match slots[i as int] {
            Slot::Val(_) => {},
            Slot::RefTo(j) => {
                assert(plan.deps@[k]@.contains(j));
                let x = choose|x: int| 0 <= x < plan.deps@[k]@.len() && plan.deps@[k]@[x] == j;
                assert(plan.tails@[k] < plan.deps@[k]@[x] < plan.n_fields);
                assert(i < j < plan.n_fields);
                assert(readable(plan, built, j)) by {
                    if plan.is_tail_pos(j) {
                        let p = choose|p: int|
                            0 <= p < plan.tails@.len() && #[trigger] plan.tails@[p] == j;
                        assert(p < k) by {
                            if p > k {
                                assert(plan.tails@[k] > plan.tails@[p]);
                            }
                        }
                    }
                }
                lemma_readable_chain_ok(plan, slots, built, j);
            },
        }
    } else {
        assert(slots[i as int] is Val);
    }
}

/// Allocates an instance of the plan: writes each head field exactly once
/// from the caller-supplied values, given in the order of the plan's head
/// list (reverse declaration order), and leaves every tail slot inert.
pub fn new_uninit(plan: &ConstructionPlan, head_vals: &Vec<i64>) -> (r: Instance)
    requires
        plan.wf(),
        head_vals@.len() == plan.heads@.len(),
    ensures
        r.wf(*plan),
        r.hdr is Uninited,
        r.built == 0,
        forall|j: int|
            0 <= j < plan.heads@.len() ==> r.slots@[#[trigger] plan.heads@[j] as int] == Slot::Val(
                head_vals@[j],
            ),
        forall|i: usize|
            i < plan.n_fields && plan.is_tail_pos(i) ==> r.slots@[i as int] == Slot::Val(0i64),
        r.slots@ == alloc_slots(*plan, head_vals@),
{
    let n: usize = plan.n_fields;
    let mut slots: Vec<Slot> = Vec::new();
    let mut i: usize = 0;
    while i < n
        invariant
            i <= n,
            slots@.len() == i,
            forall|p: int| 0 <= p < i ==> slots@[p] == Slot::Val(0i64),
        decreases n - i,
    {
        slots.push(Slot::Val(0));
        i = i + 1;
    }
    let nh: usize = plan.heads.len();
    let mut j: usize = 0;
    while j < nh
        invariant
            plan.wf(),
            nh == plan.heads@.len() == head_vals@.len(),
            j <= nh,
            slots@.len() == plan.n_fields,
            forall|k: int|
                0 <= k < j ==> slots@[#[trigger] plan.heads@[k] as int] == Slot::Val(
                    head_vals@[k],
                ),
            forall|i2: usize|
                i2 < plan.n_fields && plan.is_tail_pos(i2) ==> slots@[i2 as int] == Slot::Val(
                    0i64,
                ),
            forall|p: int| 0 <= p < slots@.len() ==> (#[trigger] slots@[p]) is Val,
        decreases nh - j,
    {
        let pos = plan.heads[j];
        slots[pos] = Slot::Val(head_vals[j]);
        proof {
            assert forall|k: int|
                0 <= k < j + 1 implies slots@[#[trigger] plan.heads@[k] as int] == Slot::Val(
                head_vals@[k],
            ) by {
                if k < j {
                    // Head positions are strictly decreasing, so distinct.
                    assert(plan.heads@[k] > plan.heads@[j as int]);
                }
            }
            assert forall|i2: usize|
                i2 < plan.n_fields && plan.is_tail_pos(i2) implies slots@[i2 as int] == Slot::Val(
                0i64,
            ) by {
                // A tail position is no head position.
                assert(!plan.heads@.contains(i2));
                if i2 == pos {
                    assert(plan.heads@[j as int] == pos);
                }
            }
        }
        j = j + 1;
    }
    proof {
        assert forall|k: int|
            0 <= k < plan.tails@.len() implies slots@[#[trigger] plan.tails@[k] as int]
            == Slot::Val(0i64) by {
            assert(plan.tails@.contains(plan.tails@[k]));
            assert(plan.is_tail_pos(plan.tails@[k]));
            assert(plan.tails@[k] < plan.n_fields);
        }
    }
    proof {
        assert forall|i: int| 0 <= i < slots@.len() implies slots@[i] == alloc_slots(
            *plan,
            head_vals@,
        )[i] by {
            let iu = i as usize;
            if plan.heads@.contains(iu) {
                let jj = head_index(*plan, iu);
                assert(0 <= jj < plan.heads@.len() && plan.heads@[jj] == iu);
                assert(slots@[plan.heads@[jj] as int] == Slot::Val(head_vals@[jj]));
            } else {
                assert(plan.is_tail_pos(iu));
            }
        }
        assert(slots@ =~= alloc_slots(*plan, head_vals@));
    }
    let r = Instance { slots, built: 0, hdr: Header::Uninited };
    assert(r.wf(*plan));
    r
}

/// Reads the value of the field at position `i`: directly for a plain
/// slot, through its reference chain for a reference slot. Every field of
/// an initialized instance is readable; head fields are readable in any
/// state.
pub fn read_field(plan: &ConstructionPlan, inst: &Instance, i: usize) -> (r: i64)
    requires
        inst.wf(*plan),
        i < plan.n_fields,
        inst.hdr is Inited || !plan.is_tail_pos(i),
    ensures
        r == slot_resolve(inst.slots@, i as int),
{
    proof {
        assert(readable(*plan, inst.built as int, i)) by {
            if plan.is_tail_pos(i) {
                let p = choose|p: int|
                    0 <= p < plan.tails@.len() && #[trigger] plan.tails@[p] == i;
                assert(0 <= p < inst.built);
            }
        }
        lemma_readable_chain_ok(*plan, inst.slots@, inst.built as int, i);
    }
    resolve_value(&inst.slots, i)
}

/// Writes a head field, in any state. Mutating a head of an initialized
/// instance leaves the tails unchanged until the instance is
/// re-synchronized; reads that resolve through references see the new
/// value at once.
pub fn set_head(plan: &ConstructionPlan, inst: &mut Instance, i: usize, v: i64)
    requires
        old(inst).wf(*plan),
        i < plan.n_fields,
        !plan.is_tail_pos(i),
    ensures
        final(inst).wf(*plan),
        final(inst).slots@ == old(inst).slots@.update(i as int, Slot::Val(v)),
        final(inst).built == old(inst).built,
        final(inst).hdr == old(inst).hdr,
{
    inst.slots[i] = Slot::Val(v);
    proof {
        assert forall|k: int| 0 <= k < inst.built implies valid_tail_slot(
            *plan,
            inst.slots@,
            k,
        ) by {
            assert(valid_tail_slot(*plan, old(inst).slots@, k));
            assert(plan.tails@.contains(plan.tails@[k]));
            assert(plan.tails@[k] != i);
            assert(inst.slots@[plan.tails@[k] as int] == old(inst).slots@[plan.tails@[k] as int]);
        }
        assert forall|k: int|
            inst.built <= k < plan.tails@.len() implies inst.slots@[#[trigger] plan.tails@[k] as int]
            == Slot::Val(0i64) by {
            assert(plan.tails@.contains(plan.tails@[k]));
            assert(plan.tails@[k] != i);
        }
    }
}

/// The lifecycle tag of an instance.
pub fn header(inst: &Instance) -> (h: Header)
    ensures
        h == inst.hdr,
{
    match inst.hdr {
        Header::Uninited => Header::Uninited,
        Header::Initing => Header::Initing,
        Header::Inited => Header::Inited,
    }
}

/// Destroys the built tails, in declaration order: notifies the user per
/// field and resets the slot to the inert value. Head slots and unbuilt
/// tail slots are untouched.
fn teardown_tails<T: TailInit>(
    plan: &ConstructionPlan,
    user: &T,
    slots: &mut Vec<Slot>,
    built: usize,
)
    requires
        plan.wf(),
        old(slots)@.len() == plan.n_fields,
        built <= plan.tails@.len(),
    ensures
        final(slots)@.len() == old(slots)@.len(),
        forall|k: int|
            0 <= k < built ==> final(slots)@[#[trigger] plan.tails@[k] as int] == Slot::Val(0i64),
        forall|i: int|
            0 <= i < old(slots)@.len() && !(exists|k: int|
                0 <= k < built && #[trigger] plan.tails@[k] == i) ==> final(slots)@[i] == old(
                slots,
            )@[i],
{
    let mut kk: usize = built;
    while kk > 0
        invariant
            plan.wf(),
            slots@.len() == old(slots)@.len() == plan.n_fields,
            kk <= built <= plan.tails@.len(),
            forall|k: int|
                kk <= k < built ==> slots@[#[trigger] plan.tails@[k] as int] == Slot::Val(0i64),
            forall|i: int|
                0 <= i < slots@.len() && !(exists|k: int|
                    kk <= k < built && #[trigger] plan.tails@[k] == i) ==> slots@[i] == old(
                    slots,
                )@[i],
        decreases kk,
    {
        kk = kk - 1;
        let t = plan.tails[kk];
        user.drop_field(t);
        slots[t] = Slot::Val(0);
        proof {
            assert forall|k: int|
                kk <= k < built implies slots@[#[trigger] plan.tails@[k] as int] == Slot::Val(
                0i64,
            ) by {
                if k != kk {
                    assert(plan.tails@[k] != plan.tails@[kk as int]) by {
                        if k < kk {
                            assert(plan.tails@[k] > plan.tails@[kk as int]);
                        } else {
                            assert(plan.tails@[kk as int] > plan.tails@[k]);
                        }
                    }
                }
            }
        }
    }
}

/// Releases an instance whose tails were never built: notifies the user
/// of the destruction of each head field, in declaration order, and
/// consumes the instance. Calling this on an initializing or initialized
/// instance is a contract violation, excluded by precondition.
pub fn drop_uninit_in_place<T: TailInit>(plan: &ConstructionPlan, user: &T, inst: Instance)
    requires
        inst.wf(*plan),
        inst.hdr is Uninited,
{
    let nh: usize = plan.heads.len();
    let mut j: usize = nh;
    while j > 0
        invariant
            nh == plan.heads@.len(),
            j <= nh,
        decreases j,
    {
        j = j - 1;
        user.drop_field(plan.heads[j]);
    }
}

/// Destroys the built tail fields from declaration position `at` through
/// the end, in declaration order, leaving an uninitialized-equivalent
/// instance. The built tails always form a declaration-order suffix, so
/// `at` is the number of unbuilt tails: rollback and full teardown are
/// both a single positional cutoff.
pub fn drop_tail_in_place<T: TailInit>(
    plan: &ConstructionPlan,
    user: &T,
    inst: &mut Instance,
    at: usize,
)
    requires
        old(inst).wf(*plan),
        at + old(inst).built == plan.tails@.len(),
    ensures
        final(inst).wf(*plan),
        final(inst).hdr is Uninited,
        final(inst).built == 0,
        final(inst).slots@ == base_slots(*plan, old(inst).slots@),
        forall|i: usize|
            i < plan.n_fields && !plan.is_tail_pos(i) ==> final(inst).slots@[i as int] == old(
                inst,
            ).slots@[i as int],
{
    let built = inst.built;
    teardown_tails(plan, user, &mut inst.slots, built);
    inst.built = 0;
    inst.hdr = Header::Uninited;
    proof {
        assert forall|i: int| 0 <= i < inst.slots@.len() implies inst.slots@[i] == base_slots(
            *plan,
            old(inst).slots@,
        )[i] by {
            let iu = i as usize;
            if plan.is_tail_pos(iu) {
                let p = choose|p: int|
                    0 <= p < plan.tails@.len() && #[trigger] plan.tails@[p] == iu;
                if p < built {
                } else {
                    assert(old(inst).slots@[plan.tails@[p] as int] == Slot::Val(0i64));
                }
            } else {
                assert(!plan.tails@.contains(iu));
            }
        }
        assert(inst.slots@ =~= base_slots(*plan, old(inst).slots@));
    }
}

/// The position a head occupies in the plan's head list. Head positions
/// are strictly decreasing, so the index is unique.
pub open spec fn head_index(plan: ConstructionPlan, i: usize) -> int {
    choose|j: int| 0 <= j < plan.heads@.len() && plan.heads@[j] == i
}

/// The slots a fresh allocation holds: each head field its caller-supplied
/// value, every other slot the inert value.
pub open spec fn alloc_slots(plan: ConstructionPlan, head_vals: Seq<i64>) -> Seq<Slot> {
    Seq::new(
        plan.n_fields as nat,
        |i: int|
            if plan.heads@.contains(i as usize) {
                Slot::Val(head_vals[head_index(plan, i as usize)])
            } else {
                Slot::Val(0i64)
            },
    )
}

/// Rebuilds every tail field of the instance: tears down the built tails
/// (all of them, for an initialized instance), then walks the processing
/// order, constructing each tail from the resolved values of its
/// dependencies. On a constructor error, exactly the tails built so far
/// are destroyed, in declaration order, the head fields are untouched,
/// the error is returned, and the instance is uninitialized again — it
/// never reaches the initialized state, and both retrying and releasing
/// it through `drop_uninit_in_place` are legal. On success the instance holds
/// exactly the slots the functional construction model yields and is
/// initialized.
#[verifier::loop_isolation(false)]
pub fn force_init<T: TailInit>(plan: &ConstructionPlan, user: &T, inst: &mut Instance) -> (r:
    Result<(), T::Error>)
    requires
        old(inst).wf(*plan),
    ensures
        final(inst).wf(*plan),
        match construct_from(*plan, *user, base_slots(*plan, old(inst).slots@), 0) {
            Ok(s) => r is Ok && final(inst).hdr is Inited && final(inst).slots@ == s,
            Err(e) => r == Err::<(), T::Error>(e) && final(inst).hdr is Uninited && final(inst).slots@ == base_slots(*plan, old(inst).slots@),
        },
        forall|i: usize|
            i < plan.n_fields && !plan.is_tail_pos(i) ==> final(inst).slots@[i as int] == old(
                inst,
            ).slots@[i as int],
{
    let ghost base = base_slots(*plan, old(inst).slots@);
    if matches!(inst.hdr, Header::Initing) {
        // Re-entrant construction is a fatal contract violation; a
        // well-formed instance is never left in this state.
        return vstd::pervasive::unreached();
    }
    if matches!(inst.hdr, Header::Inited) {
        drop_tail_in_place(plan, user, inst, 0);
    } else {
        proof {
            assert forall|i: int| 0 <= i < inst.slots@.len() implies inst.slots@[i] == base[i] by {
                let iu = i as usize;
                if plan.is_tail_pos(iu) {
                    let p = choose|p: int|
                        0 <= p < plan.tails@.len() && #[trigger] plan.tails@[p] == iu;
                    assert(inst.slots@[plan.tails@[p] as int] == Slot::Val(0i64));
                }
            }
            assert(inst.slots@ =~= base);
        }
    }
    inst.hdr = Header::Initing;
    let n_tails: usize = plan.tails.len();
    let mut k: usize = 0;
    while k < n_tails
        invariant
            plan.wf(),
            n_tails == plan.tails@.len(),
            k <= n_tails,
            inst.slots@.len() == plan.n_fields,
            inst.built == k,
            inst.hdr is Initing,
            base.len() == plan.n_fields,
            construct_from(*plan, *user, base, 0) == construct_from(
                *plan,
                *user,
                inst.slots@,
                k as int,
            ),
            forall|kk: int| 0 <= kk < k ==> valid_tail_slot(*plan, inst.slots@, kk),
            forall|kk: int|
                k <= kk < n_tails ==> inst.slots@[#[trigger] plan.tails@[kk] as int] == Slot::Val(
                    0i64,
                ),
            forall|i: usize|
                i < plan.n_fields && !plan.is_tail_pos(i) ==> inst.slots@[i as int] == base[
                    i as int
                ] && (#[trigger] inst.slots@[i as int]) is Val,
        decreases n_tails - k,
    {
        let t = plan.tails[k];
        let nd: usize = plan.deps[k].len();
        let mut vals: Vec<i64> = Vec::new();
        let mut x: usize = 0;
        while x < nd
            invariant
                plan.wf(),
                n_tails == plan.tails@.len(),
                k < n_tails,
                t == plan.tails@[k as int],
                nd == plan.deps@[k as int]@.len(),
                x <= nd,
                inst.slots@.len() == plan.n_fields,
                forall|kk: int| 0 <= kk < k ==> valid_tail_slot(*plan, inst.slots@, kk),
                forall|i: usize|
                    i < plan.n_fields && !plan.is_tail_pos(i) ==> (#[trigger] inst.slots@[
                        i as int
                    ]) is Val,
                vals@.len() == x,
                forall|y: int|
                    0 <= y < x ==> vals@[y] == slot_resolve(
                        inst.slots@,
                        #[trigger] plan.deps@[k as int]@[y] as int,
                    ),
            decreases nd - x,
        {
            let j = plan.deps[k][x];
            proof {
                assert(plan.tails@[k as int] < plan.deps@[k as int]@[x as int] < plan.n_fields);
                assert(readable(*plan, k as int, j)) by {
                    if plan.is_tail_pos(j) {
                        let p = choose|p: int|
                            0 <= p < plan.tails@.len() && #[trigger] plan.tails@[p] == j;
                        assert(p < k) by {
                            if p > k {
                                assert(plan.tails@[k as int] > plan.tails@[p]);
                            }
                        }
                    }
                }
                lemma_readable_chain_ok(*plan, inst.slots@, k as int, j);
            }
            let v = resolve_value(&inst.slots, j);
            vals.push(v);
            x = x + 1;
        }
        proof {
            assert(vals@ =~= dep_vals(*plan, inst.slots@, k as int));
        }
        let ghost slots_before = inst.slots@;
        match user.init_field(t, &vals) {
            Ok(out) => {
                let stored = match out {
                    TailOut::Val(v) => Slot::Val(v),
                    TailOut::RefToDep(xd) => if xd < nd {
                        Slot::RefTo(plan.deps[k][xd])
                    } else {
                        Slot::Val(0)
                    },
                };
                assert(stored == slot_of(out, plan.deps@[k as int]@));
                inst.slots[t] = stored;
                inst.built = k + 1;
                proof {
                    assert(inst.slots@ == slots_before.update(
                        plan.tails@[k as int] as int,
                        slot_of(out, plan.deps@[k as int]@),
                    ));
                    assert(construct_from(*plan, *user, slots_before, k as int) == construct_from(
                        *plan,
                        *user,
                        inst.slots@,
                        k + 1,
                    ));
                    assert(valid_tail_slot(*plan, inst.slots@, k as int)) by {
                        match out {
                            TailOut::Val(_) => {},
                            TailOut::RefToDep(xd) => {
                                if xd < nd {
                                    assert(plan.deps@[k as int]@.contains(
                                        plan.deps@[k as int]@[xd as int],
                                    ));
                                }
                            },
                        }
                    }
                    assert forall|kk: int| 0 <= kk < k + 1 implies valid_tail_slot(
                        *plan,
                        inst.slots@,
                        kk,
                    ) by {
                        if kk < k {
                            assert(valid_tail_slot(*plan, slots_before, kk));
                            assert(plan.tails@[kk] != plan.tails@[k as int]) by {
                                assert(plan.tails@[kk] > plan.tails@[k as int]);
                            }
                        }
                    }
                    assert forall|kk: int|
                        k + 1 <= kk < n_tails implies inst.slots@[#[trigger] plan.tails@[
                        kk] as int] == Slot::Val(0i64) by {
                        assert(plan.tails@[k as int] > plan.tails@[kk]);
                    }
                    assert forall|i: usize|
                        i < plan.n_fields && !plan.is_tail_pos(i) implies inst.slots@[i as int]
                        == base[i as int] && (#[trigger] inst.slots@[i as int]) is Val by {
                        assert(plan.tails@.contains(plan.tails@[k as int]));
                        assert(i != plan.tails@[k as int]);
                        assert(slots_before[i as int] == base[i as int]);
                    }
                }
                k = k + 1;
            },
            Err(e) => {
                let built = inst.built;
                teardown_tails(plan, user, &mut inst.slots, built);
                inst.built = 0;
                inst.hdr = Header::Uninited;
                proof {
                    assert(construct_from(*plan, *user, slots_before, k as int) == Err::<
                        Seq<Slot>,
                        T::Error,
                    >(e));
                    assert(built == k);
                    assert forall|i: int| 0 <= i < inst.slots@.len() implies inst.slots@[i]
                        == base[i] by {
                        let iu = i as usize;
                        if plan.is_tail_pos(iu) {
                            let p = choose|p: int|
                                0 <= p < plan.tails@.len() && #[trigger] plan.tails@[p] == iu;
                            assert(base[i] == Slot::Val(0i64));
                            if p < built {
                                assert(inst.slots@[plan.tails@[p] as int] == Slot::Val(0i64));
                            } else {
                                assert(slots_before[plan.tails@[p] as int] == Slot::Val(0i64));
                                assert(!(exists|kk: int|
                                    0 <= kk < built && #[trigger] plan.tails@[kk] == iu)) by {
                                    if exists|kk: int|
                                        0 <= kk < built && #[trigger] plan.tails@[kk] == iu {
                                        let kk = choose|kk: int|
                                            0 <= kk < built && #[trigger] plan.tails@[kk] == iu;
                                        assert(plan.tails@[kk] > plan.tails@[p]);
                                    }
                                }
                                assert(inst.slots@[i] == slots_before[i]);
                            }
                        } else {
                            assert(!plan.tails@.contains(iu));
                            assert(!(exists|kk: int|
                                0 <= kk < built && #[trigger] plan.tails@[kk] == iu)) by {
                                if exists|kk: int|
                                    0 <= kk < built && #[trigger] plan.tails@[kk] == iu {
                                    let kk = choose|kk: int|
                                        0 <= kk < built && #[trigger] plan.tails@[kk] == iu;
                                    assert(plan.tails@.contains(iu));
                                }
                            }
                            assert(inst.slots@[i] == slots_before[i]);
                            assert(slots_before[i] == base[i]);
                        }
                    }
                    assert(inst.slots@ =~= base);
                }
                return Err(e);
            },
        }
    }
    inst.hdr = Header::Inited;
    proof {
        assert(construct_from(*plan, *user, inst.slots@, n_tails as int) == Ok::<
            Seq<Slot>,
            T::Error,
        >(inst.slots@));
    }
    Ok(())
}

/// Returns at once, with no observable effect, where the instance is
/// already initialized; otherwise rebuilds the tail fields exactly as
/// [`force_init`] does.
pub fn ensure_init<T: TailInit>(plan: &ConstructionPlan, user: &T, inst: &mut Instance) -> (r:
    Result<(), T::Error>)
    requires
        old(inst).wf(*plan),
    ensures
        final(inst).wf(*plan),
        old(inst).hdr is Inited ==> r is Ok && *final(inst) == *old(inst),
        !(old(inst).hdr is Inited) ==> match construct_from(
            *plan,
            *user,
            base_slots(*plan, old(inst).slots@),
            0,
        ) {
            Ok(s) => r is Ok && final(inst).hdr is Inited && final(inst).slots@ == s,
            Err(e) => r == Err::<(), T::Error>(e) && final(inst).hdr is Uninited && final(inst).slots@ == base_slots(*plan, old(inst).slots@),
        },
        forall|i: usize|
            i < plan.n_fields && !plan.is_tail_pos(i) ==> final(inst).slots@[i as int] == old(
                inst,
            ).slots@[i as int],
{
    if matches!(inst.hdr, Header::Inited) {
        return Ok(());
    }
    force_init(plan, user, inst)
}

/// Follows reference slots until a plain value is reached.
fn resolve_value(slots: &Vec<Slot>, i: usize) -> (r: i64)
    requires
        chain_ok(slots@, i as int),
    ensures
        r == slot_resolve(slots@, i as int),
{
    let mut idx: usize = i;
    loop
        invariant
            chain_ok(slots@, idx as int),
            slot_resolve(slots@, idx as int) == slot_resolve(slots@, i as int),
        decreases slots@.len() - idx,
    {
        match slots[idx] {
            Slot::Val(v) => {
                return v;
            },
            Slot::RefTo(j) => {
                idx = j;
            },
        }
    }
}

} // verus!
