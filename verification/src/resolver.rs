//! The dependency resolver: from an `ObjectShape` to a `ConstructionPlan`.
//!
//! For each tail field, every declared dependency name must match a field
//! declared strictly after it, the lifecycle field excluded; a name that
//! matches none is a derivation-time error. The positional rule makes the
//! dependency graph acyclic by construction: reverse declaration order is
//! a valid construction order, and declaration order a valid disposal
//! order. The derived plan lists head and tail positions and, per tail,
//! the positions of its dependencies, all in reverse declaration order.

use vstd::prelude::*;

use crate::bytes::bytes_clone;
use crate::bytes::bytes_eq;
use crate::shape::ObjectShape;
use crate::shape::ShapeError;

verus! {

/// The construction plan of a shape: the number of constructible fields,
/// the head positions, the tail positions in processing order (reverse
/// declaration order), and, aligned with the tails, each tail's resolved
/// dependency positions, also in reverse declaration order.
#[derive(Debug)]
pub struct ConstructionPlan {
    pub n_fields: usize,
    pub heads: Vec<usize>,
    pub tails: Vec<usize>,
    pub deps: Vec<Vec<usize>>,
}

impl ConstructionPlan {
    /// Structural soundness of a plan: positions are in range, heads and
    /// tails are strictly decreasing and partition the constructible
    /// fields, and every dependency of a tail is declared strictly after
    /// it.
    pub open spec fn wf(self) -> bool {
        &&& self.deps@.len() == self.tails@.len()
        &&& forall|k: int| 0 <= k < self.tails@.len() ==> #[trigger] self.tails@[k] < self.n_fields
        &&& forall|j: int| 0 <= j < self.heads@.len() ==> #[trigger] self.heads@[j] < self.n_fields
        &&& forall|p: int, q: int|
            0 <= p < q < self.tails@.len() ==> #[trigger] self.tails@[p] > #[trigger] self.tails@[q]
        &&& forall|p: int, q: int|
            0 <= p < q < self.heads@.len() ==> #[trigger] self.heads@[p] > #[trigger] self.heads@[q]
        &&& forall|i: usize|
            i < self.n_fields ==> (self.tails@.contains(i) <==> !self.heads@.contains(i))
        &&& forall|k: int, x: int|
            0 <= k < self.tails@.len() && 0 <= x < self.deps@[k]@.len() ==> self.tails@[k]
                < #[trigger] self.deps@[k]@[x] && self.deps@[k]@[x] < self.n_fields
    }

    /// Whether position `i` is a tail position of the plan.
    pub open spec fn is_tail_pos(self, i: usize) -> bool {
        self.tails@.contains(i)
    }
}

impl ObjectShape {
    /// Whether the field at `i` is a tail field of the shape.
    pub open spec fn is_tail_at(self, i: int) -> bool {
        0 <= i < self.n_constructible() && self.fields@[i].role is Tail
    }

    /// Whether the field at `i` is a head field of the shape.
    pub open spec fn is_head_at(self, i: int) -> bool {
        0 <= i < self.n_constructible() && self.fields@[i].role is Head
    }

    /// The name of the field at `i`.
    pub open spec fn name_at(self, i: int) -> Seq<u8> {
        self.fields@[i].name@
    }

    /// The declared dependency names of the field at `i`.
    pub open spec fn deps_at(self, i: int) -> Seq<Seq<u8>> {
        self.fields@[i].deps.deep_view()
    }

    /// Whether the field at `j` is a dependency of the tail field at `t`:
    /// it is declared strictly after `t`, is not the lifecycle field, and
    /// its name is among the dependency names `t` declares.
    pub open spec fn dep_match(self, t: int, j: int) -> bool {
        &&& t < j < self.n_constructible()
        &&& exists|x: int|
            0 <= x < self.deps_at(t).len() && #[trigger] self.deps_at(t)[x] == self.name_at(j)
    }

    /// Whether the dependency name `d` of the tail field at `t` resolves.
    pub open spec fn dep_found(self, t: int, d: Seq<u8>) -> bool {
        exists|j: int| t < j < self.n_constructible() && #[trigger] self.name_at(j) == d
    }

    /// The first dependency name of the tail at `t`, from position `x` on,
    /// that resolves to no field, if any.
    pub open spec fn first_missing_from(self, t: int, x: int) -> Option<Seq<u8>>
        decreases self.deps_at(t).len() - x when 0 <= x <= self.deps_at(t).len()
    {
        if x >= self.deps_at(t).len() {
            None
        } else if !self.dep_found(t, self.deps_at(t)[x]) {
            Some(self.deps_at(t)[x])
        } else {
            self.first_missing_from(t, x + 1)
        }
    }

    /// The first unresolved dependency name of the shape, walking tail
    /// fields in declaration order from `i` on, if any.
    pub open spec fn first_unresolved_from(self, i: int) -> Option<Seq<u8>>
        decreases self.n_constructible() - i when 0 <= i <= self.n_constructible()
    {
        if i >= self.n_constructible() {
            None
        } else {
            let here = if self.is_tail_at(i) {
                self.first_missing_from(i, 0)
            } else {
                None
            };
            if here is Some {
                here
            } else {
                self.first_unresolved_from(i + 1)
            }
        }
    }
}

/// The positions in `[lo, hi)` that satisfy `pred`, listed in decreasing
/// order.
pub open spec fn picks_desc(pred: spec_fn(int) -> bool, lo: int, hi: int) -> Seq<usize>
    decreases hi - lo,
{
    if lo >= hi {
        Seq::empty()
    } else {
        picks_desc(pred, lo + 1, hi) + (if pred(lo) {
            seq![lo as usize]
        } else {
            Seq::empty()
        })
    }
}

/// What `picks_desc` yields: exactly the matching positions, each once,
/// strictly decreasing.
pub proof fn lemma_picks_desc(pred: spec_fn(int) -> bool, lo: int, hi: int)
    requires
        0 <= lo <= hi <= usize::MAX,
    ensures
        forall|p: int|
            0 <= p < picks_desc(pred, lo, hi).len() ==> lo <= #[trigger] picks_desc(
                pred,
                lo,
                hi,
            )[p] < hi && pred(picks_desc(pred, lo, hi)[p] as int),
        forall|p: int, q: int|
            0 <= p < q < picks_desc(pred, lo, hi).len() ==> picks_desc(pred, lo, hi)[p]
                > picks_desc(pred, lo, hi)[q],
        forall|i: int|
            lo <= i < hi ==> (#[trigger] pred(i) <==> picks_desc(pred, lo, hi).contains(
                i as usize,
            )),
    decreases hi - lo,
{
    if lo < hi {
        lemma_picks_desc(pred, lo + 1, hi);
        let rest = picks_desc(pred, lo + 1, hi);
        let whole = picks_desc(pred, lo, hi);
        if pred(lo) {
            assert(whole =~= rest.push(lo as usize));
        } else {
            assert(whole =~= rest);
        }
        assert forall|i: int| lo <= i < hi implies (#[trigger] pred(i) <==> whole.contains(
            i as usize,
        )) by {
            if i == lo {
                if pred(lo) {
                    assert(whole[whole.len() - 1] == lo as usize);
                    assert(whole.contains(lo as usize));
                } else {
                    if whole.contains(lo as usize) {
                        let p = choose|p: int|
                            0 <= p < rest.len() && rest[p] == lo as usize;
                        assert(lo + 1 <= rest[p]);
                    }
                }
            } else {
                if pred(i) {
                    assert(rest.contains(i as usize));
                    let p = choose|p: int| 0 <= p < rest.len() && rest[p] == i as usize;
                    assert(whole[p] == i as usize);
                }
            }
        }
    }
}

/// Whether `plan` is the construction plan the resolver derives from
/// `shape`: head and tail positions enumerated in reverse declaration
/// order, and, per tail, exactly the positions of the fields its declared
/// names match, strictly after it, also in reverse declaration order.
pub open spec fn resolves_to(shape: ObjectShape, plan: ConstructionPlan) -> bool {
    &&& plan.wf()
    &&& plan.n_fields == shape.n_constructible()
    &&& plan.tails@ == picks_desc((|i: int| shape.is_tail_at(i)), 0, shape.n_constructible())
    &&& plan.heads@ == picks_desc((|i: int| shape.is_head_at(i)), 0, shape.n_constructible())
    &&& forall|k: int|
        0 <= k < plan.tails@.len() ==> #[trigger] plan.deps@[k]@ == picks_desc(
            (|j: int| shape.dep_match(plan.tails@[k] as int, j)),
            plan.tails@[k] + 1,
            shape.n_constructible(),
        )
}

/// Tests whether position `i` holds a head field of the plan. Heads and
/// tails partition the constructible positions, so this decides both.
pub fn is_head_position(plan: &ConstructionPlan, i: usize) -> (r: bool)
    requires
        plan.wf(),
        i < plan.n_fields,
    ensures
        r == !plan.is_tail_pos(i),
{
    let nh: usize = plan.heads.len();
    let mut j: usize = 0;
    while j < nh
        invariant
            plan.wf(),
            nh == plan.heads@.len(),
            j <= nh,
            i < plan.n_fields,
            forall|k: int| 0 <= k < j ==> #[trigger] plan.heads@[k] != i,
        decreases nh - j,
    {
        if plan.heads[j] == i {
            assert(plan.heads@.contains(i));
            return true;
        }
        j = j + 1;
    }
    assert(!plan.heads@.contains(i)) by {
        if plan.heads@.contains(i) {
            let k = choose|k: int| 0 <= k < plan.heads@.len() && plan.heads@[k] == i;
        }
    }
    false
}

/// Tests whether the name `d` occurs among the dependency names `deps`.
fn name_in(deps: &Vec<Vec<u8>>, d: &Vec<u8>) -> (r: bool)
    ensures
        r == (exists|x: int|
            0 <= x < deps.deep_view().len() && #[trigger] deps.deep_view()[x] == d@),
{
    let n: usize = deps.len();
    let mut x: usize = 0;
    while x < n
        invariant
            n == deps@.len(),
            x <= n,
            forall|k: int| 0 <= k < x ==> #[trigger] deps.deep_view()[k] != d@,
        decreases n - x,
    {
        let hit = bytes_eq(&deps[x], d);
        assert(deps.deep_view()[x as int] == deps@[x as int]@);
        if hit {
            return true;
        }
        x = x + 1;
    }
    false
}

/// Tests whether the dependency name `d` of the tail at `t` resolves to a
/// field declared strictly after `t`, the lifecycle field excluded.
fn find_name_after(shape: &ObjectShape, t: usize, d: &Vec<u8>) -> (r: bool)
    requires
        t < shape.n_constructible(),
    ensures
        r == shape.dep_found(t as int, d@),
{
    let m: usize = shape.fields.len() - 1;
    let mut j: usize = t + 1;
    while j < m
        invariant
            m == shape.n_constructible(),
            t < j <= m,
            forall|k: int| t < k < j ==> #[trigger] shape.name_at(k) != d@,
        decreases m - j,
    {
        if bytes_eq(&shape.fields[j].name, d) {
            assert(shape.name_at(j as int) == d@);
            return true;
        }
        j = j + 1;
    }
    false
}

/// An unresolved name at dependency position `x` of tail `t`, with every
/// earlier name resolved, is the tail's first unresolved name.
proof fn lemma_first_missing_at(shape: ObjectShape, t: int, x: int)
    requires
        0 <= t < shape.n_constructible(),
        0 <= x <= shape.deps_at(t).len(),
        forall|k: int| 0 <= k < x ==> shape.dep_found(t, #[trigger] shape.deps_at(t)[k]),
    ensures
        shape.first_missing_from(t, 0) == shape.first_missing_from(t, x),
    decreases x,
{
    if x > 0 {
        lemma_first_missing_at(shape, t, x - 1);
    }
}

/// With no unresolved name among the tails before `i`, the shape's first
/// unresolved name is found at or after `i`.
proof fn lemma_first_unresolved_at(shape: ObjectShape, i: int)
    requires
        0 <= i <= shape.n_constructible(),
        forall|k: int|
            0 <= k < i && shape.is_tail_at(k) ==> #[trigger] shape.first_missing_from(k, 0)
                is None,
    ensures
        shape.first_unresolved_from(0) == shape.first_unresolved_from(i),
    decreases i,
{
    if i > 0 {
        lemma_first_unresolved_at(shape, i - 1);
    }
}

/// Collects, in reverse declaration order, the positions after `t` whose
/// name is among the dependency names of the tail at `t`.
fn collect_deps(shape: &ObjectShape, t: usize) -> (r: Vec<usize>)
    requires
        t < shape.n_constructible(),
    ensures
        r@ == picks_desc(
            (|j: int| shape.dep_match(t as int, j)),
            t + 1,
            shape.n_constructible(),
        ),
{
    let ghost pred = |j: int| shape.dep_match(t as int, j);
    let m: usize = shape.fields.len() - 1;
    let mut r: Vec<usize> = Vec::new();
    let mut j: usize = m;
    while j > t + 1
        invariant
            m == shape.n_constructible(),
            t < m,
            t + 1 <= j <= m,
            r@ == picks_desc(pred, j as int, m as int),
            pred == (|j: int| shape.dep_match(t as int, j)),
        decreases j,
    {
        j = j - 1;
        if name_in(&shape.fields[t].deps, &shape.fields[j].name) {
            proof {
                let deps = shape.fields@[t as int].deps;
                let x = choose|x: int|
                    0 <= x < deps.deep_view().len() && #[trigger] deps.deep_view()[x]
                        == shape.fields@[j as int].name@;
                assert(shape.deps_at(t as int)[x] == shape.name_at(j as int));
                assert(shape.dep_match(t as int, j as int));
                assert(pred(j as int));
            }
            r.push(j);
            proof {
                assert(r@ =~= picks_desc(pred, j as int, m as int));
            }
        } else {
            assert(!pred(j as int));
            proof {
                assert(r@ =~= picks_desc(pred, j as int, m as int));
            }
        }
    }
    r
}

/// Resolves a shape into its construction plan, or reports the first
/// dependency name, walking tail fields in declaration order and each
/// tail's names in declared order, that names no field declared strictly
/// after its tail.
pub fn resolve(shape: &ObjectShape) -> (r: Result<ConstructionPlan, ShapeError>)
    requires
        shape.wf(),
    ensures
        match shape.first_unresolved_from(0) {
            Some(missing) => match r {
                Err(ShapeError::UnknownDependency(d)) => d@ == missing,
                _ => false,
            },
            None => match r {
                Ok(plan) => resolves_to(*shape, plan),
                Err(_) => false,
            },
        },
{
    let m: usize = shape.fields.len() - 1;

    // Validation pass, in declaration order: every dependency name of every
    // tail field must resolve.
    let mut i: usize = 0;
    while i < m
        invariant
            m == shape.n_constructible(),
            i <= m,
            forall|k: int|
                0 <= k < i && shape.is_tail_at(k) ==> #[trigger] shape.first_missing_from(k, 0)
                    is None,
        decreases m - i,
    {
        if matches!(shape.fields[i].role, crate::shape::Role::Tail) {
            assert(shape.is_tail_at(i as int));
            let nd: usize = shape.fields[i].deps.len();
            let mut x: usize = 0;
            while x < nd
                invariant
                    m == shape.n_constructible(),
                    i < m,
                    shape.is_tail_at(i as int),
                    forall|k: int|
                        0 <= k < i && shape.is_tail_at(k) ==> #[trigger] shape.first_missing_from(
                            k,
                            0,
                        ) is None,
                    nd == shape.deps_at(i as int).len(),
                    x <= nd,
                    forall|k: int|
                        0 <= k < x ==> shape.dep_found(
                            i as int,
                            #[trigger] shape.deps_at(i as int)[k],
                        ),
                decreases nd - x,
            {
                let d = &shape.fields[i].deps[x];
                assert(d@ == shape.deps_at(i as int)[x as int]);
                if !find_name_after(shape, i, d) {
                    proof {
                        lemma_first_missing_at(*shape, i as int, x as int);
                        lemma_first_unresolved_at(*shape, i as int);
                        assert(shape.first_missing_from(i as int, x as int) == Some(d@));
                        assert(shape.first_unresolved_from(i as int) == Some(d@));
                    }
                    return Err(ShapeError::UnknownDependency(bytes_clone(d)));
                }
                x = x + 1;
            }
            proof {
                lemma_first_missing_at(*shape, i as int, nd as int);
            }
        } else {
            assert(!shape.is_tail_at(i as int));
        }
        i = i + 1;
    }
    proof {
        lemma_first_unresolved_at(*shape, m as int);
        assert(shape.first_unresolved_from(0) is None);
    }

    // Build pass, in reverse declaration order.
    let ghost tail_pred = |i: int| shape.is_tail_at(i);
    let ghost head_pred = |i: int| shape.is_head_at(i);
    let mut heads: Vec<usize> = Vec::new();
    let mut tails: Vec<usize> = Vec::new();
    let mut deps: Vec<Vec<usize>> = Vec::new();
    let mut i: usize = m;
    while i > 0
        invariant
            m == shape.n_constructible(),
            shape.wf(),
            i <= m,
            tails@ == picks_desc(tail_pred, i as int, m as int),
            heads@ == picks_desc(head_pred, i as int, m as int),
            deps@.len() == tails@.len(),
            forall|k: int|
                0 <= k < tails@.len() ==> #[trigger] deps@[k]@ == picks_desc(
                    (|j: int| shape.dep_match(tails@[k] as int, j)),
                    tails@[k] + 1,
                    m as int,
                ),
            tail_pred == (|i: int| shape.is_tail_at(i)),
            head_pred == (|i: int| shape.is_head_at(i)),
        decreases i,
    {
        i = i - 1;
        match shape.fields[i].role {
            crate::shape::Role::Tail => {
                assert(tail_pred(i as int) && !head_pred(i as int));
                let dv = collect_deps(shape, i);
                tails.push(i);
                deps.push(dv);
                proof {
                    assert(tails@ =~= picks_desc(tail_pred, i as int, m as int));
                    assert(heads@ =~= picks_desc(head_pred, i as int, m as int));
                }
            },
            crate::shape::Role::Head => {
                assert(head_pred(i as int) && !tail_pred(i as int));
                heads.push(i);
                proof {
                    assert(tails@ =~= picks_desc(tail_pred, i as int, m as int));
                    assert(heads@ =~= picks_desc(head_pred, i as int, m as int));
                }
            },
            crate::shape::Role::Lifecycle => {
                // The shape is well-formed: only the last field, which is
                // not constructible, has the lifecycle role.
                assert(false);
            },
        }
    }
    let plan = ConstructionPlan { n_fields: m, heads, tails, deps };
    proof {
        lemma_picks_desc(tail_pred, 0, m as int);
        lemma_picks_desc(head_pred, 0, m as int);
        assert forall|k: int, x: int|
            0 <= k < plan.tails@.len() && 0 <= x < plan.deps@[k]@.len() implies plan.tails@[k]
            < #[trigger] plan.deps@[k]@[x] && plan.deps@[k]@[x] < plan.n_fields by {
            let t = plan.tails@[k];
            lemma_picks_desc((|j: int| shape.dep_match(t as int, j)), t + 1, m as int);
        }
        assert forall|i2: usize| i2 < plan.n_fields implies (plan.tails@.contains(i2)
            <==> !plan.heads@.contains(i2)) by {
            assert(tail_pred(i2 as int) <==> plan.tails@.contains(i2));
            assert(head_pred(i2 as int) <==> plan.heads@.contains(i2));
            assert(shape.is_tail_at(i2 as int) <==> !shape.is_head_at(i2 as int)) by {
                assert(!(shape.fields@[i2 as int].role is Lifecycle));
            }
        }
        assert(plan.wf());
        assert(resolves_to(*shape, plan));
    }
    Ok(plan)
}

} // verus!
