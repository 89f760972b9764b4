//! The field classifier: from a raw declaration to an `ObjectShape`.
//!
//! A declaration is a list of raw fields, each with a name, a declared type
//! and its markers. The classifier assigns every field exactly one role —
//! the single lifecycle field, a head (independently constructible) or a
//! tail (constructed from references to sibling fields) — and checks that
//! the declaration has exactly one lifecycle field, declared last.

use vstd::prelude::*;

use crate::bytes::bytes_clone;
use crate::markers::depends_marker_names;
use crate::markers::is_lifecycle_marker;
use crate::markers::marker_is_lifecycle;
use crate::markers::marker_recognized;
use crate::markers::parse_depends_marker;

verus! {

/// What kind of item a declaration is. Only struct declarations have a
/// field shape.
#[derive(Clone, Copy, Debug, PartialEq, Eq)]
pub enum DeclKind {
    StructDecl,
    EnumDecl,
    UnionDecl,
}

/// The role of a field within a shape.
#[derive(Clone, Copy, Debug, PartialEq, Eq)]
pub enum Role {
    /// Constructed directly from a caller-supplied value.
    Head,
    /// Constructed from references to sibling fields declared after it.
    Tail,
    /// The one field holding the lifecycle tag; declared last.
    Lifecycle,
}

/// A field as a syntax front-end hands it over: name, declared type, and
/// the markers written on it.
#[derive(Debug)]
pub struct RawField {
    pub name: Vec<u8>,
    pub ty: Vec<u8>,
    pub markers: Vec<Vec<u8>>,
}

/// A classified field: its role, and for a tail field the names of the
/// fields it depends on, in declared order.
#[derive(Debug)]
pub struct FieldSpec {
    pub name: Vec<u8>,
    pub ty: Vec<u8>,
    pub role: Role,
    pub deps: Vec<Vec<u8>>,
}

/// An ordered field shape, derived once per type. Valid shapes have
/// exactly one lifecycle field, declared last. A shape that declares a
/// shared error type for its tail constructors is fallible.
#[derive(Debug)]
pub struct ObjectShape {
    pub fields: Vec<FieldSpec>,
    pub err_ty: Option<Vec<u8>>,
}

/// The errors a declaration can be rejected with when its shape is derived.
#[derive(Clone, Debug, PartialEq, Eq)]
pub enum ShapeError {
    /// No field carries the lifecycle marker.
    MissingLifecycleField,
    /// A field carries the lifecycle marker but is not the last field, or
    /// more than one field carries it.
    LifecycleFieldNotLast,
    /// A declared dependency does not name a field declared strictly after
    /// the depending field; the missing name is carried.
    UnknownDependency(Vec<u8>),
    /// The declaration is not a struct declaration.
    NotAStructShape,
}

/// The position of the first recognized marker at or after `i`, if any.
pub open spec fn first_recognized_from(ms: Seq<Seq<u8>>, i: int) -> Option<int>
    decreases ms.len() - i when 0 <= i <= ms.len()
{
    if i >= ms.len() {
        None
    } else if marker_recognized(ms[i]) {
        Some(i)
    } else {
        first_recognized_from(ms, i + 1)
    }
}

impl RawField {
    /// The first recognized marker decides the field's role.
    pub open spec fn chosen_marker(self) -> Option<int> {
        first_recognized_from(self.markers.deep_view(), 0)
    }

    /// Whether this raw field is marked as the lifecycle field.
    pub open spec fn is_lifecycle(self) -> bool {
        match self.chosen_marker() {
            Some(k) => is_lifecycle_marker(self.markers.deep_view()[k]),
            None => false,
        }
    }

    /// Whether this raw field is marked as a tail field.
    pub open spec fn is_tail(self) -> bool {
        match self.chosen_marker() {
            Some(k) => !is_lifecycle_marker(self.markers.deep_view()[k]),
            None => false,
        }
    }

    /// The dependency names a tail field declares, in declared order.
    pub open spec fn tail_deps(self) -> Seq<Seq<u8>> {
        match self.chosen_marker() {
            Some(k) => if is_lifecycle_marker(self.markers.deep_view()[k]) {
                Seq::empty()
            } else {
                match depends_marker_names(self.markers.deep_view()[k]) {
                    Some(names) => names,
                    None => Seq::empty(),
                }
            },
            None => Seq::empty(),
        }
    }
}

impl ObjectShape {
    /// The number of constructible fields: every field but the lifecycle
    /// field, which is declared last.
    pub open spec fn n_constructible(self) -> int {
        self.fields@.len() - 1
    }

    /// Exactly one lifecycle field, declared last.
    pub open spec fn wf(self) -> bool {
        &&& self.fields@.len() > 0
        &&& self.fields@[self.fields@.len() - 1].role is Lifecycle
        &&& forall|i: int|
            0 <= i < self.fields@.len() - 1 ==> !(#[trigger] self.fields@[i].role is Lifecycle)
    }
}

/// Whether some raw field is marked as the lifecycle field.
pub open spec fn has_lifecycle_field(raws: Seq<RawField>) -> bool {
    exists|i: int| 0 <= i < raws.len() && (#[trigger] raws[i]).is_lifecycle()
}

/// Whether the last raw field, and no other, is marked as the lifecycle
/// field.
pub open spec fn lifecycle_is_last(raws: Seq<RawField>) -> bool {
    &&& raws.len() > 0
    &&& raws[raws.len() - 1].is_lifecycle()
    &&& forall|i: int| 0 <= i < raws.len() - 1 ==> !(#[trigger] raws[i]).is_lifecycle()
}

/// The error classification stops with, if any: a declaration must be a
/// struct, must have a lifecycle field, and must declare it last.
pub open spec fn classification_error(kind: DeclKind, raws: Seq<RawField>) -> Option<ShapeError> {
    if !(kind is StructDecl) {
        Some(ShapeError::NotAStructShape)
    } else if !has_lifecycle_field(raws) {
        Some(ShapeError::MissingLifecycleField)
    } else if !lifecycle_is_last(raws) {
        Some(ShapeError::LifecycleFieldNotLast)
    } else {
        None
    }
}

/// Whether `s` is the classification of the raw fields: same names and
/// types, roles assigned by each field's first recognized marker, and the
/// declared dependency names kept on tail fields.
pub open spec fn classifies(raws: Seq<RawField>, err_ty: Option<Vec<u8>>, s: ObjectShape) -> bool {
    &&& s.fields@.len() == raws.len()
    &&& forall|i: int|
        0 <= i < raws.len() ==> {
            &&& (#[trigger] s.fields@[i]).name@ == raws[i].name@
            &&& s.fields@[i].ty@ == raws[i].ty@
            &&& (s.fields@[i].role is Lifecycle) == raws[i].is_lifecycle()
            &&& (s.fields@[i].role is Tail) == raws[i].is_tail()
            &&& (s.fields@[i].role is Head) == (!raws[i].is_lifecycle() && !raws[i].is_tail())
            &&& s.fields@[i].deps.deep_view() == raws[i].tail_deps()
        }
    &&& s.err_ty == err_ty
}

/// From `lo` to `hi` every marker is unrecognized, so the search result is
/// the same from either start.
proof fn lemma_first_recognized_skip_simple(ms: Seq<Seq<u8>>, lo: int, hi: int)
    requires
        0 <= lo <= hi <= ms.len(),
        forall|k: int| lo <= k < hi ==> !marker_recognized(#[trigger] ms[k]),
    ensures
        first_recognized_from(ms, lo) == first_recognized_from(ms, hi),
    decreases hi - lo,
{
    if lo < hi {
        lemma_first_recognized_skip_simple(ms, lo + 1, hi);
    }
}

/// Classifies one raw field by its first recognized marker.
pub fn classify_field(f: &RawField) -> (r: FieldSpec)
    ensures
        r.name@ == f.name@,
        r.ty@ == f.ty@,
        (r.role is Lifecycle) == f.is_lifecycle(),
        (r.role is Tail) == f.is_tail(),
        (r.role is Head) == (!f.is_lifecycle() && !f.is_tail()),
        r.deps.deep_view() == f.tail_deps(),
{
    let ghost ms = f.markers.deep_view();
    let n: usize = f.markers.len();
    let mut j: usize = 0;
    while j < n
        invariant
            n == f.markers@.len(),
            j <= n,
            ms == f.markers.deep_view(),
            forall|k: int| 0 <= k < j ==> !marker_recognized(#[trigger] ms[k]),
        decreases n - j,
    {
        let m = &f.markers[j];
        assert(m@ == ms[j as int]);
        if marker_is_lifecycle(m) {
            proof {
                lemma_first_recognized_skip_simple(ms, 0, j as int);
                assert(first_recognized_from(ms, j as int) == Some(j as int));
            }
            return FieldSpec {
                name: bytes_clone(&f.name),
                ty: bytes_clone(&f.ty),
                role: Role::Lifecycle,
                deps: Vec::new(),
            };
        }
        match parse_depends_marker(m) {
            Some(names) => {
                proof {
                    lemma_first_recognized_skip_simple(ms, 0, j as int);
                    assert(first_recognized_from(ms, j as int) == Some(j as int));
                }
                return FieldSpec {
                    name: bytes_clone(&f.name),
                    ty: bytes_clone(&f.ty),
                    role: Role::Tail,
                    deps: names,
                };
            },
            None => {
                assert(!marker_recognized(ms[j as int]));
            },
        }
        j = j + 1;
    }
    proof {
        lemma_first_recognized_skip_simple(ms, 0, n as int);
        assert(first_recognized_from(ms, n as int) is None);
    }
    FieldSpec {
        name: bytes_clone(&f.name),
        ty: bytes_clone(&f.ty),
        role: Role::Head,
        deps: Vec::new(),
    }
}

/// The declaration position of the first field named `name`, if any.
pub fn field_position(shape: &ObjectShape, name: &Vec<u8>) -> (r: Option<usize>)
    ensures
        match r {
            Some(i) => {
                &&& i < shape.fields@.len()
                &&& shape.fields@[i as int].name@ == name@
                &&& forall|j: int| 0 <= j < i ==> (#[trigger] shape.fields@[j]).name@ != name@
            },
            None => forall|j: int|
                0 <= j < shape.fields@.len() ==> (#[trigger] shape.fields@[j]).name@ != name@,
        },
{
    let n: usize = shape.fields.len();
    let mut i: usize = 0;
    while i < n
        invariant
            n == shape.fields@.len(),
            i <= n,
            forall|j: int| 0 <= j < i ==> (#[trigger] shape.fields@[j]).name@ != name@,
        decreases n - i,
    {
        if crate::bytes::bytes_eq(&shape.fields[i].name, name) {
            return Some(i);
        }
        i = i + 1;
    }
    None
}

/// Classifies a declaration into an `ObjectShape`: rejects non-struct
/// declarations, classifies each field, and checks that exactly one
/// lifecycle field exists and is declared last.
pub fn classify(kind: DeclKind, raws: &Vec<RawField>, err_ty: Option<Vec<u8>>) -> (r: Result<
    ObjectShape,
    ShapeError,
>)
    ensures
        match classification_error(kind, raws@) {
            Some(e) => r == Err::<ObjectShape, ShapeError>(e),
            None => match r {
                Ok(s) => classifies(raws@, err_ty, s) && s.wf(),
                Err(_) => false,
            },
        },
{
    if !(matches!(kind, DeclKind::StructDecl)) {
        return Err(ShapeError::NotAStructShape);
    }
    let n: usize = raws.len();
    let mut specs: Vec<FieldSpec> = Vec::new();
    let mut i: usize = 0;
    while i < n
        invariant
            n == raws@.len(),
            i <= n,
            specs@.len() == i,
            forall|k: int|
                0 <= k < i ==> {
                    &&& (#[trigger] specs@[k]).name@ == raws@[k].name@
                    &&& specs@[k].ty@ == raws@[k].ty@
                    &&& (specs@[k].role is Lifecycle) == raws@[k].is_lifecycle()
                    &&& (specs@[k].role is Tail) == raws@[k].is_tail()
                    &&& (specs@[k].role is Head) == (!raws@[k].is_lifecycle()
                        && !raws@[k].is_tail())
                    &&& specs@[k].deps.deep_view() == raws@[k].tail_deps()
                },
        decreases n - i,
    {
        let fs = classify_field(&raws[i]);
        specs.push(fs);
        i = i + 1;
    }
    if n == 0 {
        assert(!has_lifecycle_field(raws@));
        return Err(ShapeError::MissingLifecycleField);
    }
    let last_ok = matches!(specs[n - 1].role, Role::Lifecycle);
    let mut misplaced: bool = false;
    let mut i: usize = 0;
    while i < n - 1
        invariant
            n == raws@.len() == specs@.len(),
            n >= 1,
            i <= n - 1,
            forall|k: int|
                0 <= k < n ==> ((#[trigger] specs@[k].role) is Lifecycle)
                    == raws@[k].is_lifecycle(),
            misplaced == (exists|k: int| 0 <= k < i && (#[trigger] raws@[k]).is_lifecycle()),
        decreases n - i,
    {
        if matches!(specs[i].role, Role::Lifecycle) {
            misplaced = true;
        }
        i = i + 1;
    }
    if !last_ok && !misplaced {
        assert(!has_lifecycle_field(raws@));
        return Err(ShapeError::MissingLifecycleField);
    }
    if misplaced || !last_ok {
        assert(has_lifecycle_field(raws@));
        assert(!lifecycle_is_last(raws@));
        return Err(ShapeError::LifecycleFieldNotLast);
    }
    assert(lifecycle_is_last(raws@));
    assert(has_lifecycle_field(raws@)) by {
        assert(raws@[n - 1].is_lifecycle());
    }
    let s = ObjectShape { fields: specs, err_ty };
    assert(s.wf());
    Ok(s)
}

} // verus!
