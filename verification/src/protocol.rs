//! The protocol generator: the per-shape contract a user must fulfill.
//!
//! For every tail field it emits one constructor signature, named
//! deterministically from the field name: the parameters are exactly the
//! tail's resolved dependencies, each under its own name and declared
//! type, and the return type is the field's declared type, or a result
//! pairing it with the shape's shared error type where the shape is
//! fallible.

use vstd::prelude::*;
use vstd::string::StringSliceAdditionalSpecFns;

use crate::bytes::bytes_clone;
use crate::bytes::bytes_extend;
use crate::resolver::resolve;
use crate::resolver::resolves_to;
use crate::resolver::ConstructionPlan;
use crate::shape::classification_error;
use crate::shape::classifies;
use crate::shape::classify;
use crate::shape::DeclKind;
use crate::shape::ObjectShape;
use crate::shape::RawField;
use crate::shape::ShapeError;

verus! {

/// One tail field's constructor contract: the position of the tail, the
/// constructor's name, its parameters (dependency names and declared
/// types, in reverse declaration order), and its return type.
#[derive(Debug)]
pub struct TailContract {
    pub tail: usize,
    pub fn_name: Vec<u8>,
    pub param_names: Vec<Vec<u8>>,
    pub param_tys: Vec<Vec<u8>>,
    pub ret_ty: Vec<u8>,
}

/// The prefix every generated constructor name carries.
pub open spec fn init_fn_prefix() -> Seq<u8> {
    "init_field_".spec_bytes()
}

/// The rendered return type of a fallible constructor: a result of the
/// field's declared type and the shape's shared error type.
pub open spec fn fallible_ret_ty(ty: Seq<u8>, err: Seq<u8>) -> Seq<u8> {
    "Result<".spec_bytes() + ty + ", ".spec_bytes() + err + ">".spec_bytes()
}

impl ObjectShape {
    /// The declared type of the field at `i`.
    pub open spec fn ty_at(self, i: int) -> Seq<u8> {
        self.fields@[i].ty@
    }
}

/// Whether `contracts` is the generated protocol of the shape under the
/// plan: one contract per tail, in processing order.
pub open spec fn protocol_of(
    shape: ObjectShape,
    plan: ConstructionPlan,
    contracts: Seq<TailContract>,
) -> bool {
    &&& contracts.len() == plan.tails@.len()
    &&& forall|k: int|
        0 <= k < contracts.len() ==> {
            let t = plan.tails@[k] as int;
            &&& (#[trigger] contracts[k]).tail == plan.tails@[k]
            &&& contracts[k].fn_name@ == init_fn_prefix() + shape.name_at(t)
            &&& contracts[k].param_names@.len() == plan.deps@[k]@.len()
            &&& contracts[k].param_tys@.len() == plan.deps@[k]@.len()
            &&& forall|x: int|
                0 <= x < plan.deps@[k]@.len() ==> {
                    &&& (#[trigger] contracts[k].param_names@[x])@ == shape.name_at(
                        plan.deps@[k]@[x] as int,
                    )
                    &&& contracts[k].param_tys@[x]@ == shape.ty_at(plan.deps@[k]@[x] as int)
                }
            &&& contracts[k].ret_ty@ == match shape.err_ty {
                None => shape.ty_at(t),
                Some(err) => fallible_ret_ty(shape.ty_at(t), err@),
            }
        }
}

/// The deterministic constructor name of a tail field.
pub fn init_fn_name(name: &Vec<u8>) -> (r: Vec<u8>)
    ensures
        r@ == init_fn_prefix() + name@,
{
    let mut r: Vec<u8> = "init_field_".as_bytes_vec();
    bytes_extend(&mut r, name);
    r
}

/// The return type a tail constructor is declared with: the field's
/// declared type, or, for a fallible shape, a result pairing it with the
/// shape's shared error type.
pub fn render_ret_ty(ty: &Vec<u8>, err: &Option<Vec<u8>>) -> (r: Vec<u8>)
    ensures
        r@ == match err {
            None => ty@,
            Some(e) => fallible_ret_ty(ty@, e@),
        },
{
    match err {
        None => bytes_clone(ty),
        Some(e) => {
            let mut r: Vec<u8> = "Result<".as_bytes_vec();
            bytes_extend(&mut r, ty);
            let sep: Vec<u8> = ", ".as_bytes_vec();
            bytes_extend(&mut r, &sep);
            bytes_extend(&mut r, e);
            let close: Vec<u8> = ">".as_bytes_vec();
            bytes_extend(&mut r, &close);
            r
        },
    }
}

/// Generates the per-shape contract: one constructor signature per tail
/// field, in processing order.
pub fn protocol(shape: &ObjectShape, plan: &ConstructionPlan) -> (r: Vec<TailContract>)
    requires
        plan.wf(),
        plan.n_fields == shape.n_constructible(),
    ensures
        protocol_of(*shape, *plan, r@),
{
    let n_tails: usize = plan.tails.len();
    let mut r: Vec<TailContract> = Vec::new();
    let mut k: usize = 0;
    while k < n_tails
        invariant
            plan.wf(),
            plan.n_fields == shape.n_constructible(),
            n_tails == plan.tails@.len(),
            k <= n_tails,
            r@.len() == k,
            forall|p: int|
                0 <= p < k ==> {
                    let t = plan.tails@[p] as int;
                    &&& (#[trigger] r@[p]).tail == plan.tails@[p]
                    &&& r@[p].fn_name@ == init_fn_prefix() + shape.name_at(t)
                    &&& r@[p].param_names@.len() == plan.deps@[p]@.len()
                    &&& r@[p].param_tys@.len() == plan.deps@[p]@.len()
                    &&& forall|x: int|
                        0 <= x < plan.deps@[p]@.len() ==> {
                            &&& (#[trigger] r@[p].param_names@[x])@ == shape.name_at(
                                plan.deps@[p]@[x] as int,
                            )
                            &&& r@[p].param_tys@[x]@ == shape.ty_at(plan.deps@[p]@[x] as int)
                        }
                    &&& r@[p].ret_ty@ == match shape.err_ty {
                        None => shape.ty_at(t),
                        Some(err) => fallible_ret_ty(shape.ty_at(t), err@),
                    }
                },
        decreases n_tails - k,
    {
        let t = plan.tails[k];
        let nd: usize = plan.deps[k].len();
        let mut param_names: Vec<Vec<u8>> = Vec::new();
        let mut param_tys: Vec<Vec<u8>> = Vec::new();
        let mut x: usize = 0;
        while x < nd
            invariant
                plan.wf(),
                plan.n_fields == shape.n_constructible(),
                k < n_tails == plan.tails@.len(),
                t == plan.tails@[k as int],
                nd == plan.deps@[k as int]@.len(),
                x <= nd,
                param_names@.len() == x,
                param_tys@.len() == x,
                forall|y: int|
                    0 <= y < x ==> {
                        &&& (#[trigger] param_names@[y])@ == shape.name_at(
                            plan.deps@[k as int]@[y] as int,
                        )
                        &&& param_tys@[y]@ == shape.ty_at(plan.deps@[k as int]@[y] as int)
                    },
            decreases nd - x,
        {
            let j = plan.deps[k][x];
            assert(plan.tails@[k as int] < plan.deps@[k as int]@[x as int] < plan.n_fields);
            param_names.push(bytes_clone(&shape.fields[j].name));
            param_tys.push(bytes_clone(&shape.fields[j].ty));
            x = x + 1;
        }
        assert(t < plan.n_fields);
        let contract = TailContract {
            tail: t,
            fn_name: init_fn_name(&shape.fields[t].name),
            param_names,
            param_tys,
            ret_ty: render_ret_ty(&shape.fields[t].ty, &shape.err_ty),
        };
        r.push(contract);
        k = k + 1;
    }
    r
}

/// Derives everything a shape yields, once per type: classification,
/// dependency resolution into a construction plan, and the generated
/// per-tail constructor contracts; or the first derivation-time error.
pub fn derive_shape(kind: DeclKind, raws: &Vec<RawField>, err_ty: Option<Vec<u8>>) -> (r: Result<
    (ObjectShape, ConstructionPlan, Vec<TailContract>),
    ShapeError,
>)
    ensures
        match classification_error(kind, raws@) {
            Some(e) => r == Err::<(ObjectShape, ConstructionPlan, Vec<TailContract>), ShapeError>(
                e,
            ),
            None => match r {
                Ok((shape, plan, contracts)) => {
                    &&& classifies(raws@, err_ty, shape)
                    &&& shape.wf()
                    &&& shape.first_unresolved_from(0) is None
                    &&& resolves_to(shape, plan)
                    &&& protocol_of(shape, plan, contracts@)
                },
                Err(e) => exists|shape: ObjectShape|
                    {
                        &&& #[trigger] classifies(raws@, err_ty, shape)
                        &&& shape.wf()
                        &&& match shape.first_unresolved_from(0) {
                            Some(missing) => match e {
                                ShapeError::UnknownDependency(d) => d@ == missing,
                                _ => false,
                            },
                            None => false,
                        }
                    },
            },
        },
{
    let shape = match classify(kind, raws, err_ty) {
        Ok(shape) => shape,
        Err(e) => {
            return Err(e);
        },
    };
    let plan = match resolve(&shape) {
        Ok(plan) => plan,
        Err(e) => {
            return Err(e);
        },
    };
    let contracts = protocol(&shape, &plan);
    Ok((shape, plan, contracts))
}

} // verus!
