//! Incremental construction of objects whose fields reference sibling
//! fields of the same object.
//!
//! A shape declares, per field, whether it is a head (built directly from
//! caller-supplied values), a tail (built from references to other fields),
//! or the single lifecycle field that tracks initialization. The classifier
//! assigns the roles, the resolver validates the dependency declarations
//! against the positional rule — a field may depend only on fields declared
//! strictly after it — and derives a construction plan, and the protocol
//! generator emits the constructor contract a user fulfills per tail
//! field. The lifecycle controller then performs two-phase construction,
//! rollback on failure, and re-synchronization, against that plan.
//! References between fields are represented as field positions and
//! resolved at read time, so a value's placement in memory never matters
//! and a handle cannot be invalidated by relocation.

use vstd::prelude::*;

pub mod bytes;
pub mod laws;
pub mod lifecycle;
pub mod markers;
pub mod protocol;
pub mod resolver;
pub mod shape;
pub mod wrappers;

pub use lifecycle::drop_tail_in_place;
pub use lifecycle::drop_uninit_in_place;
pub use lifecycle::ensure_init;
pub use lifecycle::force_init;
pub use lifecycle::header;
pub use lifecycle::new_uninit;
pub use lifecycle::read_field;
pub use lifecycle::set_head;
pub use lifecycle::Header;
pub use lifecycle::Instance;
pub use lifecycle::Slot;
pub use lifecycle::TailInit;
pub use lifecycle::TailOut;
pub use protocol::derive_shape;
pub use protocol::TailContract;
pub use resolver::is_head_position;
pub use resolver::resolve;
pub use resolver::ConstructionPlan;
pub use shape::classify;
pub use shape::field_position;
pub use shape::DeclKind;
pub use shape::FieldSpec;
pub use shape::ObjectShape;
pub use shape::RawField;
pub use shape::Role;
pub use shape::ShapeError;
pub use wrappers::new_box;
pub use wrappers::new_rc;
pub use wrappers::resynchronize;

verus! {

} // verus!
