// The lifecycle tests: a shape with two tails chained onto two heads,
// once infallible and once with a shared error type, driven through
// allocation, construction, teardown and re-synchronization.
//
// Field positions in both shapes: c = 0, b = 1, head1 = 2, head2 = 3; the
// lifecycle field is declared last and holds no position. Head values are
// handed over in the plan's head order (reverse declaration order), so
// head2 comes first: (4711, 42) gives head2 = 4711, head1 = 42.

use incrstruct::classify;
use incrstruct::drop_uninit_in_place;
use incrstruct::ensure_init;
use incrstruct::force_init;
use incrstruct::new_box;
use incrstruct::new_rc;
use incrstruct::new_uninit;
use incrstruct::read_field;
use incrstruct::resolve;
use incrstruct::set_head;
use incrstruct::ConstructionPlan;
use incrstruct::DeclKind;
use incrstruct::ObjectShape;
use incrstruct::RawField;
use incrstruct::TailInit;
use incrstruct::TailOut;

const POS_C: usize = 0;
const POS_B: usize = 1;
const POS_HEAD1: usize = 2;
const POS_HEAD2: usize = 3;

fn field(name: &[u8], ty: &[u8], markers: &[&[u8]]) -> RawField {
    RawField {
        name: name.to_vec(),
        ty: ty.to_vec(),
        markers: markers.iter().map(|m| m.to_vec()).collect(),
    }
}

/// The infallible shape: `c` borrows `b`; `b` borrows `head1` and `head2`.
fn simple_shape() -> (ObjectShape, ConstructionPlan) {
    let raws = vec![
        field(b"c", b"&'a i32", &[b"depends-on(b)"]),
        field(b"b", b"Ref<'a, i32>", &[b"depends-on(head1, head2)"]),
        field(b"head1", b"RefCell<i32>", &[]),
        field(b"head2", b"i64", &[]),
        field(b"hdr", b"Header", &[b"lifecycle"]),
    ];
    let shape = classify(DeclKind::StructDecl, &raws, None).unwrap();
    let plan = resolve(&shape).unwrap();
    (shape, plan)
}

struct SimpleInit;

impl TailInit for SimpleInit {
    type Error = ();

    fn init_field(&self, t: usize, vals: &Vec<i64>) -> Result<TailOut, ()> {
        match t {
            // b is built from (head2, head1) and borrows head1's value.
            POS_B => {
                assert_eq!(vals.len(), 2);
                Ok(TailOut::RefToDep(1))
            }
            // c is built from (b,) and references b.
            POS_C => {
                assert_eq!(vals.len(), 1);
                Ok(TailOut::RefToDep(0))
            }
            _ => unreachable!(),
        }
    }

    fn drop_field(&self, _t: usize) {}
}

#[test]
fn new_uninit_works() {
    let (_, plan) = simple_shape();
    let mut a = new_uninit(&plan, &vec![4711, 42]);
    ensure_init(&plan, &SimpleInit, &mut a).unwrap();

    assert_eq!(read_field(&plan, &a, POS_HEAD1), 42);
    assert_eq!(read_field(&plan, &a, POS_B), 42);
    assert_eq!(read_field(&plan, &a, POS_C), 42);
}

#[test]
fn drop_uninit_in_place_works() {
    let (_, plan) = simple_shape();
    let a = new_uninit(&plan, &vec![4711, 42]);

    assert_eq!(read_field(&plan, &a, POS_HEAD1), 42);

    drop_uninit_in_place(&plan, &SimpleInit, a);
}

#[test]
fn new_box_works() {
    let (_, plan) = simple_shape();
    let a = new_box(&plan, &SimpleInit, &vec![4711, 42]).unwrap();

    assert_eq!(read_field(&plan, &a, POS_HEAD1), 42);
    assert_eq!(read_field(&plan, &a, POS_B), 42);
    assert_eq!(read_field(&plan, &a, POS_C), 42);
}

#[test]
fn new_rc_works() {
    let (_, plan) = simple_shape();
    let a = new_rc(&plan, &SimpleInit, &vec![4711, 42]).unwrap();

    assert_eq!(read_field(&plan, &a, POS_HEAD1), 42);
    assert_eq!(read_field(&plan, &a, POS_B), 42);
    assert_eq!(read_field(&plan, &a, POS_C), 42);
}

#[test]
fn force_init_works() {
    let (_, plan) = simple_shape();
    let a = new_box(&plan, &SimpleInit, &vec![4711, 42]).unwrap();
    let mut b = *a;

    force_init(&plan, &SimpleInit, &mut b).unwrap();

    assert_eq!(read_field(&plan, &b, POS_HEAD1), 42);
    assert_eq!(read_field(&plan, &b, POS_B), 42);
    assert_eq!(read_field(&plan, &b, POS_C), 42);
}

// The fallible shape: `c` borrows `b` and `head2` and fails whenever
// head2 holds the designated value; `b` borrows `head1`.

#[derive(Debug, PartialEq, Eq)]
enum TestError {
    Failed,
}

const HEAD2_FAIL: i64 = 18;

fn err_shape() -> (ObjectShape, ConstructionPlan) {
    let raws = vec![
        field(b"c", b"&'a i32", &[b"depends-on(b, head2)"]),
        field(b"b", b"Ref<'a, i32>", &[b"depends-on(head1)"]),
        field(b"head1", b"RefCell<i32>", &[]),
        field(b"head2", b"i64", &[]),
        field(b"hdr", b"Header", &[b"lifecycle"]),
    ];
    let shape = classify(DeclKind::StructDecl, &raws, Some(b"Error".to_vec())).unwrap();
    let plan = resolve(&shape).unwrap();
    (shape, plan)
}

struct ErrInit;

impl TailInit for ErrInit {
    type Error = TestError;

    fn init_field(&self, t: usize, vals: &Vec<i64>) -> Result<TailOut, TestError> {
        match t {
            // b is built from (head1,) and borrows head1's value.
            POS_B => {
                assert_eq!(vals.len(), 1);
                Ok(TailOut::RefToDep(0))
            }
            // c is built from (head2, b): fails on the designated head2
            // value, otherwise references b.
            POS_C => {
                assert_eq!(vals.len(), 2);
                if vals[0] == HEAD2_FAIL {
                    Err(TestError::Failed)
                } else {
                    Ok(TailOut::RefToDep(1))
                }
            }
            _ => unreachable!(),
        }
    }

    fn drop_field(&self, _t: usize) {}
}

#[test]
fn derive_test_new_uninit_works() {
    let (_, plan) = err_shape();
    let mut a = new_uninit(&plan, &vec![4711, 42]);
    ensure_init(&plan, &ErrInit, &mut a).unwrap();

    assert_eq!(read_field(&plan, &a, POS_HEAD1), 42);
    assert_eq!(read_field(&plan, &a, POS_B), 42);
    assert_eq!(read_field(&plan, &a, POS_C), 42);
}

#[test]
fn derive_test_drop_uninit_in_place_works() {
    let (_, plan) = err_shape();
    let a = new_uninit(&plan, &vec![4711, 42]);

    assert_eq!(read_field(&plan, &a, POS_HEAD1), 42);

    drop_uninit_in_place(&plan, &ErrInit, a);
}

#[test]
fn derive_test_new_box_works() {
    let (_, plan) = err_shape();
    let a = new_box(&plan, &ErrInit, &vec![4711, 42]).unwrap();

    assert_eq!(read_field(&plan, &a, POS_HEAD1), 42);
    assert_eq!(read_field(&plan, &a, POS_B), 42);
    assert_eq!(read_field(&plan, &a, POS_C), 42);
}

#[test]
fn derive_test_new_rc_works() {
    let (_, plan) = err_shape();
    let a = new_rc(&plan, &ErrInit, &vec![4711, 42]).unwrap();

    assert_eq!(read_field(&plan, &a, POS_HEAD1), 42);
    assert_eq!(read_field(&plan, &a, POS_B), 42);
    assert_eq!(read_field(&plan, &a, POS_C), 42);
}

#[test]
fn derive_test_force_init_works() {
    let (_, plan) = err_shape();
    let a = new_box(&plan, &ErrInit, &vec![4711, 42]).unwrap();
    let mut b = *a;

    force_init(&plan, &ErrInit, &mut b).unwrap();

    assert_eq!(read_field(&plan, &b, POS_HEAD1), 42);
    assert_eq!(read_field(&plan, &b, POS_B), 42);
    assert_eq!(read_field(&plan, &b, POS_C), 42);
}

#[test]
fn new_box_fails_gracefully() {
    let (_, plan) = err_shape();
    assert_eq!(
        new_box(&plan, &ErrInit, &vec![HEAD2_FAIL, 42]).unwrap_err(),
        TestError::Failed
    );
}

#[test]
fn second_force_init_fails_gracefully() {
    let (_, plan) = err_shape();
    let a = new_box(&plan, &ErrInit, &vec![4711, 42]).unwrap();
    let mut b = *a;

    force_init(&plan, &ErrInit, &mut b).unwrap();

    set_head(&plan, &mut b, POS_HEAD2, HEAD2_FAIL);

    assert_eq!(force_init(&plan, &ErrInit, &mut b).unwrap_err(), TestError::Failed);
}
