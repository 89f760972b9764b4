// Derivation-time behavior: classification, the positional dependency
// rule, the derived plan, and the generated protocol.

use incrstruct::classify;
use incrstruct::derive_shape;
use incrstruct::resolve;
use incrstruct::DeclKind;
use incrstruct::ObjectShape;
use incrstruct::RawField;
use incrstruct::Role;
use incrstruct::ShapeError;

fn field(name: &[u8], ty: &[u8], markers: &[&[u8]]) -> RawField {
    RawField {
        name: name.to_vec(),
        ty: ty.to_vec(),
        markers: markers.iter().map(|m| m.to_vec()).collect(),
    }
}

fn chain_fields() -> Vec<RawField> {
    vec![
        field(b"c", b"&'a i32", &[b"depends-on(b)"]),
        field(b"b", b"Ref<'a, i32>", &[b"depends-on(head1, head2)"]),
        field(b"head1", b"RefCell<i32>", &[]),
        field(b"head2", b"i64", &[]),
        field(b"hdr", b"Header", &[b"lifecycle"]),
    ]
}

fn chain_shape() -> ObjectShape {
    classify(DeclKind::StructDecl, &chain_fields(), None).unwrap()
}

#[test]
fn classifier_assigns_roles() {
    let shape = chain_shape();
    assert_eq!(shape.fields.len(), 5);
    assert_eq!(shape.fields[0].role, Role::Tail);
    assert_eq!(shape.fields[1].role, Role::Tail);
    assert_eq!(shape.fields[2].role, Role::Head);
    assert_eq!(shape.fields[3].role, Role::Head);
    assert_eq!(shape.fields[4].role, Role::Lifecycle);
    assert_eq!(shape.fields[1].deps, vec![b"head1".to_vec(), b"head2".to_vec()]);
}

#[test]
fn resolver_orders_processing_and_dependencies() {
    let plan = resolve(&chain_shape()).unwrap();
    assert_eq!(plan.n_fields, 4);
    // Reverse declaration order throughout.
    assert_eq!(plan.heads, vec![3, 2]);
    assert_eq!(plan.tails, vec![1, 0]);
    assert_eq!(plan.deps, vec![vec![3, 2], vec![1]]);
}

#[test]
fn dependencies_point_strictly_after_their_tail() {
    let plan = resolve(&chain_shape()).unwrap();
    for (k, deps) in plan.deps.iter().enumerate() {
        for &d in deps {
            assert!(d > plan.tails[k]);
            assert!(d < plan.n_fields);
        }
    }
}

#[test]
fn non_struct_declarations_are_rejected() {
    assert_eq!(
        classify(DeclKind::EnumDecl, &chain_fields(), None).unwrap_err(),
        ShapeError::NotAStructShape
    );
    assert_eq!(
        classify(DeclKind::UnionDecl, &chain_fields(), None).unwrap_err(),
        ShapeError::NotAStructShape
    );
}

#[test]
fn missing_lifecycle_field_is_rejected() {
    let raws = vec![field(b"a", b"i64", &[]), field(b"b", b"i64", &[])];
    assert_eq!(
        classify(DeclKind::StructDecl, &raws, None).unwrap_err(),
        ShapeError::MissingLifecycleField
    );
    let empty: Vec<RawField> = Vec::new();
    assert_eq!(
        classify(DeclKind::StructDecl, &empty, None).unwrap_err(),
        ShapeError::MissingLifecycleField
    );
}

#[test]
fn lifecycle_field_not_last_is_rejected() {
    let raws = vec![
        field(b"hdr", b"Header", &[b"lifecycle"]),
        field(b"a", b"i64", &[]),
    ];
    assert_eq!(
        classify(DeclKind::StructDecl, &raws, None).unwrap_err(),
        ShapeError::LifecycleFieldNotLast
    );
    // Two lifecycle fields: one of them is necessarily not last.
    let raws = vec![
        field(b"hdr1", b"Header", &[b"lifecycle"]),
        field(b"hdr2", b"Header", &[b"lifecycle"]),
    ];
    assert_eq!(
        classify(DeclKind::StructDecl, &raws, None).unwrap_err(),
        ShapeError::LifecycleFieldNotLast
    );
}

#[test]
fn unknown_dependency_names_the_missing_field() {
    let raws = vec![
        field(b"t", b"i64", &[b"depends-on(nowhere)"]),
        field(b"a", b"i64", &[]),
        field(b"hdr", b"Header", &[b"lifecycle"]),
    ];
    let shape = classify(DeclKind::StructDecl, &raws, None).unwrap();
    assert_eq!(
        resolve(&shape).unwrap_err(),
        ShapeError::UnknownDependency(b"nowhere".to_vec())
    );
}

#[test]
fn dependency_on_earlier_field_is_rejected() {
    // `t` is declared after `a`: the positional rule only admits
    // dependencies on fields declared strictly after the tail.
    let raws = vec![
        field(b"a", b"i64", &[]),
        field(b"t", b"i64", &[b"depends-on(a)"]),
        field(b"hdr", b"Header", &[b"lifecycle"]),
    ];
    let shape = classify(DeclKind::StructDecl, &raws, None).unwrap();
    assert_eq!(
        resolve(&shape).unwrap_err(),
        ShapeError::UnknownDependency(b"a".to_vec())
    );
}

#[test]
fn dependency_on_lifecycle_field_is_rejected() {
    let raws = vec![
        field(b"t", b"i64", &[b"depends-on(hdr)"]),
        field(b"hdr", b"Header", &[b"lifecycle"]),
    ];
    let shape = classify(DeclKind::StructDecl, &raws, None).unwrap();
    assert_eq!(
        resolve(&shape).unwrap_err(),
        ShapeError::UnknownDependency(b"hdr".to_vec())
    );
}

#[test]
fn unrecognized_markers_are_ignored() {
    let raws = vec![
        field(b"a", b"i64", &[b"doc(hidden)", b"serde(skip)"]),
        field(b"hdr", b"Header", &[b"lifecycle"]),
    ];
    let shape = classify(DeclKind::StructDecl, &raws, None).unwrap();
    assert_eq!(shape.fields[0].role, Role::Head);
}

#[test]
fn depends_on_spacing_is_immaterial() {
    let tight = vec![
        field(b"t", b"i64", &[b"depends-on(a,b)"]),
        field(b"a", b"i64", &[]),
        field(b"b", b"i64", &[]),
        field(b"hdr", b"Header", &[b"lifecycle"]),
    ];
    let padded = vec![
        field(b"t", b"i64", &[b"depends-on( a , b )"]),
        field(b"a", b"i64", &[]),
        field(b"b", b"i64", &[]),
        field(b"hdr", b"Header", &[b"lifecycle"]),
    ];
    let s1 = classify(DeclKind::StructDecl, &tight, None).unwrap();
    let s2 = classify(DeclKind::StructDecl, &padded, None).unwrap();
    assert_eq!(s1.fields[0].deps, s2.fields[0].deps);
    assert_eq!(s1.fields[0].deps, vec![b"a".to_vec(), b"b".to_vec()]);
}

#[test]
fn malformed_depends_on_is_not_recognized() {
    // An empty or gap-ridden name list makes the marker unrecognized, so
    // the field counts as a head.
    for marker in [&b"depends-on()"[..], b"depends-on(a,,b)", b"depends-on(a"] {
        let raws = vec![
            field(b"f", b"i64", &[marker]),
            field(b"a", b"i64", &[]),
            field(b"hdr", b"Header", &[b"lifecycle"]),
        ];
        let shape = classify(DeclKind::StructDecl, &raws, None).unwrap();
        assert_eq!(shape.fields[0].role, Role::Head);
    }
}

#[test]
fn protocol_of_infallible_shape() {
    let (shape, plan, contracts) =
        derive_shape(DeclKind::StructDecl, &chain_fields(), None).unwrap();
    assert_eq!(shape.fields.len(), 5);
    assert_eq!(contracts.len(), plan.tails.len());
    // Processing order: b first, then c.
    assert_eq!(contracts[0].tail, 1);
    assert_eq!(contracts[0].fn_name, b"init_field_b".to_vec());
    assert_eq!(
        contracts[0].param_names,
        vec![b"head2".to_vec(), b"head1".to_vec()]
    );
    assert_eq!(
        contracts[0].param_tys,
        vec![b"i64".to_vec(), b"RefCell<i32>".to_vec()]
    );
    assert_eq!(contracts[0].ret_ty, b"Ref<'a, i32>".to_vec());
    assert_eq!(contracts[1].tail, 0);
    assert_eq!(contracts[1].fn_name, b"init_field_c".to_vec());
    assert_eq!(contracts[1].param_names, vec![b"b".to_vec()]);
    assert_eq!(contracts[1].param_tys, vec![b"Ref<'a, i32>".to_vec()]);
    assert_eq!(contracts[1].ret_ty, b"&'a i32".to_vec());
}

#[test]
fn protocol_of_fallible_shape_wraps_return_types() {
    let (_, _, contracts) = derive_shape(
        DeclKind::StructDecl,
        &chain_fields(),
        Some(b"AnError".to_vec()),
    )
    .unwrap();
    assert_eq!(contracts[0].ret_ty, b"Result<Ref<'a, i32>, AnError>".to_vec());
    assert_eq!(contracts[1].ret_ty, b"Result<&'a i32, AnError>".to_vec());
}

#[test]
fn duplicate_names_match_every_later_occurrence() {
    // Two fields share a name: a dependency on that name matches every
    // occurrence declared after the tail, in reverse declaration order.
    let raws = vec![
        field(b"t", b"i64", &[b"depends-on(a)"]),
        field(b"a", b"i64", &[]),
        field(b"a", b"i64", &[]),
        field(b"hdr", b"Header", &[b"lifecycle"]),
    ];
    let shape = classify(DeclKind::StructDecl, &raws, None).unwrap();
    let plan = resolve(&shape).unwrap();
    assert_eq!(plan.tails, vec![0]);
    assert_eq!(plan.deps, vec![vec![2, 1]]);
}

#[test]
fn head_positions_are_decidable() {
    let plan = resolve(&chain_shape()).unwrap();
    assert!(!incrstruct::is_head_position(&plan, 0));
    assert!(!incrstruct::is_head_position(&plan, 1));
    assert!(incrstruct::is_head_position(&plan, 2));
    assert!(incrstruct::is_head_position(&plan, 3));
}

#[test]
fn field_position_finds_fields_by_name() {
    let shape = chain_shape();
    assert_eq!(incrstruct::field_position(&shape, &b"c".to_vec()), Some(0));
    assert_eq!(incrstruct::field_position(&shape, &b"head2".to_vec()), Some(3));
    assert_eq!(incrstruct::field_position(&shape, &b"hdr".to_vec()), Some(4));
    assert_eq!(incrstruct::field_position(&shape, &b"nowhere".to_vec()), None);
}

#[test]
fn derive_shape_reports_classification_before_resolution() {
    // A non-struct declaration with an unresolved dependency still fails
    // with the classification error.
    let raws = vec![
        field(b"t", b"i64", &[b"depends-on(nowhere)"]),
        field(b"hdr", b"Header", &[b"lifecycle"]),
    ];
    assert_eq!(
        derive_shape(DeclKind::EnumDecl, &raws, None).unwrap_err(),
        ShapeError::NotAStructShape
    );
    assert_eq!(
        derive_shape(DeclKind::StructDecl, &raws, None).unwrap_err(),
        ShapeError::UnknownDependency(b"nowhere".to_vec())
    );
}
