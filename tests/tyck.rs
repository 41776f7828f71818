use t10::tyck::{type_check, FFIAction, HostType, TypeCheckInfo};
use t10::value::{TypeId, TYPE_INT, TYPE_STRING};

const TYPE_S: TypeId = 100;
const TYPE_TEST_ERROR1: TypeId = 201;
const TYPE_TEST_ERROR2: TypeId = 202;
const TYPE_VEC: TypeId = 300;

fn check_return_plan(
    ty: HostType,
    exception: Option<TypeId>,
    expected_type: TypeId,
    expected_action: FFIAction,
    expected_nullable: bool,
) {
    let spec = ty.return_spec(exception);
    match spec.tyck_info {
        TypeCheckInfo::SimpleType(t) => assert_eq!(t, expected_type),
        _ => panic!("expected a simple plan"),
    }
    assert_eq!(spec.action, expected_action);
    assert_eq!(ty.nullable(), expected_nullable);
    assert_eq!(spec.exception, exception);
}

#[test]
fn test1() {
    let tyck_info = HostType::reference(TYPE_S).tyck_info();
    println!("{:?}", tyck_info);
    assert!(matches!(tyck_info, TypeCheckInfo::SimpleType(TYPE_S)));
}

#[test]
fn test_fusion_rv_simple() {
    check_return_plan(HostType::plain(TYPE_INT, true), None, TYPE_INT, FFIAction::Copy, false);
}

#[test]
fn test_fusion_rv_move() {
    check_return_plan(HostType::plain(TYPE_STRING, false), None, TYPE_STRING, FFIAction::Move, false);
}

#[test]
fn test_fusion_rv_ref() {
    check_return_plan(HostType::reference(TYPE_INT), None, TYPE_INT, FFIAction::Share, false);
    check_return_plan(HostType::mut_reference(TYPE_INT), None, TYPE_INT, FFIAction::MutShare, false);
    check_return_plan(HostType::reference(TYPE_STRING), None, TYPE_STRING, FFIAction::Share, false);
    check_return_plan(
        HostType::mut_reference(TYPE_STRING),
        None,
        TYPE_STRING,
        FFIAction::MutShare,
        false,
    );
}

#[test]
fn test_fusion_rv_nullable() {
    // Option<i64>, Option<String>, Option<&i64>, Option<&mut i64>, Option<&String>, Option<&mut String>
    check_return_plan(HostType::plain(TYPE_INT, true).optional(), None, TYPE_INT, FFIAction::Copy, true);
    check_return_plan(
        HostType::plain(TYPE_STRING, false).optional(),
        None,
        TYPE_STRING,
        FFIAction::Move,
        true,
    );
    check_return_plan(HostType::reference(TYPE_INT).optional(), None, TYPE_INT, FFIAction::Share, true);
    check_return_plan(
        HostType::mut_reference(TYPE_INT).optional(),
        None,
        TYPE_INT,
        FFIAction::MutShare,
        true,
    );
    check_return_plan(
        HostType::reference(TYPE_STRING).optional(),
        None,
        TYPE_STRING,
        FFIAction::Share,
        true,
    );
    check_return_plan(
        HostType::mut_reference(TYPE_STRING).optional(),
        None,
        TYPE_STRING,
        FFIAction::MutShare,
        true,
    );
}

#[test]
fn test_fusion_rv_nullable2() {
    // &Option<i64>, &mut Option<i64>, &Option<String>, &mut Option<String>
    check_return_plan(HostType::reference(TYPE_INT).optional(), None, TYPE_INT, FFIAction::Share, true);
    check_return_plan(
        HostType::mut_reference(TYPE_INT).optional(),
        None,
        TYPE_INT,
        FFIAction::MutShare,
        true,
    );
    check_return_plan(
        HostType::reference(TYPE_STRING).optional(),
        None,
        TYPE_STRING,
        FFIAction::Share,
        true,
    );
    check_return_plan(
        HostType::mut_reference(TYPE_STRING).optional(),
        None,
        TYPE_STRING,
        FFIAction::MutShare,
        true,
    );
}

#[test]
fn test_fusion_rv_result() {
    check_return_plan(
        HostType::plain(TYPE_INT, true),
        Some(TYPE_TEST_ERROR1),
        TYPE_INT,
        FFIAction::Copy,
        false,
    );
    check_return_plan(
        HostType::plain(TYPE_INT, true),
        Some(TYPE_TEST_ERROR2),
        TYPE_INT,
        FFIAction::Copy,
        false,
    );
}

#[test]
fn value_pass_through_is_bypass() {
    let ty = HostType::AnyValue;
    assert!(matches!(ty.tyck_info(), TypeCheckInfo::Bypass));
    assert_eq!(ty.ffi_action(), FFIAction::Bypass);
    assert!(ty.nullable());
}

#[test]
fn simple_plans_match_by_identifier() {
    assert!(type_check(&TypeCheckInfo::SimpleType(TYPE_INT), &TypeCheckInfo::SimpleType(TYPE_INT)));
    assert!(!type_check(&TypeCheckInfo::SimpleType(TYPE_INT), &TypeCheckInfo::SimpleType(TYPE_STRING)));
    assert!(type_check(&TypeCheckInfo::SimpleType(TYPE_INT), &TypeCheckInfo::Bypass));
}

#[test]
fn container_plans_match_generic_but_not_conversely() {
    let concrete = TypeCheckInfo::Container(TYPE_VEC, vec![TypeCheckInfo::SimpleType(TYPE_INT)]);
    let generic = TypeCheckInfo::Container(TYPE_VEC, vec![]);
    let other = TypeCheckInfo::Container(TYPE_VEC, vec![TypeCheckInfo::SimpleType(TYPE_STRING)]);
    assert!(type_check(&concrete, &concrete));
    assert!(type_check(&concrete, &generic));
    assert!(type_check(&generic, &generic));
    assert!(!type_check(&generic, &concrete));
    assert!(!type_check(&concrete, &other));
    assert!(!type_check(&concrete, &TypeCheckInfo::SimpleType(TYPE_VEC)));
}
