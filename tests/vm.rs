use t10::error::{TError, UserException};
use t10::ffi::{finish_call, prepare_call, HostValue};
use t10::heap::{Heap, Payload, Wrapper};
use t10::program::{CompiledFuncInfo, CompiledProgram, HostFunctionInfo, Insc};
use t10::tyck::{FFIAction, HostType, TypeCheckInfo};
use t10::value::{GcInfo, Value, ValueType, TYPE_INT, TYPE_STRING};
use t10::vm::{call_prechecked, HostFunctions, RD93};

/// Host routines: 0 adds two integers, 1 consumes a string and returns its length,
/// 2 reads an integer through a reference, 3 copies `y` into `x` for two `S` objects.
struct Host;

impl HostFunctions for Host {
    fn call_host(
        &mut self,
        func_id: usize,
        args: Vec<HostValue>,
        heap: &mut Heap,
    ) -> Result<HostValue, UserException> {
        match (func_id, args.as_slice()) {
            (0, [HostValue::Int(a), HostValue::Int(b)]) => Ok(HostValue::Int(a + b)),
            (1, [HostValue::Object(Payload::Text(s))]) => Ok(HostValue::Int(s.len() as i64)),
            (2, [HostValue::Shared(i)]) => match heap.wrappers[*i].payload {
                Payload::Int(v) => Ok(HostValue::Int(v)),
                _ => Err(UserException { type_id: 999, message: "not an integer".to_string() }),
            },
            (3, [HostValue::MutShared(x), HostValue::Shared(y)]) => {
                let v = match heap.wrappers[*y].payload {
                    Payload::Int(v) => v,
                    _ => 0,
                };
                heap.wrappers[*x].payload = Payload::Int(v);
                Ok(HostValue::Int(v))
            },
            (4, [HostValue::Absent]) => Ok(HostValue::Absent),
            (5, [HostValue::Shared(x), HostValue::Shared(y)]) => Ok(HostValue::Int((*x + *y) as i64)),
            (6, []) => Ok(HostValue::Object(Payload::Text("made".to_string()))),
            _ => Err(UserException { type_id: 999, message: "bad call".to_string() }),
        }
    }
}

const TYPE_S: u64 = 100;

fn run(program: &CompiledProgram, args: &[Value], ret_count: usize) -> Result<Vec<Value>, TError> {
    let mut heap = Heap::new();
    let mut outputs = vec![Value::Null; ret_count];
    RD93::run_func(program, &mut Host, &mut heap, 0, &args.to_vec(), &mut outputs)?;
    Ok(outputs)
}

#[test]
fn test_add_func() {
    let program = CompiledProgram::new(
        vec![
            Insc::IntAdd { lhs_value: 0, rhs_value: 1, dest_value: 0 },
            Insc::ReturnOne { ret_value: 0 },
        ],
        vec![CompiledFuncInfo::new(0, 2, 1, 2)],
        vec![],
    );
    let out = run(&program, &[Value::from_int(13), Value::from_int(42)], 1).unwrap();
    assert_eq!(out[0].value_type(), Some(ValueType::Int));
    assert_eq!(out[0].as_int(), Some(55));
}

#[test]
fn test_func_call() {
    let program = CompiledProgram::new(
        vec![
            /*00*/ Insc::MakeIntConst { c: 1, dest_value: 2 },
            /*01*/ Insc::MakeIntConst { c: 2, dest_value: 3 },
            /*02*/ Insc::IntAdd { lhs_value: 0, rhs_value: 2, dest_value: 0 },
            /*03*/ Insc::IntAdd { lhs_value: 1, rhs_value: 3, dest_value: 1 },
            /*04*/ Insc::FuncCall { func_id: 1, arg_values: vec![0, 1], ret_value_locs: vec![0] },
            /*05*/ Insc::ReturnOne { ret_value: 0 },
            /*06*/ Insc::IntAdd { lhs_value: 0, rhs_value: 1, dest_value: 0 },
            /*07*/ Insc::ReturnOne { ret_value: 0 },
        ],
        vec![CompiledFuncInfo::new(0, 2, 1, 4), CompiledFuncInfo::new(6, 2, 1, 2)],
        vec![],
    );
    let out = run(&program, &[Value::from_int(13), Value::from_int(42)], 1).unwrap();
    assert_eq!(out[0].value_type(), Some(ValueType::Int));
    assert_eq!(out[0].as_int(), Some(58));
}

fn fibonacci_program() -> CompiledProgram {
    CompiledProgram::new(
        vec![
            /*00*/ Insc::MakeIntConst { c: 0, dest_value: 1 },
            /*01*/ Insc::IntEq { lhs_value: 0, rhs_value: 1, dest_value: 2 },
            /*02*/ Insc::JumpIfTrue { cond_value: 2, jump_dest: 13 },
            /*03*/ Insc::MakeIntConst { c: 1, dest_value: 1 },
            /*04*/ Insc::IntEq { lhs_value: 0, rhs_value: 1, dest_value: 2 },
            /*05*/ Insc::JumpIfTrue { cond_value: 2, jump_dest: 13 },
            /*06*/ Insc::IntSub { lhs_value: 0, rhs_value: 1, dest_value: 2 },
            /*07*/ Insc::MakeIntConst { c: 2, dest_value: 1 },
            /*08*/ Insc::IntSub { lhs_value: 0, rhs_value: 1, dest_value: 3 },
            /*09*/ Insc::FuncCall { func_id: 0, arg_values: vec![2], ret_value_locs: vec![2] },
            /*10*/ Insc::FuncCall { func_id: 0, arg_values: vec![3], ret_value_locs: vec![3] },
            /*11*/ Insc::IntAdd { lhs_value: 2, rhs_value: 3, dest_value: 2 },
            /*12*/ Insc::ReturnOne { ret_value: 2 },
            /*13*/ Insc::ReturnOne { ret_value: 0 },
        ],
        vec![CompiledFuncInfo::new(0, 1, 1, 4)],
        vec![],
    )
}

#[test]
fn test_fibonacci() {
    let out = run(&fibonacci_program(), &[Value::from_int(10)], 1).unwrap();
    assert_eq!(out[0].value_type(), Some(ValueType::Int));
    assert_eq!(out[0].as_int(), Some(55));
}

#[test]
fn loop_sum_terminates_without_return_value() {
    let n = 10000;
    let program = CompiledProgram::new(
        vec![
            /*00*/ Insc::MakeIntConst { c: n, dest_value: 0 },
            /*01*/ Insc::MakeIntConst { c: 1, dest_value: 1 },
            /*02*/ Insc::IntGt { lhs_value: 1, rhs_value: 0, dest_value: 3 },
            /*03*/ Insc::JumpIfTrue { cond_value: 3, jump_dest: 12 },
            /*04*/ Insc::MakeIntConst { c: 1, dest_value: 2 },
            /*05*/ Insc::IntGt { lhs_value: 2, rhs_value: 0, dest_value: 3 },
            /*06*/ Insc::JumpIfTrue { cond_value: 3, jump_dest: 10 },
            /*07*/ Insc::IntAdd { lhs_value: 1, rhs_value: 2, dest_value: 3 },
            /*08*/ Insc::Incr { value: 2 },
            /*09*/ Insc::Jump { jump_dest: 5 },
            /*10*/ Insc::Incr { value: 1 },
            /*11*/ Insc::Jump { jump_dest: 2 },
            /*12*/ Insc::ReturnNothing,
        ],
        vec![CompiledFuncInfo::new(0, 0, 0, 4)],
        vec![],
    );
    let out = run(&program, &[], 0).unwrap();
    assert!(out.is_empty());
}

#[test]
fn return_nothing_at_root_leaves_outputs() {
    let program = CompiledProgram::new(
        vec![Insc::ReturnNothing],
        vec![CompiledFuncInfo::new(0, 0, 1, 1)],
        vec![],
    );
    let mut heap = Heap::new();
    let mut outputs = vec![Value::from_int(7)];
    RD93::run_func(&program, &mut Host, &mut heap, 0, &vec![], &mut outputs).unwrap();
    assert_eq!(outputs, vec![Value::from_int(7)]);
}

#[test]
fn int_add_wraps() {
    let program = CompiledProgram::new(
        vec![
            Insc::MakeIntConst { c: i64::MAX, dest_value: 0 },
            Insc::MakeIntConst { c: 1, dest_value: 1 },
            Insc::IntAdd { lhs_value: 0, rhs_value: 1, dest_value: 0 },
            Insc::ReturnOne { ret_value: 0 },
        ],
        vec![CompiledFuncInfo::new(0, 0, 1, 2)],
        vec![],
    );
    assert_eq!(run(&program, &[], 1).unwrap()[0], Value::from_int(i64::MIN));
}

#[test]
fn int_eq_and_gt_on_equal_operands() {
    let program = CompiledProgram::new(
        vec![
            Insc::IntEq { lhs_value: 0, rhs_value: 1, dest_value: 2 },
            Insc::IntGt { lhs_value: 0, rhs_value: 1, dest_value: 3 },
            Insc::IntSub { lhs_value: 0, rhs_value: 1, dest_value: 4 },
            Insc::ReturnMultiple { ret_values: vec![2, 3, 4] },
        ],
        vec![CompiledFuncInfo::new(0, 2, 3, 5)],
        vec![],
    );
    let out = run(&program, &[Value::from_int(5), Value::from_int(5)], 3).unwrap();
    assert_eq!(out, vec![Value::from_bool(true), Value::from_bool(false), Value::from_int(0)]);
}

#[test]
fn jump_if_true_selects_branch() {
    let make = || {
        CompiledProgram::new(
            vec![
                Insc::MakeIntConst { c: 0, dest_value: 1 },
                Insc::JumpIfTrue { cond_value: 0, jump_dest: 3 },
                Insc::MakeIntConst { c: 1, dest_value: 1 },
                Insc::ReturnOne { ret_value: 1 },
            ],
            vec![CompiledFuncInfo::new(0, 1, 1, 2)],
            vec![],
        )
    };
    assert_eq!(run(&make(), &[Value::from_bool(true)], 1).unwrap()[0], Value::from_int(0));
    assert_eq!(run(&make(), &[Value::from_bool(false)], 1).unwrap()[0], Value::from_int(1));
}

#[test]
fn unreachable_instruction_is_fatal() {
    let program = CompiledProgram::new(
        vec![Insc::UnreachableInsc],
        vec![CompiledFuncInfo::new(0, 0, 0, 0)],
        vec![],
    );
    assert!(matches!(run(&program, &[], 0), Err(TError::UncheckedException(_))));
}

fn add_descriptor() -> HostFunctionInfo {
    HostFunctionInfo::new(
        &vec![HostType::plain(TYPE_INT, true), HostType::plain(TYPE_INT, true)],
        HostType::plain(TYPE_INT, true),
        None,
    )
}

#[test]
fn ffi_add() {
    let info = add_descriptor();
    assert_eq!(info.params[0].action, FFIAction::Copy);
    assert_eq!(info.params[1].action, FFIAction::Copy);
    let program = CompiledProgram::new(
        vec![
            Insc::FFICall { func_id: 0, arg_values: vec![0, 1], ret_value_locs: vec![0] },
            Insc::ReturnOne { ret_value: 0 },
        ],
        vec![CompiledFuncInfo::new(0, 2, 1, 2)],
        vec![info],
    );
    let out = run(&program, &[Value::from_int(7), Value::from_int(35)], 1).unwrap();
    assert_eq!(out[0], Value::from_int(42));
}

#[test]
fn test_simple_call2() {
    let mut heap = Heap::new();
    let args = vec![Value::from_int(14), Value::from_int(40)];
    let r = call_prechecked(&mut Host, &mut heap, 0, &add_descriptor(), &args).unwrap();
    assert_eq!(r, Value::from_int(54));
}

#[test]
fn test_simple_call() {
    let mut heap = Heap::new();
    let s1 = heap.allocate(Wrapper::owned(Payload::Int(0), TypeCheckInfo::SimpleType(TYPE_S)));
    let s2 = heap.allocate(Wrapper::owned(Payload::Int(4), TypeCheckInfo::SimpleType(TYPE_S)));
    let info = HostFunctionInfo::new(
        &vec![HostType::mut_reference(TYPE_S), HostType::reference(TYPE_S)],
        HostType::plain(TYPE_INT, true),
        None,
    );
    let r = call_prechecked(&mut Host, &mut heap, 3, &info, &vec![s1, s2]).unwrap();
    assert_eq!(r, Value::from_int(4));
    assert!(matches!(heap.wrappers[0].payload, Payload::Int(4)));
    // The borrows end with the call.
    assert_eq!(heap.gc_info(s1), GcInfo::Owned);
    assert_eq!(heap.gc_info(s2), GcInfo::Owned);
}

#[test]
fn move_once_then_move_twice_fails() {
    let mut heap = Heap::new();
    let s = heap.allocate(Wrapper::owned(
        Payload::Text("hello".to_string()),
        TypeCheckInfo::SimpleType(TYPE_STRING),
    ));
    let info = HostFunctionInfo::new(
        &vec![HostType::plain(TYPE_STRING, false)],
        HostType::plain(TYPE_INT, true),
        None,
    );
    assert_eq!(info.params[0].action, FFIAction::Move);
    let r = call_prechecked(&mut Host, &mut heap, 1, &info, &vec![s]).unwrap();
    assert_eq!(r, Value::from_int(5));
    assert_eq!(heap.gc_info(s), GcInfo::MovedToHost);
    match call_prechecked(&mut Host, &mut heap, 1, &info, &vec![s]) {
        Err(TError::LifetimeError(e)) => {
            assert_eq!(e.action, FFIAction::Move);
            assert_eq!(e.actual, GcInfo::MovedToHost);
            assert_eq!(e.required, vec![GcInfo::Owned]);
        },
        other => panic!("expected a lifetime error, got {:?}", other),
    }
}

#[test]
fn null_into_non_nullable_reference() {
    let mut heap = Heap::new();
    let s = heap.allocate(Wrapper::owned(Payload::Int(3), TypeCheckInfo::SimpleType(TYPE_INT)));
    let info = HostFunctionInfo::new(
        &vec![HostType::reference(TYPE_INT), HostType::reference(TYPE_INT)],
        HostType::plain(TYPE_INT, true),
        None,
    );
    // The first parameter is guarded before the second is refused; the guard rolls back.
    let r = call_prechecked(&mut Host, &mut heap, 2, &info, &vec![s, Value::null()]);
    assert!(matches!(r, Err(TError::NullError(_))));
    assert_eq!(heap.gc_info(s), GcInfo::Owned);
}

#[test]
fn null_into_id_of_reference() {
    let mut heap = Heap::new();
    let info = HostFunctionInfo::new(
        &vec![HostType::reference(TYPE_INT)],
        HostType::plain(TYPE_INT, true),
        None,
    );
    assert!(!info.params[0].nullable);
    let r = call_prechecked(&mut Host, &mut heap, 2, &info, &vec![Value::null()]);
    assert!(matches!(r, Err(TError::NullError(_))));
}

#[test]
fn null_into_optional_is_absent() {
    let mut heap = Heap::new();
    let info = HostFunctionInfo::new(
        &vec![HostType::reference(TYPE_INT).optional()],
        HostType::AnyValue,
        None,
    );
    assert!(info.params[0].nullable);
    let r = call_prechecked(&mut Host, &mut heap, 4, &info, &vec![Value::null()]);
    assert_eq!(r.unwrap(), Value::null());
}

#[test]
fn share_through_reference() {
    let mut heap = Heap::new();
    let s = heap.allocate(Wrapper::owned(Payload::Int(3), TypeCheckInfo::SimpleType(TYPE_INT)));
    let info = HostFunctionInfo::new(
        &vec![HostType::reference(TYPE_INT)],
        HostType::plain(TYPE_INT, true),
        None,
    );
    let r = call_prechecked(&mut Host, &mut heap, 2, &info, &vec![s]).unwrap();
    assert_eq!(r, Value::from_int(3));
    assert_eq!(heap.gc_info(s), GcInfo::Owned);
}

#[test]
fn wrong_type_is_a_type_error() {
    let mut heap = Heap::new();
    let s = heap.allocate(Wrapper::owned(
        Payload::Text("x".to_string()),
        TypeCheckInfo::SimpleType(TYPE_STRING),
    ));
    let info = HostFunctionInfo::new(
        &vec![HostType::reference(TYPE_INT)],
        HostType::plain(TYPE_INT, true),
        None,
    );
    match call_prechecked(&mut Host, &mut heap, 2, &info, &vec![s]) {
        Err(TError::TypeError(e)) => {
            assert_eq!(e.required, TYPE_INT);
            assert_eq!(e.actual, TYPE_STRING);
        },
        other => panic!("expected a type error, got {:?}", other),
    }
}

#[test]
fn host_error_is_user_exception() {
    let mut heap = Heap::new();
    let info = HostFunctionInfo::new(
        &vec![HostType::plain(TYPE_INT, true)],
        HostType::plain(TYPE_INT, true),
        Some(999),
    );
    let r = call_prechecked(&mut Host, &mut heap, 7, &info, &vec![Value::from_int(1)]);
    match r {
        Err(TError::UserException(e)) => assert_eq!(e.message, "bad call"),
        other => panic!("expected a user exception, got {:?}", other),
    }
}

#[test]
fn same_wrapper_shared_twice_is_owned_again() {
    let mut heap = Heap::new();
    let s = heap.allocate(Wrapper::owned(Payload::Int(3), TypeCheckInfo::SimpleType(TYPE_INT)));
    let info = HostFunctionInfo::new(
        &vec![HostType::reference(TYPE_INT), HostType::reference(TYPE_INT)],
        HostType::plain(TYPE_INT, true),
        None,
    );
    let r = call_prechecked(&mut Host, &mut heap, 5, &info, &vec![s, s]).unwrap();
    assert_eq!(r, Value::from_int(0));
    assert_eq!(heap.gc_info(s), GcInfo::Owned);
}

#[test]
fn returned_object_keeps_its_container_plan() {
    let mut heap = Heap::new();
    let ret = t10::tyck::ReturnSpec {
        tyck_info: TypeCheckInfo::Container(300, vec![TypeCheckInfo::SimpleType(TYPE_INT)]),
        action: FFIAction::Move,
        exception: None,
    };
    let info = HostFunctionInfo { params: vec![], ret };
    let r = call_prechecked(&mut Host, &mut heap, 6, &info, &vec![]).unwrap();
    assert_eq!(r, Value::from_ptr(0));
    assert_eq!(heap.gc_info(r), GcInfo::Owned);
    let generic = TypeCheckInfo::Container(300, vec![]);
    assert!(heap.value_tyck(r, &generic));
    assert!(matches!(heap.get(0).payload, Payload::Text(ref t) if t == "made"));
}

#[test]
fn prepare_then_finish_moves_the_string() {
    let mut heap = Heap::new();
    let s = heap.allocate(Wrapper::owned(
        Payload::Text("hello".to_string()),
        TypeCheckInfo::SimpleType(TYPE_STRING),
    ));
    let info = HostFunctionInfo::new(
        &vec![HostType::plain(TYPE_STRING, false), HostType::plain(TYPE_INT, true)],
        HostType::plain(TYPE_INT, true),
        None,
    );
    let (guards, host_args) = prepare_call(&mut heap, &info, &vec![s, Value::from_int(2)]).unwrap();
    assert!(matches!(&host_args[0], HostValue::Object(Payload::Text(t)) if t == "hello"));
    assert!(matches!(host_args[1], HostValue::Int(2)));
    assert_eq!(heap.gc_info(s), GcInfo::MovedToHost);
    let r = finish_call(&mut heap, &guards, Ok(HostValue::Int(5)), &info.ret).unwrap();
    assert_eq!(r, Value::from_int(5));
    assert_eq!(heap.gc_info(s), GcInfo::MovedToHost);
}

#[test]
fn host_error_surfaces_from_run_func() {
    let info = HostFunctionInfo::new(
        &vec![HostType::plain(TYPE_INT, true)],
        HostType::plain(TYPE_INT, true),
        Some(999),
    );
    let program = CompiledProgram::new(
        vec![
            Insc::FFICall { func_id: 0, arg_values: vec![0], ret_value_locs: vec![0] },
            Insc::ReturnOne { ret_value: 0 },
        ],
        vec![CompiledFuncInfo::new(0, 1, 1, 1)],
        vec![info],
    );
    let mut heap = Heap::new();
    let mut outputs = vec![Value::from_int(-1)];
    let r = RD93::run_func(&program, &mut Host, &mut heap, 0, &vec![Value::from_int(1)], &mut outputs);
    assert!(matches!(r, Err(TError::UserException(_))));
    assert_eq!(outputs, vec![Value::from_int(-1)]);
}
