use t10::error::UserException;
use t10::ffi::HostValue;
use t10::heap::Heap;
use t10::builder::CompiledProgramBuilder;
use t10::packed::{AlignedBytes, OpCode, PackedProgram};
use t10::program::{CompiledFuncInfo, Insc};
use t10::value::Value;
use t10::vm::{HostFunctions, R15_300};

struct NoHost;

impl HostFunctions for NoHost {
    fn call_host(
        &mut self,
        _func_id: usize,
        _args: Vec<HostValue>,
        _heap: &mut Heap,
    ) -> Result<HostValue, UserException> {
        Err(UserException { type_id: 0, message: "no host routines".to_string() })
    }
}

fn relocate(insc: &Insc, offsets: &[u32]) -> Insc {
    match insc {
        Insc::JumpIfTrue { cond_value, jump_dest } => Insc::JumpIfTrue {
            cond_value: *cond_value,
            jump_dest: offsets[*jump_dest as usize],
        },
        Insc::Jump { jump_dest } => Insc::Jump { jump_dest: offsets[*jump_dest as usize] },
        Insc::MakeIntConst { c, dest_value } => Insc::MakeIntConst { c: *c, dest_value: *dest_value },
        Insc::IntAdd { lhs_value, rhs_value, dest_value } => Insc::IntAdd {
            lhs_value: *lhs_value,
            rhs_value: *rhs_value,
            dest_value: *dest_value,
        },
        Insc::IntSub { lhs_value, rhs_value, dest_value } => Insc::IntSub {
            lhs_value: *lhs_value,
            rhs_value: *rhs_value,
            dest_value: *dest_value,
        },
        Insc::IntEq { lhs_value, rhs_value, dest_value } => Insc::IntEq {
            lhs_value: *lhs_value,
            rhs_value: *rhs_value,
            dest_value: *dest_value,
        },
        Insc::IntGt { lhs_value, rhs_value, dest_value } => Insc::IntGt {
            lhs_value: *lhs_value,
            rhs_value: *rhs_value,
            dest_value: *dest_value,
        },
        Insc::Incr { value } => Insc::Incr { value: *value },
        Insc::FuncCall { func_id, arg_values, ret_value_locs } => Insc::FuncCall {
            func_id: *func_id,
            arg_values: arg_values.clone(),
            ret_value_locs: ret_value_locs.clone(),
        },
        Insc::FFICall { func_id, arg_values, ret_value_locs } => Insc::FFICall {
            func_id: *func_id,
            arg_values: arg_values.clone(),
            ret_value_locs: ret_value_locs.clone(),
        },
        Insc::ReturnOne { ret_value } => Insc::ReturnOne { ret_value: *ret_value },
        Insc::ReturnMultiple { ret_values } => Insc::ReturnMultiple { ret_values: ret_values.clone() },
        Insc::ReturnNothing => Insc::ReturnNothing,
        Insc::UnreachableInsc => Insc::UnreachableInsc,
    }
}

/// Packs a program whose jump targets are instruction indices; returns the bytes and the
/// byte offset of each instruction.
fn pack(inscs: &[Insc]) -> (AlignedBytes, Vec<u32>) {
    let mut offsets = Vec::new();
    let mut scratch = AlignedBytes::new();
    for insc in inscs {
        offsets.push(scratch.len() as u32);
        assert!(scratch.push_insc(insc));
    }
    let mut bytes = AlignedBytes::new();
    for insc in inscs {
        assert!(bytes.push_insc(&relocate(insc, &offsets)));
    }
    assert!(bytes.assert_aligned(8));
    (bytes, offsets)
}

#[test]
fn little_endian_words() {
    let mut b = AlignedBytes::with_capacity(16);
    b.push_u32(0x0403_0201);
    b.push_u64(0x0c0b_0a09_0807_0605);
    assert_eq!(b.len(), 12);
    assert_eq!(b.read_byte(0), 1);
    assert_eq!(b.read_byte(3), 4);
    assert_eq!(b.read_u32(0), 0x0403_0201);
    assert_eq!(b.read_u64(4), 0x0c0b_0a09_0807_0605);
    b.write_u32(4, 0xdead_beef);
    assert_eq!(b.read_u32(4), 0xdead_beef);
    assert_eq!(b.read_byte(4), 0xef);
    b.write_byte(0, 9);
    assert_eq!(b.read_byte(0), 9);
    b.push_zero_bytes(4);
    assert!(b.assert_aligned(8));
    assert!(!b.assert_aligned(32));
}

#[test]
fn opcodes_round_trip() {
    for code in 1u8..=14 {
        assert_eq!(OpCode::from_u8(code).unwrap().as_u8(), code);
    }
    assert_eq!(OpCode::from_u8(0), None);
    assert_eq!(OpCode::from_u8(15), None);
}

#[test]
fn instructions_decode_as_encoded() {
    let inscs = vec![
        Insc::MakeIntConst { c: -5, dest_value: 3 },
        Insc::IntAdd { lhs_value: 1, rhs_value: 2, dest_value: 0 },
        Insc::JumpIfTrue { cond_value: 2, jump_dest: 64 },
        Insc::FuncCall { func_id: 7, arg_values: vec![1, 2, 3], ret_value_locs: vec![4] },
        Insc::FFICall { func_id: 1, arg_values: vec![5], ret_value_locs: vec![6, 7] },
        Insc::ReturnMultiple { ret_values: vec![1, 2] },
        Insc::ReturnNothing,
    ];
    let mut bytes = AlignedBytes::new();
    for insc in &inscs {
        assert!(bytes.push_insc(insc));
        assert!(bytes.assert_aligned(8));
    }
    let mut pos = 0;
    let mut decoded = Vec::new();
    while pos < bytes.len() {
        let (insc, next) = bytes.read_insc(pos).unwrap();
        decoded.push(format!("{:?}", insc));
        pos = next;
    }
    let expected: Vec<String> = inscs.iter().map(|i| format!("{:?}", i)).collect();
    assert_eq!(decoded, expected);
}

#[test]
fn packed_add_func() {
    let (bytes, _) = pack(&[
        Insc::IntAdd { lhs_value: 0, rhs_value: 1, dest_value: 0 },
        Insc::ReturnOne { ret_value: 0 },
    ]);
    let program = PackedProgram::new(bytes, vec![CompiledFuncInfo::new(0, 2, 1, 2)], vec![]);
    let mut heap = Heap::new();
    let mut outputs = vec![Value::Null];
    let args = vec![Value::from_int(13), Value::from_int(42)];
    R15_300::run_func(&program, &mut NoHost, &mut heap, 0, &args, &mut outputs).unwrap();
    assert_eq!(outputs, vec![Value::from_int(55)]);
}

#[test]
fn packed_fibonacci() {
    let (bytes, offsets) = pack(&[
        /*00*/ Insc::MakeIntConst { c: 0, dest_value: 1 },
        /*01*/ Insc::IntEq { lhs_value: 0, rhs_value: 1, dest_value: 2 },
        /*02*/ Insc::JumpIfTrue { cond_value: 2, jump_dest: 13 },
        /*03*/ Insc::MakeIntConst { c: 1, dest_value: 1 },
        /*04*/ Insc::IntEq { lhs_value: 0, rhs_value: 1, dest_value: 2 },
        /*05*/ Insc::JumpIfTrue { cond_value: 2, jump_dest: 13 },
        /*06*/ Insc::IntSub { lhs_value: 0, rhs_value: 1, dest_value: 2 },
        /*07*/ Insc::MakeIntConst { c: 2, dest_value: 1 },
        /*08*/ Insc::IntSub { lhs_value: 0, rhs_value: 1, dest_value: 3 },
        /*09*/ Insc::FuncCall { func_id: 0, arg_values: vec![2], ret_value_locs: vec![2] },
        /*10*/ Insc::FuncCall { func_id: 0, arg_values: vec![3], ret_value_locs: vec![3] },
        /*11*/ Insc::IntAdd { lhs_value: 2, rhs_value: 3, dest_value: 2 },
        /*12*/ Insc::ReturnOne { ret_value: 2 },
        /*13*/ Insc::ReturnOne { ret_value: 0 },
    ]);
    assert_eq!(offsets[13], 200);
    let program = PackedProgram::new(bytes, vec![CompiledFuncInfo::new(0, 1, 1, 4)], vec![]);
    let mut heap = Heap::new();
    let mut outputs = vec![Value::Null];
    R15_300::run_func(&program, &mut NoHost, &mut heap, 0, &vec![Value::from_int(10)], &mut outputs)
        .unwrap();
    assert_eq!(outputs, vec![Value::from_int(55)]);
}

#[test]
fn packed_bad_address_is_an_error() {
    let mut bytes = AlignedBytes::new();
    assert!(bytes.push_insc(&Insc::Jump { jump_dest: 4 }));
    let program = PackedProgram::new(bytes, vec![CompiledFuncInfo::new(0, 0, 0, 0)], vec![]);
    let mut heap = Heap::new();
    let mut outputs = vec![];
    assert!(R15_300::run_func(&program, &mut NoHost, &mut heap, 0, &vec![], &mut outputs).is_err());
}

#[test]
fn builder_fibonacci() {
    let mut b = CompiledProgramBuilder::new(vec![]);
    let fib = b.create_fn("fibonacci".to_string(), 1, 1, 4).unwrap();
    b.make_int_const(0, 1);
    b.int_eq(2, 0, 1);
    assert!(b.jump_if_true_dangle(2, 1));
    b.make_int_const(1, 1);
    b.int_eq(2, 0, 1);
    assert!(b.jump_if_true_dangle(2, 1));
    b.int_sub(2, 0, 1);
    b.make_int_const(2, 1);
    b.int_sub(3, 0, 1);
    assert!(b.func_call_dangle("fibonacci".to_string(), vec![2], vec![2]));
    assert!(b.func_call_dangle("fibonacci".to_string(), vec![3], vec![3]));
    b.int_add(2, 2, 3);
    b.return_one(2);
    assert_eq!(b.create_label(1), Some(200));
    b.return_one(0);
    assert!(b.finish_function());
    let program = b.finish().unwrap();
    let mut heap = Heap::new();
    let mut outputs = vec![Value::Null];
    R15_300::run_func(
        &program,
        &mut NoHost,
        &mut heap,
        fib as usize,
        &vec![Value::from_int(10)],
        &mut outputs,
    )
    .unwrap();
    assert_eq!(outputs, vec![Value::from_int(55)]);
}

#[test]
fn builder_loop_with_jumps() {
    let mut b = CompiledProgramBuilder::new(vec![]);
    let f = b.create_fn("count".to_string(), 1, 1, 3).unwrap();
    b.make_int_const(0, 1);
    assert_eq!(b.create_label(10), Some(16));
    b.int_gt(2, 1, 0);
    assert!(b.jump_if_true_dangle(2, 20));
    b.incr(1);
    assert!(b.jump_dangle(10));
    b.create_label(20).unwrap();
    b.return_one(1);
    assert!(b.finish_function());
    let program = b.finish().unwrap();
    let mut heap = Heap::new();
    let mut outputs = vec![Value::Null];
    R15_300::run_func(&program, &mut NoHost, &mut heap, f as usize, &vec![Value::from_int(7)], &mut outputs)
        .unwrap();
    assert_eq!(outputs, vec![Value::from_int(8)]);
}

#[test]
fn builder_reports_unknown_targets() {
    let mut b = CompiledProgramBuilder::new(vec![]);
    b.create_fn("main".to_string(), 0, 0, 1).unwrap();
    assert!(b.jump_dangle(5));
    assert!(!b.finish_function());
    let mut b = CompiledProgramBuilder::new(vec![]);
    b.create_fn("main".to_string(), 0, 0, 1).unwrap();
    assert!(b.func_call_dangle("missing".to_string(), vec![], vec![]));
    b.return_nothing();
    assert!(b.finish_function());
    assert!(b.finish().is_none());
}
