//! The program model: instructions, the function table and the host-function table.

use vstd::prelude::*;

use crate::tyck::{HostType, ParamSpec, ReturnSpec};
use crate::value::TypeId;

verus! {

/// One instruction. Slot operands index the current frame; jump targets and entry points
/// index the instruction buffer.
#[derive(Debug)]
pub enum Insc {
    MakeIntConst { c: i64, dest_value: u32 },
    IntAdd { lhs_value: u32, rhs_value: u32, dest_value: u32 },
    IntSub { lhs_value: u32, rhs_value: u32, dest_value: u32 },
    IntEq { lhs_value: u32, rhs_value: u32, dest_value: u32 },
    IntGt { lhs_value: u32, rhs_value: u32, dest_value: u32 },
    Incr { value: u32 },
    JumpIfTrue { cond_value: u32, jump_dest: u32 },
    Jump { jump_dest: u32 },
    FuncCall { func_id: u32, arg_values: Vec<u32>, ret_value_locs: Vec<u32> },
    FFICall { func_id: u32, arg_values: Vec<u32>, ret_value_locs: Vec<u32> },
    ReturnOne { ret_value: u32 },
    ReturnMultiple { ret_values: Vec<u32> },
    ReturnNothing,
    UnreachableInsc,
}

/// A function table entry.
#[derive(Clone, Copy, PartialEq, Eq, Structural, Debug)]
pub struct CompiledFuncInfo {
    pub start_addr: u32,
    pub arg_count: u32,
    pub ret_count: u32,
    pub stack_size: u32,
}

impl CompiledFuncInfo {
    pub fn new(start_addr: u32, arg_count: u32, ret_count: u32, stack_size: u32) -> (r:
        CompiledFuncInfo)
        ensures
            r == (CompiledFuncInfo { start_addr, arg_count, ret_count, stack_size }),
    {
        CompiledFuncInfo { start_addr, arg_count, ret_count, stack_size }
    }
}

/// A host-function descriptor: the computed plan of each parameter and of the return.
pub struct HostFunctionInfo {
    pub params: Vec<ParamSpec>,
    pub ret: ReturnSpec,
}

impl HostFunctionInfo {
    /// The descriptor of a host routine with these parameter types and return type;
    /// `exception` names the error kind of a fallible routine.
    pub fn new(params: &Vec<HostType>, ret: HostType, exception: Option<TypeId>) -> (r:
        HostFunctionInfo)
        ensures
            r.params@.len() == params@.len(),
            forall|i: int|
                0 <= i < params@.len() ==> {
                    &&& (#[trigger] r.params@[i]).tyck_info == params@[i].spec_tyck_info()
                    &&& r.params@[i].action == params@[i].spec_ffi_action()
                    &&& r.params@[i].nullable == params@[i].spec_nullable()
                },
            r.ret.tyck_info == ret.spec_tyck_info(),
            r.ret.action == ret.spec_ffi_action(),
            r.ret.exception == exception,
    {
        let mut specs: Vec<ParamSpec> = Vec::new();
        let mut i: usize = 0;
        while i < params.len()
            invariant
                0 <= i <= params@.len(),
                specs@.len() == i,
                forall|j: int|
                    0 <= j < i ==> {
                        &&& (#[trigger] specs@[j]).tyck_info == params@[j].spec_tyck_info()
                        &&& specs@[j].action == params@[j].spec_ffi_action()
                        &&& specs@[j].nullable == params@[j].spec_nullable()
                    },
            decreases params.len() - i,
        {
            specs.push(params[i].param_spec());
            i = i + 1;
        }
        HostFunctionInfo { params: specs, ret: ret.return_spec(exception) }
    }
}

/// A compiled program.
pub struct CompiledProgram {
    pub inscs: Vec<Insc>,
    pub funcs: Vec<CompiledFuncInfo>,
    pub ffi_funcs: Vec<HostFunctionInfo>,
}

impl CompiledProgram {
    pub fn new(inscs: Vec<Insc>, funcs: Vec<CompiledFuncInfo>, ffi_funcs: Vec<HostFunctionInfo>) -> (r:
        CompiledProgram)
        ensures
            r.inscs@ == inscs@,
            r.funcs@ == funcs@,
            r.ffi_funcs@ == ffi_funcs@,
    {
        CompiledProgram { inscs, funcs, ffi_funcs }
    }

    /// True when no instruction calls a host routine.
    pub open spec fn no_ffi(&self) -> bool {
        forall|i: int| 0 <= i < self.inscs@.len() ==> !(#[trigger] self.inscs@[i] is FFICall)
    }
}

} // verus!
