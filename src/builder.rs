//! Assembles packed programs: instructions are appended function by function, jumps name
//! labels and calls name functions, and targets are patched in once known.

use vstd::prelude::*;

use crate::packed::{encodable, insc_bytes, u32_bytes, AlignedBytes, PackedProgram};
use crate::program::{CompiledFuncInfo, HostFunctionInfo, Insc};

verus! {

/// `b` with the four bytes at `pos` replaced by the little-endian bytes of `x`.
pub open spec fn patch(b: Seq<u8>, pos: int, x: u32) -> Seq<u8> {
    b.subrange(0, pos) + u32_bytes(x) + b.subrange(pos + 4, b.len() as int)
}

/// The address of the first label named `id`.
pub open spec fn label_addr(labels: Seq<(u32, u32)>, id: u32) -> Option<u32>
    decreases labels.len(),
{
    if labels.len() == 0 {
        None
    } else if labels[0].0 == id {
        Some(labels[0].1)
    } else {
        label_addr(labels.drop_first(), id)
    }
}

/// Every pending `(position, label)` names a defined label.
pub open spec fn all_resolved(labels: Seq<(u32, u32)>, pending: Seq<(u32, u32)>) -> bool {
    forall|k: int| 0 <= k < pending.len() ==> label_addr(labels, (#[trigger] pending[k]).1) is Some
}

/// `b` with the target field (at `field` past each pending position) set to the address
/// of its label, in order.
pub open spec fn patch_jumps(
    b: Seq<u8>,
    labels: Seq<(u32, u32)>,
    pending: Seq<(u32, u32)>,
    field: int,
) -> Seq<u8>
    decreases pending.len(),
{
    if pending.len() == 0 {
        b
    } else {
        patch(
            patch_jumps(b, labels, pending.drop_last(), field),
            pending.last().0 + field,
            label_addr(labels, pending.last().1)->Some_0,
        )
    }
}

/// The id of the first function whose name is `name`.
pub open spec fn func_index(names: Seq<String>, name: Seq<char>) -> Option<u32>
    decreases names.len(),
{
    if names.len() == 0 {
        None
    } else if names.last()@ == name {
        match func_index(names.drop_last(), name) {
            Some(i) => Some(i),
            None => Some((names.len() - 1) as u32),
        }
    } else {
        func_index(names.drop_last(), name)
    }
}

/// Every pending call names a defined function.
pub open spec fn calls_resolved(names: Seq<String>, calls: Seq<(u32, String)>) -> bool {
    forall|k: int| 0 <= k < calls.len() ==> func_index(names, (#[trigger] calls[k]).1@) is Some
}

/// `b` with the callee field of each pending call set to the id of its function, in order.
pub open spec fn patch_calls(b: Seq<u8>, names: Seq<String>, calls: Seq<(u32, String)>) -> Seq<u8>
    decreases calls.len(),
{
    if calls.len() == 0 {
        b
    } else {
        patch(
            patch_calls(b, names, calls.drop_last()),
            calls.last().0 + 4,
            func_index(names, calls.last().1@)->Some_0,
        )
    }
}

fn find_label(labels: &Vec<(u32, u32)>, id: u32) -> (r: Option<u32>)
    ensures
        r == label_addr(labels@, id),
{
    let mut i: usize = 0;
    assert(labels@.subrange(0, labels@.len() as int) =~= labels@);
    while i < labels.len()
        invariant
            0 <= i <= labels@.len(),
            label_addr(labels@, id) == label_addr(labels@.subrange(i as int, labels@.len() as int), id),
        decreases labels.len() - i,
    {
        assert(labels@.subrange(i as int, labels@.len() as int).drop_first() =~= labels@.subrange(
            i + 1,
            labels@.len() as int,
        ));
        if labels[i].0 == id {
            return Some(labels[i].1);
        }
        i = i + 1;
    }
    None
}

fn find_func(names: &Vec<String>, name: &String) -> (r: Option<u32>)
    requires
        names@.len() <= u32::MAX,
    ensures
        r == func_index(names@, name@),
{
    let mut i: usize = names.len();
    let mut found: Option<u32> = None;
    assert(names@.subrange(0, names@.len() as int) =~= names@);
    while i > 0
        invariant
            0 <= i <= names@.len(),
            names@.len() <= u32::MAX,
            func_index(names@, name@) == match func_index(names@.subrange(0, i as int), name@) {
                Some(j) => Some(j),
                None => found,
            },
        decreases i,
    {
        let ghost pre = names@.subrange(0, i as int);
        assert(pre.drop_last() =~= names@.subrange(0, i - 1));
        if names[i - 1] == *name {
            found = Some((i - 1) as u32);
        }
        i = i - 1;
    }
    found
}

pub struct CompiledProgramBuilder {
    pub program: PackedProgram,
    /// Function names, by function id.
    pub func_names: Vec<String>,
    /// Labels of the function being built: `(label, address)`.
    pub labels: Vec<(u32, u32)>,
    /// Conditional jumps whose target is not written yet: `(position, label)`.
    pub incomplete_conditional_jumps: Vec<(u32, u32)>,
    /// Jumps whose target is not written yet: `(position, label)`.
    pub incomplete_jumps: Vec<(u32, u32)>,
    /// Calls whose callee is not written yet: `(position, function name)`.
    pub incomplete_calls: Vec<(u32, String)>,
}

impl CompiledProgramBuilder {
    /// Pending patches lie inside the bytes written so far.
    pub open spec fn wf(&self) -> bool {
        let n = self.program.inscs@.len();
        &&& forall|k: int|
            0 <= k < self.incomplete_conditional_jumps@.len() ==> (#[trigger] self.incomplete_conditional_jumps@[k]).0
                + 16 <= n
        &&& forall|k: int|
            0 <= k < self.incomplete_jumps@.len() ==> (#[trigger] self.incomplete_jumps@[k]).0 + 8
                <= n
        &&& forall|k: int|
            0 <= k < self.incomplete_calls@.len() ==> (#[trigger] self.incomplete_calls@[k]).0 + 8
                <= n
    }

    pub fn new(ffi_funcs: Vec<HostFunctionInfo>) -> (r: CompiledProgramBuilder)
        ensures
            r.wf(),
            r.program.inscs@.len() == 0,
            r.program.funcs@.len() == 0,
            r.program.ffi_funcs@ == ffi_funcs@,
            r.func_names@.len() == 0,
            r.labels@.len() == 0,
            r.incomplete_conditional_jumps@.len() == 0,
            r.incomplete_jumps@.len() == 0,
            r.incomplete_calls@.len() == 0,
    {
        CompiledProgramBuilder {
            program: PackedProgram::new(AlignedBytes::new(), Vec::new(), ffi_funcs),
            func_names: Vec::new(),
            labels: Vec::new(),
            incomplete_conditional_jumps: Vec::new(),
            incomplete_jumps: Vec::new(),
            incomplete_calls: Vec::new(),
        }
    }

    /// Appends an instruction whose packed form exists.
    fn emit(&mut self, insc: &Insc)
        requires
            old(self).wf(),
            encodable(*insc),
        ensures
            final(self).wf(),
            final(self).program.inscs@ == old(self).program.inscs@ + insc_bytes(*insc),
            final(self).program.funcs@ == old(self).program.funcs@,
            final(self).program.ffi_funcs@ == old(self).program.ffi_funcs@,
            final(self).func_names@ == old(self).func_names@,
            final(self).labels@ == old(self).labels@,
            final(self).incomplete_conditional_jumps@ == old(self).incomplete_conditional_jumps@,
            final(self).incomplete_jumps@ == old(self).incomplete_jumps@,
            final(self).incomplete_calls@ == old(self).incomplete_calls@,
    {
        self.program.inscs.push_insc(insc);
    }

    /// Starts a function at the current end of the program; its id, or `None` when the
    /// address does not fit in 32 bits. Labels are per function, so the previous one must
    /// be finished.
    pub fn create_fn(&mut self, func_name: String, arg_count: u32, ret_count: u32, stack_size: u32) -> (r:
        Option<u32>)
        requires
            old(self).wf(),
            old(self).incomplete_conditional_jumps@.len() == 0,
            old(self).incomplete_jumps@.len() == 0,
            old(self).labels@.len() == 0,
        ensures
            final(self).wf(),
            r is Some <==> old(self).program.inscs@.len() <= u32::MAX && old(self).program.funcs@.len()
                < u32::MAX,
            r matches Some(id) ==> {
                &&& id == old(self).program.funcs@.len()
                &&& final(self).program.funcs@ == old(self).program.funcs@.push(
                    CompiledFuncInfo {
                        start_addr: old(self).program.inscs@.len() as u32,
                        arg_count,
                        ret_count,
                        stack_size,
                    },
                )
                &&& final(self).func_names@ == old(self).func_names@.push(func_name)
            },
            r is None ==> final(self).program.funcs@ == old(self).program.funcs@,
            final(self).program.inscs@ == old(self).program.inscs@,
            final(self).labels@ == old(self).labels@,
            final(self).incomplete_calls@ == old(self).incomplete_calls@,
    {
        let len = self.program.inscs.len();
        if len > u32::MAX as usize || self.program.funcs.len() >= u32::MAX as usize {
            return None;
        }
        let id = self.program.funcs.len() as u32;
        self.program.funcs.push(CompiledFuncInfo::new(len as u32, arg_count, ret_count, stack_size));
        self.func_names.push(func_name);
        Some(id)
    }

    /// Defines `label_id` at the current end of the program; its address, or `None` when
    /// that does not fit in 32 bits.
    pub fn create_label(&mut self, label_id: u32) -> (r: Option<u32>)
        requires
            old(self).wf(),
        ensures
            final(self).wf(),
            r is Some <==> old(self).program.inscs@.len() <= u32::MAX,
            r matches Some(addr) ==> addr == old(self).program.inscs@.len() && final(self).labels@
                == old(self).labels@.push((label_id, addr)),
            r is None ==> final(self).labels@ == old(self).labels@,
            final(self).program.inscs@ == old(self).program.inscs@,
            final(self).program.funcs@ == old(self).program.funcs@,
            final(self).incomplete_conditional_jumps@ == old(self).incomplete_conditional_jumps@,
            final(self).incomplete_jumps@ == old(self).incomplete_jumps@,
            final(self).incomplete_calls@ == old(self).incomplete_calls@,
    {
        let len = self.program.inscs.len();
        if len > u32::MAX as usize {
            return None;
        }
        self.labels.push((label_id, len as u32));
        Some(len as u32)
    }

    pub fn make_int_const(&mut self, c: i64, dest: u32)
        requires
            old(self).wf(),
        ensures
            final(self).wf(),
            final(self).program.inscs@ == old(self).program.inscs@ + insc_bytes(
                Insc::MakeIntConst { c, dest_value: dest },
            ),
    {
        self.emit(&Insc::MakeIntConst { c, dest_value: dest });
    }

    pub fn int_add(&mut self, dest: u32, src1: u32, src2: u32)
        requires
            old(self).wf(),
        ensures
            final(self).wf(),
            final(self).program.inscs@ == old(self).program.inscs@ + insc_bytes(
                Insc::IntAdd { lhs_value: src1, rhs_value: src2, dest_value: dest },
            ),
    {
        self.emit(&Insc::IntAdd { lhs_value: src1, rhs_value: src2, dest_value: dest });
    }

    pub fn int_sub(&mut self, dest: u32, src1: u32, src2: u32)
        requires
            old(self).wf(),
        ensures
            final(self).wf(),
            final(self).program.inscs@ == old(self).program.inscs@ + insc_bytes(
                Insc::IntSub { lhs_value: src1, rhs_value: src2, dest_value: dest },
            ),
    {
        self.emit(&Insc::IntSub { lhs_value: src1, rhs_value: src2, dest_value: dest });
    }

    pub fn int_eq(&mut self, dest: u32, src1: u32, src2: u32)
        requires
            old(self).wf(),
        ensures
            final(self).wf(),
            final(self).program.inscs@ == old(self).program.inscs@ + insc_bytes(
                Insc::IntEq { lhs_value: src1, rhs_value: src2, dest_value: dest },
            ),
    {
        self.emit(&Insc::IntEq { lhs_value: src1, rhs_value: src2, dest_value: dest });
    }

    pub fn int_gt(&mut self, dest: u32, src1: u32, src2: u32)
        requires
            old(self).wf(),
        ensures
            final(self).wf(),
            final(self).program.inscs@ == old(self).program.inscs@ + insc_bytes(
                Insc::IntGt { lhs_value: src1, rhs_value: src2, dest_value: dest },
            ),
    {
        self.emit(&Insc::IntGt { lhs_value: src1, rhs_value: src2, dest_value: dest });
    }

    pub fn incr(&mut self, pos: u32)
        requires
            old(self).wf(),
        ensures
            final(self).wf(),
            final(self).program.inscs@ == old(self).program.inscs@ + insc_bytes(
                Insc::Incr { value: pos },
            ),
    {
        self.emit(&Insc::Incr { value: pos });
    }

    /// Appends a conditional jump to `dest_label`, whose address `finish_function` writes;
    /// false, with nothing appended, when the position does not fit in 32 bits.
    pub fn jump_if_true_dangle(&mut self, cond: u32, dest_label: u32) -> (r: bool)
        requires
            old(self).wf(),
        ensures
            final(self).wf(),
            r == (old(self).program.inscs@.len() <= u32::MAX),
            r ==> {
                &&& final(self).program.inscs@ == old(self).program.inscs@ + insc_bytes(
                    Insc::JumpIfTrue { cond_value: cond, jump_dest: 0 },
                )
                &&& final(self).incomplete_conditional_jumps@
                    == old(self).incomplete_conditional_jumps@.push(
                    (old(self).program.inscs@.len() as u32, dest_label),
                )
            },
            !r ==> final(self).program.inscs@ == old(self).program.inscs@,
            final(self).labels@ == old(self).labels@,
            final(self).incomplete_jumps@ == old(self).incomplete_jumps@,
    {
        let pos = self.program.inscs.len();
        if pos > u32::MAX as usize {
            return false;
        }
        self.emit(&Insc::JumpIfTrue { cond_value: cond, jump_dest: 0 });
        self.incomplete_conditional_jumps.push((pos as u32, dest_label));
        true
    }

    /// Appends a jump to `dest_label`, whose address `finish_function` writes; false, with
    /// nothing appended, when the position does not fit in 32 bits.
    pub fn jump_dangle(&mut self, dest_label: u32) -> (r: bool)
        requires
            old(self).wf(),
        ensures
            final(self).wf(),
            r == (old(self).program.inscs@.len() <= u32::MAX),
            r ==> {
                &&& final(self).program.inscs@ == old(self).program.inscs@ + insc_bytes(
                    Insc::Jump { jump_dest: 0 },
                )
                &&& final(self).incomplete_jumps@ == old(self).incomplete_jumps@.push(
                    (old(self).program.inscs@.len() as u32, dest_label),
                )
            },
            !r ==> final(self).program.inscs@ == old(self).program.inscs@,
            final(self).labels@ == old(self).labels@,
            final(self).incomplete_conditional_jumps@ == old(self).incomplete_conditional_jumps@,
    {
        let pos = self.program.inscs.len();
        if pos > u32::MAX as usize {
            return false;
        }
        self.emit(&Insc::Jump { jump_dest: 0 });
        self.incomplete_jumps.push((pos as u32, dest_label));
        true
    }

    /// Appends a call of the function named `func_name`, whose id `finish` writes; false,
    /// with nothing appended, when a slot list is longer than 255 or the position does not
    /// fit in 32 bits.
    pub fn func_call_dangle(&mut self, func_name: String, args: Vec<u32>, rets: Vec<u32>) -> (r:
        bool)
        requires
            old(self).wf(),
        ensures
            final(self).wf(),
            r == (old(self).program.inscs@.len() <= u32::MAX && args@.len() <= 255 && rets@.len()
                <= 255),
            r ==> {
                &&& final(self).program.inscs@ == old(self).program.inscs@ + insc_bytes(
                    Insc::FuncCall { func_id: 0, arg_values: args, ret_value_locs: rets },
                )
                &&& final(self).incomplete_calls@ == old(self).incomplete_calls@.push(
                    (old(self).program.inscs@.len() as u32, func_name),
                )
            },
            !r ==> final(self).program.inscs@ == old(self).program.inscs@,
            final(self).labels@ == old(self).labels@,
    {
        let pos = self.program.inscs.len();
        if pos > u32::MAX as usize || args.len() > 255 || rets.len() > 255 {
            return false;
        }
        let insc = Insc::FuncCall { func_id: 0, arg_values: args, ret_value_locs: rets };
        self.emit(&insc);
        self.incomplete_calls.push((pos as u32, func_name));
        true
    }

    /// Appends a call of host routine `ffi_func_id`; false, with nothing appended, when a
    /// slot list is longer than 255.
    pub fn ffi_call(&mut self, ffi_func_id: u32, args: Vec<u32>, rets: Vec<u32>) -> (r: bool)
        requires
            old(self).wf(),
        ensures
            final(self).wf(),
            r == (args@.len() <= 255 && rets@.len() <= 255),
            r ==> final(self).program.inscs@ == old(self).program.inscs@ + insc_bytes(
                Insc::FFICall { func_id: ffi_func_id, arg_values: args, ret_value_locs: rets },
            ),
            !r ==> final(self).program.inscs@ == old(self).program.inscs@,
            final(self).program.funcs@ == old(self).program.funcs@,
            final(self).program.ffi_funcs@ == old(self).program.ffi_funcs@,
            final(self).func_names@ == old(self).func_names@,
            final(self).labels@ == old(self).labels@,
            final(self).incomplete_conditional_jumps@ == old(self).incomplete_conditional_jumps@,
            final(self).incomplete_jumps@ == old(self).incomplete_jumps@,
            final(self).incomplete_calls@ == old(self).incomplete_calls@,
    {
        if args.len() > 255 || rets.len() > 255 {
            return false;
        }
        let insc = Insc::FFICall { func_id: ffi_func_id, arg_values: args, ret_value_locs: rets };
        self.emit(&insc);
        true
    }

    pub fn return_one(&mut self, ret: u32)
        requires
            old(self).wf(),
        ensures
            final(self).wf(),
            final(self).program.inscs@ == old(self).program.inscs@ + insc_bytes(
                Insc::ReturnOne { ret_value: ret },
            ),
    {
        self.emit(&Insc::ReturnOne { ret_value: ret });
    }

    /// Appends a return of several values; false, with nothing appended, when there are
    /// more than 255.
    pub fn return_multiple(&mut self, rets: Vec<u32>) -> (r: bool)
        requires
            old(self).wf(),
        ensures
            final(self).wf(),
            r == (rets@.len() <= 255),
            r ==> final(self).program.inscs@ == old(self).program.inscs@ + insc_bytes(
                Insc::ReturnMultiple { ret_values: rets },
            ),
            !r ==> final(self).program.inscs@ == old(self).program.inscs@,
    {
        if rets.len() > 255 {
            return false;
        }
        let insc = Insc::ReturnMultiple { ret_values: rets };
        self.emit(&insc);
        true
    }

    pub fn return_nothing(&mut self)
        requires
            old(self).wf(),
        ensures
            final(self).wf(),
            final(self).program.inscs@ == old(self).program.inscs@ + insc_bytes(Insc::ReturnNothing),
    {
        self.emit(&Insc::ReturnNothing);
    }

    pub fn unreachable(&mut self)
        requires
            old(self).wf(),
        ensures
            final(self).wf(),
            final(self).program.inscs@ == old(self).program.inscs@ + insc_bytes(
                Insc::UnreachableInsc,
            ),
    {
        self.emit(&Insc::UnreachableInsc);
    }
}

impl CompiledProgramBuilder {
    /// Writes the address of its label into each pending jump and ends the function's
    /// labels. False, with nothing changed, when a pending jump names an undefined label.
    pub fn finish_function(&mut self) -> (r: bool)
        requires
            old(self).wf(),
        ensures
            final(self).wf(),
            r == (all_resolved(old(self).labels@, old(self).incomplete_jumps@) && all_resolved(
                old(self).labels@,
                old(self).incomplete_conditional_jumps@,
            )),
            r ==> {
                &&& final(self).program.inscs@ == patch_jumps(
                    patch_jumps(
                        old(self).program.inscs@,
                        old(self).labels@,
                        old(self).incomplete_jumps@,
                        4,
                    ),
                    old(self).labels@,
                    old(self).incomplete_conditional_jumps@,
                    8,
                )
                &&& final(self).labels@.len() == 0
                &&& final(self).incomplete_jumps@.len() == 0
                &&& final(self).incomplete_conditional_jumps@.len() == 0
            },
            !r ==> final(self).program.inscs@ == old(self).program.inscs@,
            final(self).program.inscs@.len() == old(self).program.inscs@.len(),
            final(self).program.funcs@ == old(self).program.funcs@,
            final(self).program.ffi_funcs@ == old(self).program.ffi_funcs@,
            final(self).func_names@ == old(self).func_names@,
            final(self).incomplete_calls@ == old(self).incomplete_calls@,
    {
        let n = self.program.inscs.len();
        let mut k: usize = 0;
        while k < self.incomplete_jumps.len()
            invariant
                self.wf(),
                self.program.inscs@ == old(self).program.inscs@,
                self.labels@ == old(self).labels@,
                self.incomplete_jumps@ == old(self).incomplete_jumps@,
                self.incomplete_conditional_jumps@ == old(self).incomplete_conditional_jumps@,
                self.incomplete_calls@ == old(self).incomplete_calls@,
                self.func_names@ == old(self).func_names@,
                self.program.funcs@ == old(self).program.funcs@,
                self.program.ffi_funcs@ == old(self).program.ffi_funcs@,
                0 <= k <= self.incomplete_jumps@.len(),
                forall|j: int|
                    0 <= j < k ==> label_addr(self.labels@, (#[trigger] self.incomplete_jumps@[j]).1)
                        is Some,
            decreases self.incomplete_jumps.len() - k,
        {
            if find_label(&self.labels, self.incomplete_jumps[k].1).is_none() {
                return false;
            }
            k = k + 1;
        }
        let mut k: usize = 0;
        while k < self.incomplete_conditional_jumps.len()
            invariant
                self.wf(),
                self.program.inscs@ == old(self).program.inscs@,
                self.labels@ == old(self).labels@,
                self.incomplete_jumps@ == old(self).incomplete_jumps@,
                self.incomplete_conditional_jumps@ == old(self).incomplete_conditional_jumps@,
                self.incomplete_calls@ == old(self).incomplete_calls@,
                self.func_names@ == old(self).func_names@,
                self.program.funcs@ == old(self).program.funcs@,
                self.program.ffi_funcs@ == old(self).program.ffi_funcs@,
                all_resolved(self.labels@, self.incomplete_jumps@),
                0 <= k <= self.incomplete_conditional_jumps@.len(),
                forall|j: int|
                    0 <= j < k ==> label_addr(
                        self.labels@,
                        (#[trigger] self.incomplete_conditional_jumps@[j]).1,
                    ) is Some,
            decreases self.incomplete_conditional_jumps.len() - k,
        {
            if find_label(&self.labels, self.incomplete_conditional_jumps[k].1).is_none() {
                return false;
            }
            k = k + 1;
        }
        let ghost b0 = self.program.inscs@;
        let mut k: usize = 0;
        assert(self.incomplete_jumps@.subrange(0, 0) =~= Seq::<(u32, u32)>::empty());
        while k < self.incomplete_jumps.len()
            invariant
                old(self).wf(),
                self.incomplete_jumps@ == old(self).incomplete_jumps@,
                self.incomplete_conditional_jumps@ == old(self).incomplete_conditional_jumps@,
                self.incomplete_calls@ == old(self).incomplete_calls@,
                self.func_names@ == old(self).func_names@,
                self.labels@ == old(self).labels@,
                all_resolved(self.labels@, self.incomplete_jumps@),
                all_resolved(self.labels@, self.incomplete_conditional_jumps@),
                n == b0.len(),
                b0 == old(self).program.inscs@,
                0 <= k <= self.incomplete_jumps@.len(),
                self.program.inscs@.len() == b0.len(),
                self.program.inscs@ == patch_jumps(
                    b0,
                    self.labels@,
                    self.incomplete_jumps@.subrange(0, k as int),
                    4,
                ),
                self.program.funcs@ == old(self).program.funcs@,
                self.program.ffi_funcs@ == old(self).program.ffi_funcs@,
            decreases self.incomplete_jumps.len() - k,
        {
            let (pos, label) = self.incomplete_jumps[k];
            let addr = match find_label(&self.labels, label) {
                Some(a) => a,
                None => {
                    return false;
                },
            };
            assert(pos + 8 <= b0.len());
            let ghost pre = self.incomplete_jumps@.subrange(0, k + 1);
            assert(pre.drop_last() =~= self.incomplete_jumps@.subrange(0, k as int));
            self.program.inscs.write_u32(pos as usize + 4, addr);
            k = k + 1;
        }
        assert(self.incomplete_jumps@.subrange(0, self.incomplete_jumps@.len() as int)
            =~= self.incomplete_jumps@);
        let ghost b1 = self.program.inscs@;
        let mut k: usize = 0;
        assert(self.incomplete_conditional_jumps@.subrange(0, 0) =~= Seq::<(u32, u32)>::empty());
        while k < self.incomplete_conditional_jumps.len()
            invariant
                old(self).wf(),
                self.incomplete_conditional_jumps@ == old(self).incomplete_conditional_jumps@,
                self.incomplete_jumps@ == old(self).incomplete_jumps@,
                self.incomplete_calls@ == old(self).incomplete_calls@,
                self.func_names@ == old(self).func_names@,
                self.labels@ == old(self).labels@,
                all_resolved(self.labels@, self.incomplete_conditional_jumps@),
                all_resolved(self.labels@, self.incomplete_jumps@),
                n == b1.len(),
                b1 == patch_jumps(
                    old(self).program.inscs@,
                    old(self).labels@,
                    old(self).incomplete_jumps@,
                    4,
                ),
                b1.len() == old(self).program.inscs@.len(),
                0 <= k <= self.incomplete_conditional_jumps@.len(),
                self.program.inscs@.len() == b1.len(),
                self.program.inscs@ == patch_jumps(
                    b1,
                    self.labels@,
                    self.incomplete_conditional_jumps@.subrange(0, k as int),
                    8,
                ),
                self.program.funcs@ == old(self).program.funcs@,
                self.program.ffi_funcs@ == old(self).program.ffi_funcs@,
            decreases self.incomplete_conditional_jumps.len() - k,
        {
            let (pos, label) = self.incomplete_conditional_jumps[k];
            let addr = match find_label(&self.labels, label) {
                Some(a) => a,
                None => {
                    return false;
                },
            };
            assert(pos + 16 <= b1.len());
            let ghost pre = self.incomplete_conditional_jumps@.subrange(0, k + 1);
            assert(pre.drop_last() =~= self.incomplete_conditional_jumps@.subrange(0, k as int));
            self.program.inscs.write_u32(pos as usize + 8, addr);
            k = k + 1;
        }
        assert(self.incomplete_conditional_jumps@.subrange(
            0,
            self.incomplete_conditional_jumps@.len() as int,
        ) =~= self.incomplete_conditional_jumps@);
        self.incomplete_jumps.clear();
        self.incomplete_conditional_jumps.clear();
        self.labels.clear();
        true
    }

    /// Writes the id of its function into each pending call and hands out the program;
    /// `None` when a pending call names an undefined function.
    pub fn finish(self) -> (r: Option<PackedProgram>)
        requires
            self.wf(),
            self.func_names@.len() <= u32::MAX,
        ensures
            r is Some <==> calls_resolved(self.func_names@, self.incomplete_calls@),
            r matches Some(p) ==> {
                &&& p.inscs@ == patch_calls(
                    self.program.inscs@,
                    self.func_names@,
                    self.incomplete_calls@,
                )
                &&& p.funcs@ == self.program.funcs@
                &&& p.ffi_funcs@ == self.program.ffi_funcs@
            },
    {
        let mut program = self.program;
        let calls = self.incomplete_calls;
        let names = self.func_names;
        let ghost b0 = program.inscs@;
        let n = program.inscs.len();
        let mut k: usize = 0;
        assert(calls@.subrange(0, 0) =~= Seq::<(u32, String)>::empty());
        while k < calls.len()
            invariant
                n == b0.len(),
                b0 == self.program.inscs@,
                names@ == self.func_names@,
                calls@ == self.incomplete_calls@,
                0 <= k <= calls@.len(),
                names@.len() <= u32::MAX,
                forall|j: int| 0 <= j < calls@.len() ==> (#[trigger] calls@[j]).0 + 8 <= b0.len(),
                forall|j: int| 0 <= j < k ==> func_index(names@, (#[trigger] calls@[j]).1@) is Some,
                program.inscs@.len() == b0.len(),
                program.inscs@ == patch_calls(b0, names@, calls@.subrange(0, k as int)),
                program.funcs@ == self.program.funcs@,
                program.ffi_funcs@ == self.program.ffi_funcs@,
            decreases calls.len() - k,
        {
            let pos = calls[k].0;
            let id = match find_func(&names, &calls[k].1) {
                Some(id) => id,
                None => {
                    assert(func_index(names@, calls@[k as int].1@) is None);
                    return None;
                },
            };
            assert(pos + 8 <= b0.len());
            let ghost pre = calls@.subrange(0, k + 1);
            assert(pre.drop_last() =~= calls@.subrange(0, k as int));
            program.inscs.write_u32(pos as usize + 4, id);
            k = k + 1;
        }
        assert(calls@.subrange(0, calls@.len() as int) =~= calls@);
        Some(program)
    }
}

} // verus!
