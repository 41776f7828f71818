//! The interpreter: one-step semantics, the dispatch loop, and host calls.

use vstd::prelude::*;

use crate::error::{TError, UserException};
use crate::ffi::{
    finish_call,
    last_finish,
    prepare_call,
    marshal_prefix,
    reports,
    HostValue,
};
use crate::heap::Heap;
use crate::packed::{decodes_at, lemma_decode_unique, same_insc, PackedProgram};
use crate::program::{CompiledFuncInfo, CompiledProgram, HostFunctionInfo, Insc};
use crate::stack::{
    call_ok,
    call_spec,
    enter_spec,
    return_ok,
    return_spec,
    stack_wf,
    top,
    Stack,
    StackView,
};
use crate::value::Value;

verus! {

/// The routines of the embedder, called by index from `FFICall`.
pub trait HostFunctions {
    fn call_host(&mut self, func_id: usize, args: Vec<HostValue>, heap: &mut Heap) -> Result<
        HostValue,
        UserException,
    >;
}

/// Calls host routine `func_id` described by `info` on `args`: `prepare_call`, then the
/// host routine on the converted arguments, then `finish_call` on what it returned. A
/// refused parameter aborts the call before the host runs, with every lifecycle state as
/// it was. Otherwise the guards commit after the host returns, and its result (or its
/// error, as a user exception) comes back.
pub fn call_prechecked<H: HostFunctions>(
    host: &mut H,
    heap: &mut Heap,
    func_id: usize,
    info: &HostFunctionInfo,
    args: &Vec<Value>,
) -> (r: Result<Value, TError>)
    requires
        args@.len() == info.params@.len(),
        forall|j: int| 0 <= j < args@.len() ==> old(heap).valid_value(#[trigger] args@[j]),
    ensures
        ({
            let m = marshal_prefix(*old(heap), old(heap).states(), args@, info.params@, args@.len());
            m.2 matches Some((i, f)) ==> {
                &&& r matches Err(e) && reports(
                    e,
                    f,
                    *old(heap),
                    marshal_prefix(*old(heap), old(heap).states(), args@, info.params@, i).0,
                    args@[i as int],
                    info.params@[i as int],
                )
                &&& final(heap).states() == old(heap).states()
                &&& *final(host) == *old(host)
            }
        }),
        ({
            let m = marshal_prefix(*old(heap), old(heap).states(), args@, info.params@, args@.len());
            m.2 is None && final(heap).wrappers@.len() >= old(heap).wrappers@.len() ==> forall|t: int|
                0 <= t < old(heap).wrappers@.len() && #[trigger] last_finish(m.1, t) is Some
                    ==> final(heap).states()[t] == last_finish(m.1, t)->Some_0
        }),
        marshal_prefix(*old(heap), old(heap).states(), args@, info.params@, args@.len()).2 is None
            ==> (r matches Err(e) ==> e is UserException || e is UncheckedException),
        r matches Ok(v) ==> final(heap).valid_value(v),
{
    let (guards, host_args) = match prepare_call(heap, info, args) {
        Ok(p) => p,
        Err(e) => {
            return Err(e);
        },
    };
    let n0 = heap.len();
    let result = host.call_host(func_id, host_args, heap);
    if heap.len() < n0 {
        return Err(TError::unchecked_exception("host released guest objects".to_string()));
    }
    finish_call(heap, &guards, result, &info.ret)
}

/// Two's-complement wrapping addition.
pub open spec fn wrapping_add_i64(a: i64, b: i64) -> i64 {
    if a + b > i64::MAX {
        (a + b - 0x1_0000_0000_0000_0000) as i64
    } else if a + b < i64::MIN {
        (a + b + 0x1_0000_0000_0000_0000) as i64
    } else {
        (a + b) as i64
    }
}

/// Two's-complement wrapping subtraction.
pub open spec fn wrapping_sub_i64(a: i64, b: i64) -> i64 {
    if a - b > i64::MAX {
        (a - b - 0x1_0000_0000_0000_0000) as i64
    } else if a - b < i64::MIN {
        (a - b + 0x1_0000_0000_0000_0000) as i64
    } else {
        (a - b) as i64
    }
}

/// The model of a running machine.
pub struct MachineView {
    pub ip: int,
    pub stack: StackView,
    pub outputs: Seq<Value>,
    pub finished: bool,
}

pub open spec fn in_frame(s: StackView, k: u32) -> bool {
    k < top(s).end - top(s).start
}

pub open spec fn slot(s: StackView, k: u32) -> Value {
    s.values[top(s).start + k]
}

pub open spec fn with_slot(s: StackView, k: u32, v: Value) -> StackView {
    StackView { values: s.values.update(top(s).start + k, v), frames: s.frames }
}

/// Both operands are integers in the frame and the destination lies in the frame.
pub open spec fn int_operands(s: StackView, l: u32, r: u32, d: u32) -> bool {
    &&& in_frame(s, l)
    &&& in_frame(s, r)
    &&& in_frame(s, d)
    &&& slot(s, l) is Int
    &&& slot(s, r) is Int
}

/// Writes `v` to slot `d` and continues at `next`.
pub open spec fn put(m: MachineView, next: int, d: u32, v: Value) -> MachineView {
    MachineView { ip: next, stack: with_slot(m.stack, d, v), ..m }
}

/// The machine after executing one return from the innermost frame. At the root the
/// values go to the driver's outputs and the machine stops.
pub open spec fn return_step(m: MachineView, srcs: Seq<u32>) -> Option<MachineView> {
    let s = m.stack;
    if s.frames.len() == 1 {
        if srcs.len() <= m.outputs.len() && forall|k: int|
            0 <= k < srcs.len() ==> in_frame(s, #[trigger] srcs[k]) {
            Some(
                MachineView {
                    outputs: Seq::new(
                        m.outputs.len(),
                        |i: int|
                            if i < srcs.len() {
                                slot(s, srcs[i])
                            } else {
                                m.outputs[i]
                            },
                    ),
                    finished: true,
                    ..m
                },
            )
        } else {
            None
        }
    } else if return_ok(s, srcs) {
        Some(MachineView { ip: top(s).ret_addr as int, stack: return_spec(s, srcs), ..m })
    } else {
        None
    }
}

/// Executing instruction `i` with function table `funcs`, where the instruction after it
/// is at `next`; `None` is a fault. Host calls have no meaning here: their outcome is the
/// host's.
pub open spec fn exec_spec(
    funcs: Seq<CompiledFuncInfo>,
    i: Insc,
    next: int,
    m: MachineView,
) -> Option<MachineView> {
    let s = m.stack;
    match i {
        Insc::MakeIntConst { c, dest_value } => if in_frame(s, dest_value) {
            Some(put(m, next, dest_value, Value::Int(c)))
        } else {
            None
        },
        Insc::IntAdd { lhs_value, rhs_value, dest_value } => if int_operands(
            s,
            lhs_value,
            rhs_value,
            dest_value,
        ) {
            Some(
                put(
                    m,
                    next,
                    dest_value,
                    Value::Int(
                        wrapping_add_i64(slot(s, lhs_value)->Int_0, slot(s, rhs_value)->Int_0),
                    ),
                ),
            )
        } else {
            None
        },
        Insc::IntSub { lhs_value, rhs_value, dest_value } => if int_operands(
            s,
            lhs_value,
            rhs_value,
            dest_value,
        ) {
            Some(
                put(
                    m,
                    next,
                    dest_value,
                    Value::Int(
                        wrapping_sub_i64(slot(s, lhs_value)->Int_0, slot(s, rhs_value)->Int_0),
                    ),
                ),
            )
        } else {
            None
        },
        Insc::IntEq { lhs_value, rhs_value, dest_value } => if int_operands(
            s,
            lhs_value,
            rhs_value,
            dest_value,
        ) {
            Some(
                put(
                    m,
                    next,
                    dest_value,
                    Value::Bool(slot(s, lhs_value)->Int_0 == slot(s, rhs_value)->Int_0),
                ),
            )
        } else {
            None
        },
        Insc::IntGt { lhs_value, rhs_value, dest_value } => if int_operands(
            s,
            lhs_value,
            rhs_value,
            dest_value,
        ) {
            Some(
                put(
                    m,
                    next,
                    dest_value,
                    Value::Bool(slot(s, lhs_value)->Int_0 > slot(s, rhs_value)->Int_0),
                ),
            )
        } else {
            None
        },
        Insc::Incr { value } => if in_frame(s, value) && slot(s, value) is Int {
            Some(put(m, next, value, Value::Int(wrapping_add_i64(slot(s, value)->Int_0, 1))))
        } else {
            None
        },
        Insc::JumpIfTrue { cond_value, jump_dest } => if in_frame(s, cond_value) && slot(
            s,
            cond_value,
        ) is Bool {
            if slot(s, cond_value)->Bool_0 {
                Some(MachineView { ip: jump_dest as int, ..m })
            } else {
                Some(MachineView { ip: next, ..m })
            }
        } else {
            None
        },
        Insc::Jump { jump_dest } => Some(MachineView { ip: jump_dest as int, ..m }),
        Insc::FuncCall { func_id, arg_values, ret_value_locs } => {
            if func_id < funcs.len() && 0 <= next <= u32::MAX {
                let f = funcs[func_id as int];
                if arg_values@.len() == f.arg_count && call_ok(
                    s,
                    f.stack_size as nat,
                    arg_values@,
                ) {
                    Some(
                        MachineView {
                            ip: f.start_addr as int,
                            stack: call_spec(
                                s,
                                f.stack_size as nat,
                                arg_values@,
                                ret_value_locs@,
                                next as u32,
                            ),
                            ..m
                        },
                    )
                } else {
                    None
                }
            } else {
                None
            }
        },
        Insc::FFICall { .. } => None,
        Insc::ReturnOne { ret_value } => return_step(m, seq![ret_value]),
        Insc::ReturnMultiple { ret_values } => return_step(m, ret_values@),
        Insc::ReturnNothing => return_step(m, Seq::empty()),
        Insc::UnreachableInsc => None,
    }
}

/// One step of the machine in `p`; `None` is a fault. A finished machine stays as it is.
pub open spec fn step_spec(p: CompiledProgram, m: MachineView) -> Option<MachineView> {
    if m.finished {
        Some(m)
    } else if !(0 <= m.ip < p.inscs@.len()) {
        None
    } else {
        exec_spec(p.funcs@, p.inscs@[m.ip], m.ip + 1, m)
    }
}



/// `n` steps from `m`, or `None` if one of them faults.
pub open spec fn run_steps(p: CompiledProgram, m: MachineView, n: nat) -> Option<MachineView>
    decreases n,
{
    if n == 0 {
        Some(m)
    } else {
        match run_steps(p, m, (n - 1) as nat) {
            Some(m1) => step_spec(p, m1),
            None => None,
        }
    }
}

/// The machine at the entry of function `func_id` called by the driver with `args`.
pub open spec fn initial_machine(
    p: CompiledProgram,
    func_id: int,
    args: Seq<Value>,
    outputs: Seq<Value>,
) -> MachineView {
    let f = p.funcs@[func_id];
    MachineView {
        ip: f.start_addr as int,
        stack: enter_spec(f.stack_size as nat, args),
        outputs,
        finished: false,
    }
}

/// The values a host call hands to marshaling: the contents of its argument slots.
pub open spec fn ffi_args(s: StackView, arg_values: Seq<u32>) -> Seq<Value> {
    Seq::new(arg_values.len(), |k: int| slot(s, arg_values[k]))
}

/// Whether a host call can start: the routine exists, the arity matches, there is at most
/// one result slot and it lies in the frame, and every argument slot lies in the frame
/// and holds null, a primitive or a reference to a live wrapper.
pub open spec fn ffi_ready(
    ffi_funcs: Seq<HostFunctionInfo>,
    func_id: u32,
    arg_values: Seq<u32>,
    ret_locs: Seq<u32>,
    s: StackView,
    heap: Heap,
) -> bool {
    &&& func_id < ffi_funcs.len()
    &&& arg_values.len() == ffi_funcs[func_id as int].params@.len()
    &&& ret_locs.len() <= 1
    &&& ret_locs.len() == 1 ==> in_frame(s, ret_locs[0])
    &&& forall|k: int|
        0 <= k < arg_values.len() ==> in_frame(s, #[trigger] arg_values[k]) && heap.valid_value(
            slot(s, arg_values[k]),
        )
}

/// What a completed host call does to the machine: it continues at `next`, and only the
/// result slot, if there is one, changes.
pub open spec fn ffi_effect(ret_locs: Seq<u32>, next: int, m: MachineView, m1: MachineView) -> bool {
    &&& m1.ip == next
    &&& m1.outputs == m.outputs
    &&& m1.finished == m.finished
    &&& m1.stack.frames == m.stack.frames
    &&& ret_locs.len() == 0 ==> m1.stack == m.stack
    &&& ret_locs.len() == 1 ==> exists|v: Value| m1.stack == #[trigger] with_slot(m.stack, ret_locs[0], v)
}

/// What a host call instruction guarantees, from machine `m0`, heap `h0` and host `host0`
/// to `m1`, `h1` and `host1` with outcome `r`: its own checks fail with nothing changed;
/// a refused argument (the contents of the argument slots, checked left to right) fails
/// with the host untouched and every lifecycle state as it was; once the host has run,
/// every guarded wrapper is in its guard's finish state; and on success the machine moves
/// on with only the result slot written.
pub open spec fn ffi_call_post<H>(
    ffi_funcs: Seq<HostFunctionInfo>,
    func_id: u32,
    arg_values: Seq<u32>,
    ret_locs: Seq<u32>,
    next: int,
    m0: MachineView,
    m1: MachineView,
    h0: Heap,
    h1: Heap,
    host0: H,
    host1: H,
    r: Result<(), TError>,
) -> bool {
    let args = ffi_args(m0.stack, arg_values);
    let params = ffi_funcs[func_id as int].params@;
    let m = marshal_prefix(h0, h0.states(), args, params, args.len());
    &&& !ffi_ready(ffi_funcs, func_id, arg_values, ret_locs, m0.stack, h0) ==> {
        &&& r is Err
        &&& m1 == m0
        &&& h1 == h0
        &&& host1 == host0
    }
    &&& ffi_ready(ffi_funcs, func_id, arg_values, ret_locs, m0.stack, h0) ==> {
        &&& m.2 matches Some((i, f)) ==> {
            &&& r matches Err(e) && reports(
                e,
                f,
                h0,
                marshal_prefix(h0, h0.states(), args, params, i).0,
                args[i as int],
                params[i as int],
            )
            &&& h1.states() == h0.states()
            &&& host1 == host0
            &&& m1 == m0
        }
        &&& m.2 is None && h1.wrappers@.len() >= h0.wrappers@.len() ==> forall|t: int|
            0 <= t < h0.wrappers@.len() && #[trigger] last_finish(m.1, t) is Some
                ==> h1.states()[t] == last_finish(m.1, t)->Some_0
    }
    &&& r is Ok ==> ffi_effect(ret_locs, next, m0, m1)
}

/// A run of the variant-form program `p`: each state is followed by what executing the
/// instruction at its address gives (for a host call: the next instruction, with only the
/// result slot written).
pub open spec fn variant_trace(p: CompiledProgram, trace: Seq<MachineView>) -> bool {
    &&& trace.len() >= 1
    &&& forall|k: int| 0 <= k < trace.len() ==> stack_wf(#[trigger] trace[k].stack)
    &&& forall|k: int|
        0 <= k < trace.len() - 1 ==> {
            &&& !(#[trigger] trace[k]).finished
            &&& 0 <= trace[k].ip < p.inscs@.len()
            &&& !(p.inscs@[trace[k].ip] is FFICall) ==> step_spec(p, trace[k]) == Some(trace[k + 1])
            &&& p.inscs@[trace[k].ip] is FFICall ==> ffi_effect(
                p.inscs@[trace[k].ip]->FFICall_ret_value_locs@,
                trace[k].ip + 1,
                trace[k],
                trace[k + 1],
            )
        }
}

/// How a run of `p` can fail at machine `m`, leaving heap `h1` and host `host1` with error
/// `e`: the instruction there has no meaning in that state (`step_spec` faults), or it is
/// a host call that reported `e`: its own checks failed, an argument was refused, or the
/// host routine raised it.
pub open spec fn variant_fault<H>(p: CompiledProgram, m: MachineView, e: TError, h1: Heap, host1: H) -> bool {
    if 0 <= m.ip < p.inscs@.len() && p.inscs@[m.ip] is FFICall {
        exists|m1: MachineView, h0: Heap, host0: H|
            #[trigger] ffi_call_post(
                p.ffi_funcs@,
                p.inscs@[m.ip]->FFICall_func_id,
                p.inscs@[m.ip]->FFICall_arg_values@,
                p.inscs@[m.ip]->FFICall_ret_value_locs@,
                m.ip + 1,
                m,
                m1,
                h0,
                h1,
                host0,
                host1,
                Err::<(), TError>(e),
            )
    } else {
        step_spec(p, m) is None
    }
}

/// The same for a packed program: nothing decodes at the instruction pointer, the decoded
/// instruction has no meaning in that state, or it is a host call that reported `e`.
pub open spec fn packed_fault<H>(pp: PackedProgram, m: MachineView, e: TError, h1: Heap, host1: H) -> bool {
    match packed_decode(pp.inscs@, m.ip) {
        None => true,
        Some((i, next)) => if i is FFICall {
            exists|m1: MachineView, h0: Heap, host0: H|
                #[trigger] ffi_call_post(
                    pp.ffi_funcs@,
                    i->FFICall_func_id,
                    i->FFICall_arg_values@,
                    i->FFICall_ret_value_locs@,
                    next,
                    m,
                    m1,
                    h0,
                    h1,
                    host0,
                    host1,
                    Err::<(), TError>(e),
                )
        } else {
            exec_spec(pp.funcs@, i, next, m) is None
        },
    }
}

/// A running machine.
pub struct Machine {
    pub ip: usize,
    pub stack: Stack,
    pub finished: bool,
}

impl Machine {
    pub open spec fn view_with(&self, outputs: Seq<Value>) -> MachineView {
        MachineView { ip: self.ip as int, stack: self.stack@, outputs, finished: self.finished }
    }

    fn int_operands(&self, lhs: u32, rhs: u32, dest: u32) -> (r: Option<(i64, i64)>)
        requires
            stack_wf(self.stack@),
        ensures
            r is Some <==> int_operands(self.stack@, lhs, rhs, dest),
            r matches Some((a, b)) ==> a == slot(self.stack@, lhs)->Int_0 && b == slot(
                self.stack@,
                rhs,
            )->Int_0,
    {
        if self.stack.get_value(dest).is_none() {
            return None;
        }
        match (self.stack.get_value(lhs), self.stack.get_value(rhs)) {
            (Some(Value::Int(a)), Some(Value::Int(b))) => Some((a, b)),
            _ => None,
        }
    }

    /// Writes `v` to slot `dest` and continues at `next`.
    fn put(&mut self, next: usize, dest: u32, v: Value) -> (r: Result<(), TError>)
        requires
            stack_wf(old(self).stack@),
            in_frame(old(self).stack@, dest),
        ensures
            r is Ok,
            forall|outputs: Seq<Value>|
                #[trigger] final(self).view_with(outputs) == put(
                    old(self).view_with(outputs),
                    next as int,
                    dest,
                    v,
                ),
            stack_wf(final(self).stack@),
    {
        self.stack.set_value(dest, v);
        self.ip = next;
        Ok(())
    }

    /// Executes a return with source slots `srcs`.
    fn do_return(&mut self, srcs: &Vec<u32>, outputs: &mut Vec<Value>) -> (r: Result<(), TError>)
        requires
            stack_wf(old(self).stack@),
            !old(self).finished,
        ensures
            r is Ok <==> return_step(old(self).view_with(old(outputs)@), srcs@) is Some,
            r is Ok ==> Some(final(self).view_with(final(outputs)@)) == return_step(
                old(self).view_with(old(outputs)@),
                srcs@,
            ),
            r is Err ==> final(outputs)@ == old(outputs)@,
            stack_wf(final(self).stack@),
    {
        let ghost m0 = self.view_with(outputs@);
        if self.stack.frames.len() == 1 {
            if srcs.len() > outputs.len() {
                return Err(TError::unchecked_exception("too many return values".to_string()));
            }
            let mut j: usize = 0;
            while j < srcs.len()
                invariant
                    stack_wf(self.stack@),
                    self.stack@.frames.len() == 1,
                    0 <= j <= srcs@.len(),
                    forall|k: int| 0 <= k < j ==> in_frame(self.stack@, #[trigger] srcs@[k]),
                decreases srcs.len() - j,
            {
                if self.stack.get_value(srcs[j]).is_none() {
                    return Err(TError::unchecked_exception("return slot out of frame".to_string()));
                }
                j = j + 1;
            }
            let mut i: usize = 0;
            while i < srcs.len()
                invariant
                    stack_wf(self.stack@),
                    self.view_with(old(outputs)@) == m0,
                    srcs@.len() <= old(outputs)@.len(),
                    forall|k: int| 0 <= k < srcs@.len() ==> in_frame(self.stack@, #[trigger] srcs@[k]),
                    0 <= i <= srcs@.len(),
                    outputs@.len() == old(outputs)@.len(),
                    forall|k: int|
                        0 <= k < outputs@.len() ==> #[trigger] outputs@[k] == (if k < i {
                            slot(self.stack@, srcs@[k])
                        } else {
                            old(outputs)@[k]
                        }),
                decreases srcs.len() - i,
            {
                let v = self.stack.get_value(srcs[i]);
                if let Some(v) = v {
                    outputs[i] = v;
                }
                i = i + 1;
            }
            self.finished = true;
            proof {
                let t = return_step(m0, srcs@)->Some_0;
                assert(outputs@ =~= t.outputs);
            }
            Ok(())
        } else {
            match self.stack.done_func_call_shrink_stack(srcs) {
                Ok(Some(addr)) => {
                    self.ip = addr as usize;
                    Ok(())
                },
                Ok(None) => Err(TError::unchecked_exception("unbalanced return".to_string())),
                Err(e) => Err(e),
            }
        }
    }

    /// Performs a host call: marshals the arguments, runs the host routine, commits the
    /// guards and stores the result.
    fn ffi_call<H: HostFunctions>(
        &mut self,
        ffi_funcs: &Vec<HostFunctionInfo>,
        next: usize,
        host: &mut H,
        heap: &mut Heap,
        func_id: u32,
        arg_values: &Vec<u32>,
        ret_value_locs: &Vec<u32>,
        outs: Ghost<Seq<Value>>,
    ) -> (r: Result<(), TError>)
        requires
            stack_wf(old(self).stack@),
        ensures
            stack_wf(final(self).stack@),
            ffi_call_post(
                ffi_funcs@,
                func_id,
                arg_values@,
                ret_value_locs@,
                next as int,
                old(self).view_with(outs@),
                final(self).view_with(outs@),
                *old(heap),
                *final(heap),
                *old(host),
                *final(host),
                r,
            ),
    {
        if func_id as usize >= ffi_funcs.len() {
            return Err(TError::unchecked_exception("unknown host function".to_string()));
        }
        let info = &ffi_funcs[func_id as usize];
        if arg_values.len() != info.params.len() {
            return Err(TError::unchecked_exception("host call arity mismatch".to_string()));
        }
        if ret_value_locs.len() > 1 {
            return Err(TError::unchecked_exception("host routines return one value".to_string()));
        }
        if ret_value_locs.len() == 1 && self.stack.get_value(ret_value_locs[0]).is_none() {
            return Err(TError::unchecked_exception("return slot out of frame".to_string()));
        }
        let mut args: Vec<Value> = Vec::new();
        let mut i: usize = 0;
        while i < arg_values.len()
            invariant
                stack_wf(self.stack@),
                *self == *old(self),
                *heap == *old(heap),
                *host == *old(host),
                func_id < ffi_funcs@.len(),
                *info == ffi_funcs@[func_id as int],
                arg_values@.len() == info.params@.len(),
                ret_value_locs@.len() <= 1,
                ret_value_locs@.len() == 1 ==> in_frame(self.stack@, ret_value_locs@[0]),
                0 <= i <= arg_values@.len(),
                args@.len() == i,
                forall|j: int|
                    0 <= j < i ==> in_frame(self.stack@, arg_values@[j]) && #[trigger] args@[j]
                        == slot(self.stack@, arg_values@[j]) && heap.valid_value(args@[j]),
            decreases arg_values.len() - i,
        {
            match self.stack.get_value(arg_values[i]) {
                Some(v) => {
                    if let Value::Ptr(p) = v {
                        if p >= heap.len() {
                            assert(!heap.valid_value(slot(self.stack@, arg_values@[i as int])));
                            return Err(TError::unchecked_exception("dangling reference".to_string()));
                        }
                    }
                    args.push(v);
                },
                None => {
                    assert(!in_frame(self.stack@, arg_values@[i as int]));
                    return Err(TError::unchecked_exception("argument slot out of frame".to_string()));
                },
            }
            i = i + 1;
        }
        assert(args@ =~= ffi_args(self.stack@, arg_values@));
        assert(ffi_ready(ffi_funcs@, func_id, arg_values@, ret_value_locs@, self.stack@, *heap)) by {
            assert forall|k: int| 0 <= k < arg_values@.len() implies in_frame(
                self.stack@,
                #[trigger] arg_values@[k],
            ) && heap.valid_value(slot(self.stack@, arg_values@[k])) by {
                assert(args@[k] == slot(self.stack@, arg_values@[k]));
            }
        }
        let v = match call_prechecked(host, heap, func_id as usize, info, &args) {
            Ok(v) => v,
            Err(e) => {
                return Err(e);
            },
        };
        let ghost s0 = self.stack@;
        if ret_value_locs.len() == 1 {
            self.stack.set_value(ret_value_locs[0], v);
            assert(self.stack@ == with_slot(s0, ret_value_locs@[0], v));
        }
        self.ip = next;
        assert(s0 == old(self).stack@);
        assert(ffi_effect(
            ret_value_locs@,
            next as int,
            old(self).view_with(outs@),
            self.view_with(outs@),
        ));
        Ok(())
    }

    /// Executes `insc`, whose successor is at `next`. Every instruction but a host call
    /// does exactly what `exec_spec` says; a host call continues at `next` when it succeeds.
    pub fn exec<H: HostFunctions>(
        &mut self,
        insc: &Insc,
        next: usize,
        funcs: &Vec<CompiledFuncInfo>,
        ffi_funcs: &Vec<HostFunctionInfo>,
        host: &mut H,
        heap: &mut Heap,
        outputs: &mut Vec<Value>,
    ) -> (r: Result<(), TError>)
        requires
            stack_wf(old(self).stack@),
            !old(self).finished,
        ensures
            stack_wf(final(self).stack@),
            r is Err ==> final(outputs)@ == old(outputs)@,
            ({
                let m0 = old(self).view_with(old(outputs)@);
                &&& !(insc is FFICall) ==> (r is Ok <==> exec_spec(funcs@, *insc, next as int, m0)
                    is Some)
                &&& !(insc is FFICall) && r is Ok ==> Some(final(self).view_with(final(outputs)@))
                    == exec_spec(funcs@, *insc, next as int, m0)
                &&& !(insc is FFICall) ==> *final(heap) == *old(heap)
                &&& *insc matches Insc::FFICall { func_id, arg_values, ret_value_locs } ==> {
                    &&& final(outputs)@ == old(outputs)@
                    &&& ffi_call_post(
                        ffi_funcs@,
                        func_id,
                        arg_values@,
                        ret_value_locs@,
                        next as int,
                        m0,
                        final(self).view_with(final(outputs)@),
                        *old(heap),
                        *final(heap),
                        *old(host),
                        *final(host),
                        r,
                    )
                }
            }),
    {
        match insc {
            Insc::MakeIntConst { c, dest_value } => {
                if self.stack.get_value(*dest_value).is_none() {
                    return Err(TError::unchecked_exception("slot out of frame".to_string()));
                }
                self.put(next, *dest_value, Value::Int(*c))
            },
            Insc::IntAdd { lhs_value, rhs_value, dest_value } => {
                match self.int_operands(*lhs_value, *rhs_value, *dest_value) {
                    Some((a, b)) => self.put(next, *dest_value, Value::Int(a.wrapping_add(b))),
                    None => Err(TError::unchecked_exception("integer operands expected".to_string())),
                }
            },
            Insc::IntSub { lhs_value, rhs_value, dest_value } => {
                match self.int_operands(*lhs_value, *rhs_value, *dest_value) {
                    Some((a, b)) => self.put(next, *dest_value, Value::Int(a.wrapping_sub(b))),
                    None => Err(TError::unchecked_exception("integer operands expected".to_string())),
                }
            },
            Insc::IntEq { lhs_value, rhs_value, dest_value } => {
                match self.int_operands(*lhs_value, *rhs_value, *dest_value) {
                    Some((a, b)) => self.put(next, *dest_value, Value::Bool(a == b)),
                    None => Err(TError::unchecked_exception("integer operands expected".to_string())),
                }
            },
            Insc::IntGt { lhs_value, rhs_value, dest_value } => {
                match self.int_operands(*lhs_value, *rhs_value, *dest_value) {
                    Some((a, b)) => self.put(next, *dest_value, Value::Bool(a > b)),
                    None => Err(TError::unchecked_exception("integer operands expected".to_string())),
                }
            },
            Insc::Incr { value } => {
                match self.stack.get_value(*value) {
                    Some(Value::Int(a)) => self.put(next, *value, Value::Int(a.wrapping_add(1))),
                    _ => Err(TError::unchecked_exception("integer operand expected".to_string())),
                }
            },
            Insc::JumpIfTrue { cond_value, jump_dest } => {
                match self.stack.get_value(*cond_value) {
                    Some(Value::Bool(b)) => {
                        if b {
                            self.ip = *jump_dest as usize;
                        } else {
                            self.ip = next;
                        }
                        Ok(())
                    },
                    _ => Err(TError::unchecked_exception("boolean operand expected".to_string())),
                }
            },
            Insc::Jump { jump_dest } => {
                self.ip = *jump_dest as usize;
                Ok(())
            },
            Insc::FuncCall { func_id, arg_values, ret_value_locs } => {
                if *func_id as usize >= funcs.len() || next > u32::MAX as usize {
                    return Err(TError::unchecked_exception("invalid call".to_string()));
                }
                let f = funcs[*func_id as usize];
                if arg_values.len() != f.arg_count as usize {
                    return Err(TError::unchecked_exception("call arity mismatch".to_string()));
                }
                let ret_addr = next as u32;
                if self.stack.func_call_grow_stack(
                    f.stack_size,
                    arg_values,
                    ret_value_locs.clone(),
                    ret_addr,
                ) {
                    self.ip = f.start_addr as usize;
                    Ok(())
                } else {
                    Err(TError::unchecked_exception("invalid call".to_string()))
                }
            },
            Insc::FFICall { func_id, arg_values, ret_value_locs } => {
                self.ffi_call(
                    ffi_funcs,
                    next,
                    host,
                    heap,
                    *func_id,
                    arg_values,
                    ret_value_locs,
                    Ghost(outputs@),
                )
            },
            Insc::ReturnOne { ret_value } => {
                let srcs = vec![*ret_value];
                assert(srcs@ =~= seq![*ret_value]);
                self.do_return(&srcs, outputs)
            },
            Insc::ReturnMultiple { ret_values } => self.do_return(ret_values, outputs),
            Insc::ReturnNothing => {
                let srcs: Vec<u32> = Vec::new();
                assert(srcs@ =~= Seq::<u32>::empty());
                self.do_return(&srcs, outputs)
            },
            Insc::UnreachableInsc => Err(
                TError::unchecked_exception("reached an unreachable instruction".to_string()),
            ),
        }
    }

    /// Executes the instruction at `ip`: exactly `step_spec` for every instruction but a
    /// host call, which moves to the next instruction when it succeeds.
    pub fn step<H: HostFunctions>(
        &mut self,
        program: &CompiledProgram,
        host: &mut H,
        heap: &mut Heap,
        outputs: &mut Vec<Value>,
    ) -> (r: Result<(), TError>)
        requires
            stack_wf(old(self).stack@),
        ensures
            stack_wf(final(self).stack@),
            r is Err ==> final(outputs)@ == old(outputs)@,
            ({
                let m0 = old(self).view_with(old(outputs)@);
                let host_call = 0 <= m0.ip < program.inscs@.len() && !m0.finished
                    && program.inscs@[m0.ip] is FFICall;
                &&& !host_call ==> (r is Ok <==> step_spec(*program, m0) is Some)
                &&& !host_call && r is Ok ==> Some(final(self).view_with(final(outputs)@))
                    == step_spec(*program, m0)
                &&& !host_call ==> *final(heap) == *old(heap)
                &&& host_call ==> final(outputs)@ == old(outputs)@ && ffi_call_post(
                    program.ffi_funcs@,
                    program.inscs@[m0.ip]->FFICall_func_id,
                    program.inscs@[m0.ip]->FFICall_arg_values@,
                    program.inscs@[m0.ip]->FFICall_ret_value_locs@,
                    m0.ip + 1,
                    m0,
                    final(self).view_with(final(outputs)@),
                    *old(heap),
                    *final(heap),
                    *old(host),
                    *final(host),
                    r,
                )
            }),
    {
        if self.finished {
            return Ok(());
        }
        if self.ip >= program.inscs.len() {
            return Err(TError::unchecked_exception("instruction pointer out of range".to_string()));
        }
        let next = self.ip + 1;
        self.exec(&program.inscs[self.ip], next, &program.funcs, &program.ffi_funcs, host, heap, outputs)
    }
}

/// `JumpIfTrue` on a true condition continues at its target, on a false one at the next
/// instruction.
pub proof fn lemma_jump_if_true(p: CompiledProgram, m: MachineView)
    requires
        !m.finished,
        0 <= m.ip < p.inscs@.len(),
        p.inscs@[m.ip] is JumpIfTrue,
        in_frame(m.stack, p.inscs@[m.ip]->JumpIfTrue_cond_value),
        slot(m.stack, p.inscs@[m.ip]->JumpIfTrue_cond_value) is Bool,
    ensures
        slot(m.stack, p.inscs@[m.ip]->JumpIfTrue_cond_value)->Bool_0 ==> step_spec(p, m) == Some(
            MachineView { ip: p.inscs@[m.ip]->JumpIfTrue_jump_dest as int, ..m },
        ),
        !slot(m.stack, p.inscs@[m.ip]->JumpIfTrue_cond_value)->Bool_0 ==> step_spec(p, m) == Some(
            MachineView { ip: m.ip + 1, ..m },
        ),
{
}

/// Integer addition wraps: the largest integer plus one is the smallest.
pub proof fn lemma_int_add_wraps(p: CompiledProgram, m: MachineView)
    requires
        !m.finished,
        0 <= m.ip < p.inscs@.len(),
        p.inscs@[m.ip] is IntAdd,
        int_operands(
            m.stack,
            p.inscs@[m.ip]->IntAdd_lhs_value,
            p.inscs@[m.ip]->IntAdd_rhs_value,
            p.inscs@[m.ip]->IntAdd_dest_value,
        ),
        slot(m.stack, p.inscs@[m.ip]->IntAdd_lhs_value) == Value::Int(i64::MAX),
        slot(m.stack, p.inscs@[m.ip]->IntAdd_rhs_value) == Value::Int(1),
    ensures
        step_spec(p, m) == Some(put(m, m.ip + 1, p.inscs@[m.ip]->IntAdd_dest_value, Value::Int(i64::MIN))),
{
}

/// On equal operands `IntEq` yields true and `IntGt` yields false.
pub proof fn lemma_compare_equal_operands(p: CompiledProgram, m: MachineView)
    requires
        !m.finished,
        0 <= m.ip < p.inscs@.len(),
        match p.inscs@[m.ip] {
            Insc::IntEq { lhs_value, rhs_value, dest_value } | Insc::IntGt {
                lhs_value,
                rhs_value,
                dest_value,
            } => int_operands(m.stack, lhs_value, rhs_value, dest_value) && slot(m.stack, lhs_value)
                == slot(m.stack, rhs_value),
            _ => false,
        },
    ensures
        p.inscs@[m.ip] matches Insc::IntEq { dest_value, .. } ==> step_spec(p, m) == Some(
            put(m, m.ip + 1, dest_value, Value::Bool(true)),
        ),
        p.inscs@[m.ip] matches Insc::IntGt { dest_value, .. } ==> step_spec(p, m) == Some(
            put(m, m.ip + 1, dest_value, Value::Bool(false)),
        ),
{
}

/// `ReturnNothing` at the root frame stops the machine and leaves the outputs alone.
pub proof fn lemma_return_nothing_at_root(p: CompiledProgram, m: MachineView)
    requires
        !m.finished,
        0 <= m.ip < p.inscs@.len(),
        p.inscs@[m.ip] is ReturnNothing,
        m.stack.frames.len() == 1,
    ensures
        step_spec(p, m) matches Some(m1) && m1.finished && m1.outputs == m.outputs && m1.stack
            == m.stack,
{
    assert(Seq::new(m.outputs.len(), |i: int| m.outputs[i]) =~= m.outputs);
}

/// Executing an instruction keeps every frame record below the top, and pushes one frame
/// (a call, recording `next`), pops one (a return from a callee, resuming at its recorded
/// address) or keeps the frames.
proof fn lemma_exec_frames(
    funcs: Seq<CompiledFuncInfo>,
    i: Insc,
    next: int,
    m: MachineView,
    m1: MachineView,
)
    requires
        stack_wf(m.stack),
        !(i is FFICall) ==> exec_spec(funcs, i, next, m) == Some(m1),
        i is FFICall ==> ffi_effect(i->FFICall_ret_value_locs@, next, m, m1),
    ensures
        m1.stack.frames.len() == m.stack.frames.len() + 1 || m1.stack.frames.len()
            == m.stack.frames.len() || m1.stack.frames.len() == m.stack.frames.len() - 1,
        m1.stack.frames.len() == m.stack.frames.len() + 1 ==> top(m1.stack).ret_addr == next,
        m1.stack.frames.len() == m.stack.frames.len() - 1 ==> {
            &&& m.stack.frames.len() > 1
            &&& m1.ip == top(m.stack).ret_addr
        },
        forall|k: int|
            0 <= k < m.stack.frames.len() && k < m1.stack.frames.len() ==> #[trigger] m1.stack.frames[k]
                == m.stack.frames[k],
{
    match i {
        Insc::FuncCall { .. } => {
            assert forall|k: int|
                0 <= k < m.stack.frames.len() && k < m1.stack.frames.len() implies #[trigger] m1.stack.frames[k]
                == m.stack.frames[k] by {
                assert(m1.stack.frames == m.stack.frames.push(top(m1.stack)));
            }
        },
        Insc::ReturnOne { .. } | Insc::ReturnMultiple { .. } | Insc::ReturnNothing => {
            if m.stack.frames.len() > 1 {
                assert forall|k: int|
                    0 <= k < m.stack.frames.len() && k < m1.stack.frames.len() implies #[trigger] m1.stack.frames[k]
                    == m.stack.frames[k] by {
                    assert(m1.stack.frames == m.stack.frames.drop_last());
                }
            }
        },
        _ => {},
    }
}

proof fn lemma_step_frames(p: CompiledProgram, m: MachineView, m1: MachineView)
    requires
        stack_wf(m.stack),
        !m.finished,
        0 <= m.ip < p.inscs@.len(),
        !(p.inscs@[m.ip] is FFICall) ==> step_spec(p, m) == Some(m1),
        p.inscs@[m.ip] is FFICall ==> ffi_effect(
            p.inscs@[m.ip]->FFICall_ret_value_locs@,
            m.ip + 1,
            m,
            m1,
        ),
    ensures
        m1.stack.frames.len() == m.stack.frames.len() + 1 || m1.stack.frames.len()
            == m.stack.frames.len() || m1.stack.frames.len() == m.stack.frames.len() - 1,
        m1.stack.frames.len() == m.stack.frames.len() - 1 ==> {
            &&& m.stack.frames.len() > 1
            &&& m1.ip == top(m.stack).ret_addr
        },
        forall|k: int|
            0 <= k < m.stack.frames.len() && k < m1.stack.frames.len() ==> #[trigger] m1.stack.frames[k]
                == m.stack.frames[k],
{
    lemma_exec_frames(p.funcs@, p.inscs@[m.ip], m.ip + 1, m, m1);
}

#[verifier::spinoff_prover]
proof fn lemma_packed_keeps_frame(
    pp: PackedProgram,
    trace: Seq<MachineView>,
    insts: Seq<(Insc, int)>,
    i: int,
    j: int,
    d: int,
)
    requires
        packed_trace(pp, trace, insts),
        0 <= i <= j < trace.len(),
        0 <= d,
        forall|k: int| i <= k <= j ==> (#[trigger] trace[k]).stack.frames.len() > d,
    ensures
        trace[j].stack.frames[d] == trace[i].stack.frames[d],
    decreases j - i,
{
    if i < j {
        lemma_packed_keeps_frame(pp, trace, insts, i, j - 1, d);
        assert(trace[j - 1].stack.frames.len() > d);
        lemma_exec_frames(pp.funcs@, insts[j - 1].0, insts[j - 1].1, trace[j - 1], trace[j]);
    }
}

/// The same for packed programs: the return that pops a callee's frame resumes at the
/// address of the instruction after the call, host calls or not.
pub proof fn lemma_packed_run_returns_to_caller(
    pp: PackedProgram,
    trace: Seq<MachineView>,
    insts: Seq<(Insc, int)>,
    i: int,
    j: int,
)
    requires
        packed_trace(pp, trace, insts),
        0 <= i < j,
        j + 1 < trace.len(),
        insts[i].0 is FuncCall,
        trace[i + 1].stack.frames.len() == trace[i].stack.frames.len() + 1,
        forall|k: int|
            i + 1 <= k <= j ==> (#[trigger] trace[k]).stack.frames.len() > trace[i].stack.frames.len(),
        trace[j + 1].stack.frames.len() == trace[i].stack.frames.len(),
    ensures
        trace[j + 1].ip == insts[i].1,
{
    let d = trace[i].stack.frames.len() as int;
    lemma_exec_frames(pp.funcs@, insts[i].0, insts[i].1, trace[i], trace[i + 1]);
    assert(trace[i + 1].stack.frames[d] == top(trace[i + 1].stack));
    lemma_packed_keeps_frame(pp, trace, insts, i + 1, j, d);
    assert(trace[j].stack.frames.len() > d);
    lemma_exec_frames(pp.funcs@, insts[j].0, insts[j].1, trace[j], trace[j + 1]);
    assert(trace[j].stack.frames.len() == d + 1);
    assert(top(trace[j].stack) == trace[j].stack.frames[d]);
}

/// Along a run, while the stack stays deeper than `d`, the frame record at depth `d` stays
/// as it is.
#[verifier::spinoff_prover]
#[verifier::rlimit(50)]
proof fn lemma_trace_keeps_frame(p: CompiledProgram, trace: Seq<MachineView>, i: int, j: int, d: int)
    requires
        variant_trace(p, trace),
        0 <= i <= j < trace.len(),
        0 <= d,
        forall|k: int| i <= k <= j ==> (#[trigger] trace[k]).stack.frames.len() > d,
    ensures
        trace[j].stack.frames[d] == trace[i].stack.frames[d],
    decreases j - i,
{
    if i < j {
        lemma_trace_keeps_frame(p, trace, i, j - 1, d);
        let m = trace[j - 1];
        assert(trace[j - 1].stack.frames.len() > d);
        assert(stack_wf(m.stack));
        assert(!m.finished && 0 <= m.ip < p.inscs@.len());
        lemma_step_frames(p, m, trace[j]);
    }
}

/// In a run with or without host calls, a call records the address after it, and the
/// return that pops the callee's frame resumes there: while the callee (or anything it
/// calls) runs, the frame record of the call stays as it was.
pub proof fn lemma_run_returns_to_caller(p: CompiledProgram, trace: Seq<MachineView>, i: int, j: int)
    requires
        variant_trace(p, trace),
        0 <= i < j,
        j + 1 < trace.len(),
        p.inscs@[trace[i].ip] is FuncCall,
        trace[i + 1].stack.frames.len() == trace[i].stack.frames.len() + 1,
        forall|k: int|
            i + 1 <= k <= j ==> (#[trigger] trace[k]).stack.frames.len() > trace[i].stack.frames.len(),
        trace[j + 1].stack.frames.len() == trace[i].stack.frames.len(),
    ensures
        trace[j + 1].ip == trace[i].ip + 1,
{
    let d = trace[i].stack.frames.len() as int;
    assert(!trace[i].finished);
    assert(step_spec(p, trace[i]) == Some(trace[i + 1]));
    assert(top(trace[i + 1].stack).ret_addr == trace[i].ip + 1);
    assert(trace[i + 1].stack.frames[d] == top(trace[i + 1].stack));
    lemma_trace_keeps_frame(p, trace, i + 1, j, d);
    assert(trace[j].stack.frames.len() > d);
    lemma_step_frames(p, trace[j], trace[j + 1]);
    assert(trace[j].stack.frames.len() == d + 1);
    assert(top(trace[j].stack) == trace[j].stack.frames[d]);
}

/// A call records the address of the instruction after it, and the return that pops the
/// callee's frame resumes there.
pub proof fn lemma_call_return_address(
    p: CompiledProgram,
    m: MachineView,
    m2: MachineView,
    srcs: Seq<u32>,
)
    requires
        stack_wf(m.stack),
        !m.finished,
        0 <= m.ip < p.inscs@.len(),
        p.inscs@[m.ip] is FuncCall,
        step_spec(p, m) is Some,
        m2.stack.frames.len() == m.stack.frames.len() + 1,
        top(m2.stack) == top(step_spec(p, m)->Some_0.stack),
        return_step(m2, srcs) is Some,
    ensures
        top(step_spec(p, m)->Some_0.stack).ret_addr == m.ip + 1,
        return_step(m2, srcs)->Some_0.ip == m.ip + 1,
{
}

/// In any run, with host calls or not, a function whose first instruction is
/// `ReturnNothing` returns at once from its root frame and leaves the outputs untouched.
pub proof fn lemma_run_return_nothing_at_root(p: CompiledProgram, trace: Seq<MachineView>)
    requires
        variant_trace(p, trace),
        !trace[0].finished,
        trace[0].stack.frames.len() == 1,
        0 <= trace[0].ip < p.inscs@.len(),
        p.inscs@[trace[0].ip] is ReturnNothing,
        trace.last().finished,
    ensures
        trace.len() == 2,
        trace.last().outputs == trace[0].outputs,
{
    assert(trace.len() >= 2);
    assert(step_spec(p, trace[0]) == Some(trace[1]));
    lemma_return_nothing_at_root(p, trace[0]);
    if trace.len() > 2 {
        assert(!trace[1].finished);
    }
}

proof fn lemma_run_steps_stays(p: CompiledProgram, m: MachineView, n: nat, k: nat)
    requires
        n <= k,
        run_steps(p, m, n) matches Some(m1) && m1.finished,
    ensures
        run_steps(p, m, k) == run_steps(p, m, n),
    decreases k - n,
{
    if n < k {
        lemma_run_steps_stays(p, m, n, (k - 1) as nat);
    }
}

proof fn lemma_run_steps_fault(p: CompiledProgram, m: MachineView, n: nat, k: nat)
    requires
        n <= k,
        run_steps(p, m, n) is None,
    ensures
        run_steps(p, m, k) is None,
    decreases k - n,
{
    if n < k {
        lemma_run_steps_fault(p, m, n, (k - 1) as nat);
    }
}

/// The interpreter's entry points.
pub struct RD93();

impl RD93 {
    /// Runs function `func_id` on `args` for at most `max_steps` instructions, writing
    /// its return values to `outputs`. `Ok(true)` when it returned from its root frame,
    /// `Ok(false)` when the budget ran out first. For a program without host calls the
    /// outcome is `run_steps` exactly.
    pub fn run_func_bounded<H: HostFunctions>(
        program: &CompiledProgram,
        host: &mut H,
        heap: &mut Heap,
        func_id: usize,
        args: &Vec<Value>,
        outputs: &mut Vec<Value>,
        max_steps: u64,
    ) -> (r: Result<bool, TError>)
        requires
            func_id < program.funcs@.len(),
            args@.len() == program.funcs@[func_id as int].arg_count,
            old(outputs)@.len() == program.funcs@[func_id as int].ret_count,
        ensures
            args@.len() > program.funcs@[func_id as int].stack_size ==> r is Err,
            ({
                let m = run_steps(
                    *program,
                    initial_machine(*program, func_id as int, args@, old(outputs)@),
                    max_steps as nat,
                );
                program.no_ffi() && args@.len() <= program.funcs@[func_id as int].stack_size ==> {
                    &&& r is Ok <==> m is Some
                    &&& r matches Ok(done) ==> done == m->Some_0.finished && final(outputs)@
                        == m->Some_0.outputs
                }
            }),
            r matches Ok(done) ==> exists|trace: Seq<MachineView>|
                {
                    &&& #[trigger] variant_trace(*program, trace)
                    &&& trace.len() <= max_steps + 1
                    &&& !done ==> trace.len() == max_steps + 1
                    &&& trace[0] == initial_machine(*program, func_id as int, args@, old(outputs)@)
                    &&& trace.last().finished == done
                    &&& trace.last().outputs == final(outputs)@
                },
            r is Err && args@.len() <= program.funcs@[func_id as int].stack_size ==> exists|
                trace: Seq<MachineView>,
            |
                {
                    &&& #[trigger] variant_trace(*program, trace)
                    &&& trace.len() <= max_steps + 1
                    &&& trace[0] == initial_machine(*program, func_id as int, args@, old(outputs)@)
                    &&& !trace.last().finished
                    &&& trace.last().outputs == final(outputs)@
                    &&& variant_fault(*program, trace.last(), r->Err_0, *final(heap), *final(host))
                },
    {
        let f = program.funcs[func_id];
        if args.len() > f.stack_size as usize {
            return Err(TError::unchecked_exception("arguments exceed the frame".to_string()));
        }
        let mut machine = Machine { ip: f.start_addr as usize, stack: Stack::new(), finished: false };
        machine.stack.ext_func_call_grow_stack(f.stack_size, args);
        let ghost m0 = initial_machine(*program, func_id as int, args@, old(outputs)@);
        assert(machine.view_with(outputs@) == m0);
        let ghost mut trace: Seq<MachineView> = seq![m0];
        let mut n: u64 = 0;
        while n < max_steps && !machine.finished
            invariant
                stack_wf(machine.stack@),
                n <= max_steps,
                m0 == initial_machine(*program, func_id as int, args@, old(outputs)@),
                trace.len() == n + 1,
                trace[0] == m0,
                trace.last() == machine.view_with(outputs@),
                variant_trace(*program, trace),
                program.no_ffi() ==> run_steps(*program, m0, n as nat) == Some(
                    machine.view_with(outputs@),
                ),
            decreases max_steps - n,
        {
            let ghost before = machine.view_with(outputs@);
            let ghost heap_before = *heap;
            let ghost host_before = *host;
            proof {
                if program.no_ffi() && 0 <= before.ip < program.inscs@.len() {
                    assert(!(program.inscs@[before.ip] is FFICall));
                }
            }
            match machine.step(program, host, heap, outputs) {
                Ok(()) => {},
                Err(e) => {
                    proof {
                        if program.no_ffi() {
                            assert(run_steps(*program, m0, (n + 1) as nat) is None);
                            lemma_run_steps_fault(*program, m0, (n + 1) as nat, max_steps as nat);
                        }
                        if 0 <= before.ip < program.inscs@.len() && program.inscs@[before.ip] is FFICall {
                            assert(ffi_call_post(
                                program.ffi_funcs@,
                                program.inscs@[before.ip]->FFICall_func_id,
                                program.inscs@[before.ip]->FFICall_arg_values@,
                                program.inscs@[before.ip]->FFICall_ret_value_locs@,
                                before.ip + 1,
                                before,
                                machine.view_with(outputs@),
                                heap_before,
                                *heap,
                                host_before,
                                *host,
                                Err::<(), TError>(e),
                            ));
                        }
                        assert(variant_fault(*program, trace.last(), e, *heap, *host));
                    }
                    return Err(e);
                },
            }
            proof {
                let t0 = trace;
                trace = trace.push(machine.view_with(outputs@));
                assert forall|k: int| 0 <= k < trace.len() - 1 implies {
                    &&& !(#[trigger] trace[k]).finished
                    &&& 0 <= trace[k].ip < program.inscs@.len()
                    &&& !(program.inscs@[trace[k].ip] is FFICall) ==> step_spec(*program, trace[k])
                        == Some(trace[k + 1])
                    &&& program.inscs@[trace[k].ip] is FFICall ==> ffi_effect(
                        program.inscs@[trace[k].ip]->FFICall_ret_value_locs@,
                        trace[k].ip + 1,
                        trace[k],
                        trace[k + 1],
                    )
                } by {
                    if k < t0.len() - 1 {
                        assert(trace[k] == t0[k]);
                        assert(trace[k + 1] == t0[k + 1]);
                    } else {
                        assert(trace[k] == before);
                    }
                }
                assert forall|k: int| 0 <= k < trace.len() implies stack_wf(
                    #[trigger] trace[k].stack,
                ) by {
                    if k < t0.len() {
                        assert(trace[k] == t0[k]);
                    }
                }
            }
            n = n + 1;
        }
        proof {
            if program.no_ffi() && n < max_steps {
                lemma_run_steps_stays(*program, m0, n as nat, max_steps as nat);
            }
        }
        assert(trace.last().finished == machine.finished);
        Ok(machine.finished)
    }

    /// Runs function `func_id` on `args` until it returns from its root frame, writing its
    /// return values to `outputs`.
    pub fn run_func<H: HostFunctions>(
        program: &CompiledProgram,
        host: &mut H,
        heap: &mut Heap,
        func_id: usize,
        args: &Vec<Value>,
        outputs: &mut Vec<Value>,
    ) -> (r: Result<(), TError>)
        requires
            func_id < program.funcs@.len(),
            args@.len() == program.funcs@[func_id as int].arg_count,
            old(outputs)@.len() == program.funcs@[func_id as int].ret_count,
        ensures
            args@.len() > program.funcs@[func_id as int].stack_size ==> r is Err,
            ({
                let m = run_steps(
                    *program,
                    initial_machine(*program, func_id as int, args@, old(outputs)@),
                    u64::MAX as nat,
                );
                program.no_ffi() && args@.len() <= program.funcs@[func_id as int].stack_size ==> {
                    &&& r is Ok <==> (m is Some && m->Some_0.finished)
                    &&& r is Ok ==> final(outputs)@ == m->Some_0.outputs
                }
            }),
            r is Ok ==> exists|trace: Seq<MachineView>|
                {
                    &&& #[trigger] variant_trace(*program, trace)
                    &&& trace[0] == initial_machine(*program, func_id as int, args@, old(outputs)@)
                    &&& trace.last().finished
                    &&& trace.last().outputs == final(outputs)@
                },
            r is Err && args@.len() <= program.funcs@[func_id as int].stack_size ==> exists|
                trace: Seq<MachineView>,
            |
                {
                    &&& #[trigger] variant_trace(*program, trace)
                    &&& trace[0] == initial_machine(*program, func_id as int, args@, old(outputs)@)
                    &&& !trace.last().finished
                    &&& trace.last().outputs == final(outputs)@
                    &&& (variant_fault(*program, trace.last(), r->Err_0, *final(heap), *final(host))
                        || trace.len() == u64::MAX + 1)
                },
    {
        match RD93::run_func_bounded(program, host, heap, func_id, args, outputs, u64::MAX) {
            Ok(true) => Ok(()),
            Ok(false) => Err(TError::unchecked_exception("step budget exhausted".to_string())),
            Err(e) => Err(e),
        }
    }
}

/// Instructions with the same operands execute alike.
proof fn lemma_same_insc_exec(
    funcs: Seq<CompiledFuncInfo>,
    a: Insc,
    b: Insc,
    next: int,
    m: MachineView,
)
    requires
        same_insc(a, b),
    ensures
        exec_spec(funcs, a, next, m) == exec_spec(funcs, b, next, m),
{
}

/// The instruction encoded at `pos`, with its successor's address.
pub open spec fn packed_decode(b: Seq<u8>, pos: int) -> Option<(Insc, int)> {
    if exists|i: Insc, next: int| decodes_at(b, pos, i, next) {
        Some(choose|i: Insc, next: int| decodes_at(b, pos, i, next))
    } else {
        None
    }
}

/// One step of a packed program: decode at the instruction pointer, then execute.
pub open spec fn packed_step_spec(pp: PackedProgram, m: MachineView) -> Option<MachineView> {
    if m.finished {
        Some(m)
    } else {
        match packed_decode(pp.inscs@, m.ip) {
            Some((i, next)) => exec_spec(pp.funcs@, i, next, m),
            None => None,
        }
    }
}

/// `n` steps of a packed program from `m`, or `None` if one of them faults.
pub open spec fn packed_run_steps(pp: PackedProgram, m: MachineView, n: nat) -> Option<MachineView>
    decreases n,
{
    if n == 0 {
        Some(m)
    } else {
        match packed_run_steps(pp, m, (n - 1) as nat) {
            Some(m1) => packed_step_spec(pp, m1),
            None => None,
        }
    }
}

/// True when no instruction of the packed program calls a host routine.
pub open spec fn packed_no_ffi(pp: PackedProgram) -> bool {
    forall|pos: int, i: Insc, next: int|
        #[trigger] decodes_at(pp.inscs@, pos, i, next) ==> !(i is FFICall)
}

proof fn lemma_packed_stays(pp: PackedProgram, m: MachineView, n: nat, k: nat)
    requires
        n <= k,
        packed_run_steps(pp, m, n) matches Some(m1) && m1.finished,
    ensures
        packed_run_steps(pp, m, k) == packed_run_steps(pp, m, n),
    decreases k - n,
{
    if n < k {
        lemma_packed_stays(pp, m, n, (k - 1) as nat);
    }
}

proof fn lemma_packed_fault(pp: PackedProgram, m: MachineView, n: nat, k: nat)
    requires
        n <= k,
        packed_run_steps(pp, m, n) is None,
    ensures
        packed_run_steps(pp, m, k) is None,
    decreases k - n,
{
    if n < k {
        lemma_packed_fault(pp, m, n, (k - 1) as nat);
    }
}

/// A run of the packed program `pp`: `insts[k]` is the instruction decoded at the address
/// of `trace[k]` with its successor's address, and `trace[k + 1]` is what executing it
/// gives (for a host call: the next address, with the outputs unchanged).
pub open spec fn packed_trace(
    pp: PackedProgram,
    trace: Seq<MachineView>,
    insts: Seq<(Insc, int)>,
) -> bool {
    &&& trace.len() == insts.len() + 1
    &&& forall|k: int| 0 <= k < trace.len() ==> stack_wf(#[trigger] trace[k].stack)
    &&& forall|k: int|
        0 <= k < insts.len() ==> {
            &&& decodes_at(pp.inscs@, (#[trigger] trace[k]).ip, insts[k].0, insts[k].1)
            &&& !trace[k].finished
            &&& !(insts[k].0 is FFICall) ==> exec_spec(pp.funcs@, insts[k].0, insts[k].1, trace[k])
                == Some(trace[k + 1])
            &&& insts[k].0 is FFICall ==> ffi_effect(
                insts[k].0->FFICall_ret_value_locs@,
                insts[k].1,
                trace[k],
                trace[k + 1],
            )
        }
}

/// The interpreter of the packed form.
pub struct R15_300();

impl R15_300 {
    /// Runs function `func_id` of a packed program on `args` for at most `max_steps`
    /// instructions, decoding each instruction where the instruction pointer stands.
    /// `Ok(true)` when it returned from its root frame, `Ok(false)` when the budget ran
    /// out first; either way the run is a `packed_trace` from the entry of the function.
    pub fn run_func_bounded<H: HostFunctions>(
        program: &PackedProgram,
        host: &mut H,
        heap: &mut Heap,
        func_id: usize,
        args: &Vec<Value>,
        outputs: &mut Vec<Value>,
        max_steps: u64,
    ) -> (r: Result<bool, TError>)
        requires
            func_id < program.funcs@.len(),
            args@.len() == program.funcs@[func_id as int].arg_count,
            old(outputs)@.len() == program.funcs@[func_id as int].ret_count,
        ensures
            args@.len() > program.funcs@[func_id as int].stack_size ==> r is Err,
            ({
                let m = packed_run_steps(
                    *program,
                    MachineView {
                        ip: program.funcs@[func_id as int].start_addr as int,
                        stack: enter_spec(program.funcs@[func_id as int].stack_size as nat, args@),
                        outputs: old(outputs)@,
                        finished: false,
                    },
                    max_steps as nat,
                );
                packed_no_ffi(*program) && args@.len() <= program.funcs@[func_id as int].stack_size
                    ==> {
                    &&& r is Ok <==> m is Some
                    &&& r matches Ok(done) ==> done == m->Some_0.finished && final(outputs)@
                        == m->Some_0.outputs
                }
            }),
            r matches Ok(done) ==> exists|trace: Seq<MachineView>, insts: Seq<(Insc, int)>|
                {
                    &&& #[trigger] packed_trace(*program, trace, insts)
                    &&& insts.len() <= max_steps
                    &&& !done ==> insts.len() == max_steps
                    &&& trace[0] == (MachineView {
                        ip: program.funcs@[func_id as int].start_addr as int,
                        stack: enter_spec(program.funcs@[func_id as int].stack_size as nat, args@),
                        outputs: old(outputs)@,
                        finished: false,
                    })
                    &&& trace.last().finished == done
                    &&& trace.last().outputs == final(outputs)@
                },
            r is Err && args@.len() <= program.funcs@[func_id as int].stack_size ==> exists|
                trace: Seq<MachineView>,
                insts: Seq<(Insc, int)>,
            |
                {
                    &&& #[trigger] packed_trace(*program, trace, insts)
                    &&& insts.len() <= max_steps
                    &&& trace[0] == (MachineView {
                        ip: program.funcs@[func_id as int].start_addr as int,
                        stack: enter_spec(program.funcs@[func_id as int].stack_size as nat, args@),
                        outputs: old(outputs)@,
                        finished: false,
                    })
                    &&& !trace.last().finished
                    &&& trace.last().outputs == final(outputs)@
                    &&& packed_fault(*program, trace.last(), r->Err_0, *final(heap), *final(host))
                },
    {
        let f = program.funcs[func_id];
        if args.len() > f.stack_size as usize {
            return Err(TError::unchecked_exception("arguments exceed the frame".to_string()));
        }
        let mut machine = Machine { ip: f.start_addr as usize, stack: Stack::new(), finished: false };
        machine.stack.ext_func_call_grow_stack(f.stack_size, args);
        let ghost mut trace: Seq<MachineView> = seq![machine.view_with(outputs@)];
        let ghost mut insts: Seq<(Insc, int)> = Seq::empty();
        let ghost m0 = machine.view_with(outputs@);
        let mut n: u64 = 0;
        while n < max_steps && !machine.finished
            invariant
                stack_wf(machine.stack@),
                n <= max_steps,
                insts.len() == n,
                packed_trace(*program, trace, insts),
                trace[0] == m0,
                trace.last() == machine.view_with(outputs@),
                m0 == (MachineView {
                    ip: program.funcs@[func_id as int].start_addr as int,
                    stack: enter_spec(program.funcs@[func_id as int].stack_size as nat, args@),
                    outputs: old(outputs)@,
                    finished: false,
                }),
                packed_no_ffi(*program) ==> packed_run_steps(*program, m0, n as nat) == Some(
                    machine.view_with(outputs@),
                ),
            decreases max_steps - n,
        {
            let ghost before = machine.view_with(outputs@);
            let ghost heap_before = *heap;
            let ghost host_before = *host;
            let (insc, next) = match program.inscs.read_insc(machine.ip) {
                Some(d) => d,
                None => {
                    proof {
                        assert(packed_decode(program.inscs@, before.ip) is None);
                        if packed_no_ffi(*program) {
                            assert(packed_run_steps(*program, m0, (n + 1) as nat) is None);
                            lemma_packed_fault(*program, m0, (n + 1) as nat, max_steps as nat);
                        }
                    }
                    return Err(TError::unchecked_exception("no instruction at this address".to_string()));
                },
            };
            let ghost i2: Insc;
            proof {
                assert(decodes_at(program.inscs@, before.ip, insc, next as int));
                let (j2, n2) = choose|i: Insc, nx: int| decodes_at(program.inscs@, before.ip, i, nx);
                i2 = j2;
                lemma_decode_unique(program.inscs@, before.ip, insc, next as int, i2, n2);
                lemma_same_insc_exec(program.funcs@, insc, i2, next as int, before);
                assert(packed_step_spec(*program, before) == exec_spec(
                    program.funcs@,
                    insc,
                    next as int,
                    before,
                ));
            }
            match machine.exec(
                &insc,
                next,
                &program.funcs,
                &program.ffi_funcs,
                host,
                heap,
                outputs,
            ) {
                Ok(()) => {},
                Err(e) => {
                    proof {
                        if packed_no_ffi(*program) {
                            assert(packed_run_steps(*program, m0, (n + 1) as nat) is None);
                            lemma_packed_fault(*program, m0, (n + 1) as nat, max_steps as nat);
                        }
                        if insc is FFICall {
                            assert(i2 is FFICall);
                            assert(ffi_call_post(
                                program.ffi_funcs@,
                                i2->FFICall_func_id,
                                i2->FFICall_arg_values@,
                                i2->FFICall_ret_value_locs@,
                                next as int,
                                before,
                                machine.view_with(outputs@),
                                heap_before,
                                *heap,
                                host_before,
                                *host,
                                Err::<(), TError>(e),
                            ));
                        }
                        assert(packed_fault(*program, trace.last(), e, *heap, *host));
                    }
                    return Err(e);
                },
            }
            proof {
                let t0 = trace;
                let i0 = insts;
                trace = trace.push(machine.view_with(outputs@));
                insts = insts.push((insc, next as int));
                assert forall|k: int| 0 <= k < insts.len() implies {
                    &&& decodes_at(program.inscs@, (#[trigger] trace[k]).ip, insts[k].0, insts[k].1)
                    &&& !trace[k].finished
                    &&& !(insts[k].0 is FFICall) ==> exec_spec(
                        program.funcs@,
                        insts[k].0,
                        insts[k].1,
                        trace[k],
                    ) == Some(trace[k + 1])
                    &&& insts[k].0 is FFICall ==> ffi_effect(
                        insts[k].0->FFICall_ret_value_locs@,
                        insts[k].1,
                        trace[k],
                        trace[k + 1],
                    )
                } by {
                    if k < i0.len() {
                        assert(trace[k] == t0[k]);
                        assert(trace[k + 1] == t0[k + 1]);
                        assert(insts[k] == i0[k]);
                    }
                }
                assert forall|k: int| 0 <= k < trace.len() implies stack_wf(
                    #[trigger] trace[k].stack,
                ) by {
                    if k < t0.len() {
                        assert(trace[k] == t0[k]);
                    }
                }
            }
            n = n + 1;
        }
        assert(trace.last().finished == machine.finished);
        proof {
            if packed_no_ffi(*program) && n < max_steps {
                lemma_packed_stays(*program, m0, n as nat, max_steps as nat);
            }
        }
        Ok(machine.finished)
    }

    /// Runs function `func_id` of a packed program on `args` until it returns from its
    /// root frame, writing its return values to `outputs`.
    pub fn run_func<H: HostFunctions>(
        program: &PackedProgram,
        host: &mut H,
        heap: &mut Heap,
        func_id: usize,
        args: &Vec<Value>,
        outputs: &mut Vec<Value>,
    ) -> (r: Result<(), TError>)
        requires
            func_id < program.funcs@.len(),
            args@.len() == program.funcs@[func_id as int].arg_count,
            old(outputs)@.len() == program.funcs@[func_id as int].ret_count,
        ensures
            args@.len() > program.funcs@[func_id as int].stack_size ==> r is Err,
            ({
                let m = packed_run_steps(
                    *program,
                    MachineView {
                        ip: program.funcs@[func_id as int].start_addr as int,
                        stack: enter_spec(program.funcs@[func_id as int].stack_size as nat, args@),
                        outputs: old(outputs)@,
                        finished: false,
                    },
                    u64::MAX as nat,
                );
                packed_no_ffi(*program) && args@.len() <= program.funcs@[func_id as int].stack_size
                    ==> {
                    &&& r is Ok <==> (m is Some && m->Some_0.finished)
                    &&& r is Ok ==> final(outputs)@ == m->Some_0.outputs
                }
            }),
            r is Ok ==> exists|trace: Seq<MachineView>, insts: Seq<(Insc, int)>|
                {
                    &&& #[trigger] packed_trace(*program, trace, insts)
                    &&& trace[0] == (MachineView {
                        ip: program.funcs@[func_id as int].start_addr as int,
                        stack: enter_spec(program.funcs@[func_id as int].stack_size as nat, args@),
                        outputs: old(outputs)@,
                        finished: false,
                    })
                    &&& trace.last().finished
                    &&& trace.last().outputs == final(outputs)@
                },
            r is Err && args@.len() <= program.funcs@[func_id as int].stack_size ==> exists|
                trace: Seq<MachineView>,
                insts: Seq<(Insc, int)>,
            |
                {
                    &&& #[trigger] packed_trace(*program, trace, insts)
                    &&& trace[0] == (MachineView {
                        ip: program.funcs@[func_id as int].start_addr as int,
                        stack: enter_spec(program.funcs@[func_id as int].stack_size as nat, args@),
                        outputs: old(outputs)@,
                        finished: false,
                    })
                    &&& !trace.last().finished
                    &&& trace.last().outputs == final(outputs)@
                    &&& (packed_fault(*program, trace.last(), r->Err_0, *final(heap), *final(host))
                        || insts.len() == u64::MAX)
                },
    {
        match R15_300::run_func_bounded(program, host, heap, func_id, args, outputs, u64::MAX) {
            Ok(true) => Ok(()),
            Ok(false) => Err(TError::unchecked_exception("step budget exhausted".to_string())),
            Err(e) => Err(e),
        }
    }
}

} // verus!
