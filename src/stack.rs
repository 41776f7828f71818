//! The value stack: one contiguous vector of slots cut into frames, and the call and
//! return protocol between them.

use vstd::prelude::*;

use crate::error::TError;
use crate::value::Value;

verus! {

/// One activation record.
pub struct FrameInfo {
    pub frame_start: u32,
    pub frame_end: u32,
    /// Caller slots that receive this frame's return values.
    pub ret_value_locs: Vec<u32>,
    /// Where the caller resumes.
    pub ret_addr: u32,
}

/// The model of a frame.
pub struct FrameView {
    pub start: int,
    pub end: int,
    pub ret_locs: Seq<u32>,
    pub ret_addr: u32,
}

impl View for FrameInfo {
    type V = FrameView;

    open spec fn view(&self) -> FrameView {
        FrameView {
            start: self.frame_start as int,
            end: self.frame_end as int,
            ret_locs: self.ret_value_locs@,
            ret_addr: self.ret_addr,
        }
    }
}

impl FrameInfo {
    pub fn new(frame_start: u32, frame_end: u32, ret_value_locs: Vec<u32>, ret_addr: u32) -> (r:
        FrameInfo)
        ensures
            r@ == (FrameView {
                start: frame_start as int,
                end: frame_end as int,
                ret_locs: ret_value_locs@,
                ret_addr,
            }),
    {
        FrameInfo { frame_start, frame_end, ret_value_locs, ret_addr }
    }
}

/// The model of a stack: its slots and its frames, innermost last.
pub struct StackView {
    pub values: Seq<Value>,
    pub frames: Seq<FrameView>,
}

/// Frames partition the slots: the first starts at 0, each ends where the next starts,
/// and the last ends at the top.
pub open spec fn stack_wf(s: StackView) -> bool {
    &&& s.frames.len() >= 1
    &&& s.frames[0].start == 0
    &&& forall|i: int|
        0 <= i < s.frames.len() ==> 0 <= (#[trigger] s.frames[i]).start <= s.frames[i].end
    &&& forall|i: int|
        0 <= i < s.frames.len() - 1 ==> (#[trigger] s.frames[i]).end == s.frames[i + 1].start
    &&& s.frames.last().end == s.values.len()
    &&& s.values.len() <= u32::MAX
}

/// The innermost frame.
pub open spec fn top(s: StackView) -> FrameView {
    s.frames.last()
}

/// The stack after entering a root frame of `frame_size` slots holding `args` first.
pub open spec fn enter_spec(frame_size: nat, args: Seq<Value>) -> StackView {
    StackView {
        values: Seq::new(
            frame_size,
            |k: int|
                if k < args.len() {
                    args[k]
                } else {
                    Value::Null
                },
        ),
        frames: seq![FrameView { start: 0, end: frame_size as int, ret_locs: Seq::empty(), ret_addr: 0 }],
    }
}

/// Whether a call may grow the stack: the argument slots lie in the current frame, the
/// arguments fit in the new frame, and the stack stays addressable.
pub open spec fn call_ok(s: StackView, frame_size: nat, arg_locs: Seq<u32>) -> bool {
    &&& arg_locs.len() <= frame_size
    &&& forall|k: int| 0 <= k < arg_locs.len() ==> (#[trigger] arg_locs[k]) < top(s).end - top(s).start
    &&& s.values.len() + frame_size <= u32::MAX
}

/// The stack after a call: a new frame whose first slots are copies of the caller's
/// argument slots, the rest null.
pub open spec fn call_spec(
    s: StackView,
    frame_size: nat,
    arg_locs: Seq<u32>,
    ret_locs: Seq<u32>,
    ret_addr: u32,
) -> StackView {
    StackView {
        values: s.values + Seq::new(
            frame_size,
            |k: int|
                if k < arg_locs.len() {
                    s.values[top(s).start + arg_locs[k]]
                } else {
                    Value::Null
                },
        ),
        frames: s.frames.push(
            FrameView {
                start: s.values.len() as int,
                end: (s.values.len() + frame_size) as int,
                ret_locs,
                ret_addr,
            },
        ),
    }
}

/// Whether a return from the innermost (non-root) frame is well formed: one source slot
/// per destination, sources in the returning frame, destinations in the caller's frame.
pub open spec fn return_ok(s: StackView, srcs: Seq<u32>) -> bool {
    let cur = top(s);
    let prev = s.frames[s.frames.len() - 2];
    &&& srcs.len() == cur.ret_locs.len()
    &&& forall|k: int| 0 <= k < srcs.len() ==> (#[trigger] srcs[k]) < cur.end - cur.start
    &&& forall|k: int| 0 <= k < srcs.len() ==> (#[trigger] cur.ret_locs[k]) < prev.end - prev.start
}

/// The caller's slots after the first `n` return values have been written back.
pub open spec fn write_back(s: StackView, srcs: Seq<u32>, n: nat) -> Seq<Value>
    decreases n,
{
    let cur = top(s);
    let prev = s.frames[s.frames.len() - 2];
    if n == 0 {
        s.values.subrange(0, cur.start)
    } else {
        write_back(s, srcs, (n - 1) as nat).update(
            prev.start + cur.ret_locs[n - 1],
            s.values[cur.start + srcs[n - 1]],
        )
    }
}

/// The stack after returning from the innermost frame.
pub open spec fn return_spec(s: StackView, srcs: Seq<u32>) -> StackView {
    StackView { values: write_back(s, srcs, srcs.len()), frames: s.frames.drop_last() }
}

pub struct Stack {
    pub values: Vec<Value>,
    pub frames: Vec<FrameInfo>,
}

impl View for Stack {
    type V = StackView;

    open spec fn view(&self) -> StackView {
        StackView { values: self.values@, frames: self.frames@.map_values(|f: FrameInfo| f@) }
    }
}

impl Stack {
    pub fn new() -> (r: Stack)
        ensures
            r@.values.len() == 0,
            r@.frames.len() == 0,
    {
        Stack { values: Vec::new(), frames: Vec::new() }
    }

    /// Enters the root frame on an empty stack.
    pub fn ext_func_call_grow_stack(&mut self, frame_size: u32, args: &Vec<Value>)
        requires
            old(self)@.values.len() == 0,
            old(self)@.frames.len() == 0,
            args@.len() <= frame_size,
        ensures
            final(self)@ == enter_spec(frame_size as nat, args@),
            stack_wf(final(self)@),
    {
        let mut k: u32 = 0;
        while k < frame_size
            invariant
                k <= frame_size,
                args@.len() <= frame_size,
                self.values@.len() == k,
                self.frames@.len() == 0,
                forall|j: int|
                    0 <= j < k ==> #[trigger] self.values@[j] == (if j < args@.len() {
                        args@[j]
                    } else {
                        Value::Null
                    }),
            decreases frame_size - k,
        {
            if (k as usize) < args.len() {
                self.values.push(args[k as usize]);
            } else {
                self.values.push(Value::Null);
            }
            k = k + 1;
        }
        self.frames.push(FrameInfo::new(0, frame_size, Vec::new(), 0));
        assert(self@.values =~= enter_spec(frame_size as nat, args@).values);
        assert(self@.frames =~= enter_spec(frame_size as nat, args@).frames);
    }

    /// Reads slot `idx` of the innermost frame.
    pub fn get_value(&self, idx: u32) -> (r: Option<Value>)
        requires
            stack_wf(self@),
        ensures
            r == (if idx < top(self@).end - top(self@).start {
                Some(self@.values[top(self@).start + idx])
            } else {
                None::<Value>
            }),
    {
        let n = self.frames.len();
        let start = self.frames[n - 1].frame_start;
        let end = self.frames[n - 1].frame_end;
        if idx < end - start {
            Some(self.values[(start + idx) as usize])
        } else {
            None
        }
    }

    /// Writes slot `idx` of the innermost frame; false, with nothing written, when the
    /// slot lies outside it.
    pub fn set_value(&mut self, idx: u32, v: Value) -> (r: bool)
        requires
            stack_wf(old(self)@),
        ensures
            r == (idx < top(old(self)@).end - top(old(self)@).start),
            r ==> final(self)@ == (StackView {
                values: old(self)@.values.update(top(old(self)@).start + idx, v),
                frames: old(self)@.frames,
            }),
            !r ==> final(self)@ == old(self)@,
            stack_wf(final(self)@),
    {
        let n = self.frames.len();
        let start = self.frames[n - 1].frame_start;
        let end = self.frames[n - 1].frame_end;
        if idx < end - start {
            self.values[(start + idx) as usize] = v;
            true
        } else {
            false
        }
    }

    /// Pushes a frame of `frame_size` slots for a call, copying the arguments from the
    /// caller's slots `arg_locs`; false, with nothing changed, when `call_ok` fails.
    pub fn func_call_grow_stack(
        &mut self,
        frame_size: u32,
        arg_locs: &Vec<u32>,
        ret_value_locs: Vec<u32>,
        ret_addr: u32,
    ) -> (r: bool)
        requires
            stack_wf(old(self)@),
        ensures
            r == call_ok(old(self)@, frame_size as nat, arg_locs@),
            r ==> final(self)@ == call_spec(
                old(self)@,
                frame_size as nat,
                arg_locs@,
                ret_value_locs@,
                ret_addr,
            ),
            !r ==> final(self)@ == old(self)@,
            stack_wf(final(self)@),
    {
        let n = self.frames.len();
        let start = self.frames[n - 1].frame_start;
        let end = self.frames[n - 1].frame_end;
        assert(top(self@).start <= top(self@).end);
        if arg_locs.len() > frame_size as usize {
            return false;
        }
        if frame_size > u32::MAX - end {
            return false;
        }
        let mut j: usize = 0;
        while j < arg_locs.len()
            invariant
                self@ == old(self)@,
                stack_wf(old(self)@),
                start == top(old(self)@).start,
                end == top(old(self)@).end,
                arg_locs@.len() <= frame_size,
                frame_size <= u32::MAX - end,
                0 <= j <= arg_locs@.len(),
                forall|k: int| 0 <= k < j ==> (#[trigger] arg_locs@[k]) < end - start,
            decreases arg_locs.len() - j,
        {
            if arg_locs[j] >= end - start {
                assert(!(arg_locs@[j as int] < top(old(self)@).end - top(old(self)@).start));
                return false;
            }
            j = j + 1;
        }
        let ghost s0 = self@;
        let new_end = end + frame_size;
        let mut k: u32 = 0;
        while k < frame_size
            invariant
                s0 == old(self)@,
                stack_wf(s0),
                start == top(s0).start,
                end == top(s0).end,
                self.frames@ == old(self).frames@,
                call_ok(s0, frame_size as nat, arg_locs@),
                k <= frame_size,
                self.values@.len() == end + k,
                self.values@.subrange(0, end as int) == s0.values,
                forall|j: int|
                    end <= j < end + k ==> #[trigger] self.values@[j] == (if j - end
                        < arg_locs@.len() {
                        s0.values[start + arg_locs@[j - end]]
                    } else {
                        Value::Null
                    }),
            decreases frame_size - k,
        {
            let v = if (k as usize) < arg_locs.len() {
                let src = arg_locs[k as usize];
                assert(src < end - start);
                self.values[(start + src) as usize]
            } else {
                Value::Null
            };
            self.values.push(v);
            k = k + 1;
            assert(self.values@.subrange(0, end as int) =~= s0.values);
        }
        self.frames.push(FrameInfo::new(end, new_end, ret_value_locs, ret_addr));
        proof {
            let t = call_spec(s0, frame_size as nat, arg_locs@, ret_value_locs@, ret_addr);
            assert(self@.values =~= t.values) by {
                assert forall|j: int| 0 <= j < t.values.len() implies self@.values[j]
                    == t.values[j] by {
                    if j < end {
                        assert(self.values@.subrange(0, end as int)[j] == s0.values[j]);
                    }
                }
            }
            assert(self@.frames =~= t.frames);
        }
        true
    }

    /// Returns from the innermost frame: copies the values in slots `ret_values` to the
    /// caller's destinations, pops the frame and gives the caller's resume address.
    /// `Ok(None)`, with nothing changed, at the root frame; an error, with nothing
    /// changed, when `return_ok` fails.
    pub fn done_func_call_shrink_stack(&mut self, ret_values: &Vec<u32>) -> (r: Result<
        Option<u32>,
        TError,
    >)
        requires
            stack_wf(old(self)@),
        ensures
            old(self)@.frames.len() == 1 ==> r == Ok::<Option<u32>, TError>(None)
                && final(self)@ == old(self)@,
            old(self)@.frames.len() > 1 ==> (r is Ok <==> return_ok(old(self)@, ret_values@)),
            old(self)@.frames.len() > 1 && r is Ok ==> {
                &&& r == Ok::<Option<u32>, TError>(Some(top(old(self)@).ret_addr))
                &&& final(self)@ == return_spec(old(self)@, ret_values@)
            },
            r is Err ==> final(self)@ == old(self)@,
            stack_wf(final(self)@),
    {
        let n = self.frames.len();
        if n == 1 {
            return Ok(None);
        }
        let ghost s0 = self@;
        let cur_start = self.frames[n - 1].frame_start;
        let cur_end = self.frames[n - 1].frame_end;
        let prev_start = self.frames[n - 2].frame_start;
        let prev_end = self.frames[n - 2].frame_end;
        assert(s0.frames[n - 2].end == s0.frames[n - 1].start);
        assert(s0.frames[n - 2].start <= s0.frames[n - 2].end);
        assert(self.frames@[n - 1]@.ret_locs == top(s0).ret_locs);
        assert(top(s0).start <= top(s0).end);
        if ret_values.len() != self.frames[n - 1].ret_value_locs.len() {
            return Err(TError::unchecked_exception("return value count mismatch".to_string()));
        }
        let mut j: usize = 0;
        while j < ret_values.len()
            invariant
                s0 == self@,
                s0 == old(self)@,
                stack_wf(s0),
                n == s0.frames.len(),
                n >= 2,
                cur_start <= cur_end,
                prev_start <= prev_end,
                self.frames@[n - 1]@.ret_locs == top(s0).ret_locs,
                cur_start == top(s0).start,
                cur_end == top(s0).end,
                prev_start == s0.frames[n - 2].start,
                prev_end == s0.frames[n - 2].end,
                ret_values@.len() == top(s0).ret_locs.len(),
                0 <= j <= ret_values@.len(),
                forall|k: int| 0 <= k < j ==> (#[trigger] ret_values@[k]) < cur_end - cur_start,
                forall|k: int|
                    0 <= k < j ==> (#[trigger] top(s0).ret_locs[k]) < prev_end - prev_start,
            decreases ret_values.len() - j,
        {
            if ret_values[j] >= cur_end - cur_start {
                return Err(TError::unchecked_exception("return slot out of frame".to_string()));
            }
            if self.frames[n - 1].ret_value_locs[j] >= prev_end - prev_start {
                return Err(TError::unchecked_exception("return destination out of frame".to_string()));
            }
            j = j + 1;
        }
        assert(return_ok(s0, ret_values@));
        let mut k: usize = 0;
        while k < ret_values.len()
            invariant
                s0 == old(self)@,
                n == s0.frames.len(),
                n >= 2,
                stack_wf(s0),
                return_ok(s0, ret_values@),
                cur_start == top(s0).start,
                cur_end == top(s0).end,
                prev_start == s0.frames[n - 2].start,
                prev_end == s0.frames[n - 2].end,
                self.frames@ == old(self).frames@,
                0 <= k <= ret_values@.len(),
                self.values@.len() == s0.values.len(),
                self.values@.subrange(0, cur_start as int) == write_back(s0, ret_values@, k as nat),
                self.values@.subrange(cur_start as int, s0.values.len() as int)
                    == s0.values.subrange(cur_start as int, s0.values.len() as int),
            decreases ret_values.len() - k,
        {
            let src = ret_values[k];
            let dst = self.frames[n - 1].ret_value_locs[k];
            assert(self.frames@[n - 1]@.ret_locs == top(s0).ret_locs);
            assert(top(s0).ret_locs[k as int] < prev_end - prev_start);
            assert(dst < prev_end - prev_start);
            assert(self.values@.subrange(cur_start as int, s0.values.len() as int)[src as int]
                == s0.values[cur_start + src]);
            let v = self.values[(cur_start + src) as usize];
            let ghost before = self.values@;
            self.values[(prev_start + dst) as usize] = v;
            k = k + 1;
            assert(self.values@.subrange(0, cur_start as int) =~= write_back(
                s0,
                ret_values@,
                k as nat,
            ));
            assert(self.values@.subrange(cur_start as int, s0.values.len() as int)
                =~= before.subrange(cur_start as int, s0.values.len() as int));
        }
        let ret_addr = self.frames[n - 1].ret_addr;
        self.values.truncate(cur_start as usize);
        self.frames.pop();
        proof {
            let t = return_spec(s0, ret_values@);
            assert(self@.values =~= t.values);
            assert(self@.frames =~= t.frames);
        }
        Ok(Some(ret_addr))
    }
}

proof fn lemma_write_back_keeps(s: StackView, srcs: Seq<u32>, n: nat)
    requires
        s.frames.len() >= 2,
        0 <= top(s).start <= s.values.len(),
        0 <= s.frames[s.frames.len() - 2].start,
        n <= srcs.len(),
        n <= top(s).ret_locs.len(),
        forall|k: int|
            0 <= k < n ==> s.frames[s.frames.len() - 2].start + (#[trigger] top(s).ret_locs[k])
                < top(s).start,
    ensures
        write_back(s, srcs, n).len() == top(s).start,
        forall|j: int|
            0 <= j < top(s).start && (forall|k: int|
                0 <= k < n ==> j != s.frames[s.frames.len() - 2].start + #[trigger] top(
                    s,
                ).ret_locs[k]) ==> #[trigger] write_back(s, srcs, n)[j] == s.values[j],
    decreases n,
{
    if n > 0 {
        lemma_write_back_keeps(s, srcs, (n - 1) as nat);
    }
}

/// A call followed by its matching return restores the caller's frames, leaves every
/// slot below the callee as it was except the caller's return destinations, and hands
/// back the return address recorded by the call.
pub proof fn lemma_call_then_return(
    s: StackView,
    frame_size: nat,
    arg_locs: Seq<u32>,
    ret_locs: Seq<u32>,
    ret_addr: u32,
    srcs: Seq<u32>,
)
    requires
        stack_wf(s),
        call_ok(s, frame_size, arg_locs),
        return_ok(call_spec(s, frame_size, arg_locs, ret_locs, ret_addr), srcs),
    ensures
        ({
            let s1 = call_spec(s, frame_size, arg_locs, ret_locs, ret_addr);
            let s2 = return_spec(s1, srcs);
            &&& stack_wf(s1)
            &&& top(s1).ret_addr == ret_addr
            &&& s2.frames == s.frames
            &&& s2.values.len() == s.values.len()
            &&& forall|j: int|
                0 <= j < s.values.len() && (forall|k: int|
                    0 <= k < ret_locs.len() ==> j != top(s).start + #[trigger] ret_locs[k])
                    ==> #[trigger] s2.values[j] == s.values[j]
        }),
{
    let s1 = call_spec(s, frame_size, arg_locs, ret_locs, ret_addr);
    let s2 = return_spec(s1, srcs);
    assert(s1.frames.drop_last() =~= s.frames);
    assert(s1.frames[s1.frames.len() - 2] == top(s));
    assert forall|i: int| 0 <= i < s1.frames.len() - 1 implies (#[trigger] s1.frames[i]).end
        == s1.frames[i + 1].start by {
        if i < s.frames.len() - 1 {
            assert(s.frames[i].end == s.frames[i + 1].start);
        }
    }
    assert(top(s).start <= top(s).end);
    lemma_write_back_keeps(s1, srcs, srcs.len());
    assert forall|j: int|
        0 <= j < s.values.len() && (forall|k: int|
            0 <= k < ret_locs.len() ==> j != top(s).start + #[trigger] ret_locs[k]) implies #[trigger] s2.values[j]
        == s.values[j] by {
        assert(s1.values[j] == s.values[j]);
    }
}

} // verus!
