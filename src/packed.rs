//! The packed instruction form: an 8-byte-aligned little-endian byte buffer and the
//! opcode numbering of its instructions.

use vstd::prelude::*;

use crate::program::{CompiledFuncInfo, HostFunctionInfo, Insc};

verus! {

/// The first byte of a packed instruction.
#[derive(Clone, Copy, PartialEq, Eq, Structural, Debug)]
pub enum OpCode {
    /// `[op][pad:3][dest:4][value:8]`
    MakeIntConst,
    /// `[op][pad:3][dest:4][lhs:4][rhs:4]`
    IntAdd,
    IntSub,
    IntEq,
    IntGt,
    /// `[op][pad:3][slot:4]`
    Incr,
    /// `[op][pad:3][cond:4][dest:4][pad:4]`
    JumpIfTrue,
    /// `[op][pad:3][dest:4]`
    Jump,
    /// `[op][args:1][rets:1][pad_len:1][func:4][arg slots:4*args][ret slots:4*rets][padding]`
    FuncCall,
    FFICall,
    /// `[op][pad:3][slot:4]`
    ReturnOne,
    /// `[op][rets:1][pad_len:1][pad:1][ret slots:4*rets][padding]`
    ReturnMultiple,
    /// `[op][pad:7]`
    ReturnNothing,
    UnreachableInsc,
}

impl OpCode {
    pub open spec fn code(self) -> u8 {
        match self {
            OpCode::MakeIntConst => 1,
            OpCode::IntAdd => 2,
            OpCode::IntSub => 3,
            OpCode::IntEq => 4,
            OpCode::IntGt => 5,
            OpCode::Incr => 6,
            OpCode::JumpIfTrue => 7,
            OpCode::Jump => 8,
            OpCode::FuncCall => 9,
            OpCode::FFICall => 10,
            OpCode::ReturnOne => 11,
            OpCode::ReturnMultiple => 12,
            OpCode::ReturnNothing => 13,
            OpCode::UnreachableInsc => 14,
        }
    }

    pub fn as_u8(&self) -> (r: u8)
        ensures
            r == self.code(),
    {
        match self {
            OpCode::MakeIntConst => 1,
            OpCode::IntAdd => 2,
            OpCode::IntSub => 3,
            OpCode::IntEq => 4,
            OpCode::IntGt => 5,
            OpCode::Incr => 6,
            OpCode::JumpIfTrue => 7,
            OpCode::Jump => 8,
            OpCode::FuncCall => 9,
            OpCode::FFICall => 10,
            OpCode::ReturnOne => 11,
            OpCode::ReturnMultiple => 12,
            OpCode::ReturnNothing => 13,
            OpCode::UnreachableInsc => 14,
        }
    }

    /// The opcode numbered `b`, if any.
    pub fn from_u8(b: u8) -> (r: Option<OpCode>)
        ensures
            r matches Some(op) ==> op.code() == b,
            r is None <==> (b == 0 || b > 14),
    {
        match b {
            1 => Some(OpCode::MakeIntConst),
            2 => Some(OpCode::IntAdd),
            3 => Some(OpCode::IntSub),
            4 => Some(OpCode::IntEq),
            5 => Some(OpCode::IntGt),
            6 => Some(OpCode::Incr),
            7 => Some(OpCode::JumpIfTrue),
            8 => Some(OpCode::Jump),
            9 => Some(OpCode::FuncCall),
            10 => Some(OpCode::FFICall),
            11 => Some(OpCode::ReturnOne),
            12 => Some(OpCode::ReturnMultiple),
            13 => Some(OpCode::ReturnNothing),
            14 => Some(OpCode::UnreachableInsc),
            _ => None,
        }
    }
}

/// Whether `i` is the instruction encoded at `pos` in `b`, with its successor at `next`.
pub open spec fn decodes_at(b: Seq<u8>, pos: int, i: Insc, next: int) -> bool {
    &&& 0 <= pos
    &&& encodable(i)
    &&& next == pos + insc_bytes(i).len()
    &&& next <= b.len()
    &&& b.subrange(pos, next) == insc_bytes(i)
}

/// A program in packed form: jump targets and entry points are byte offsets.
pub struct PackedProgram {
    pub inscs: AlignedBytes,
    pub funcs: Vec<CompiledFuncInfo>,
    pub ffi_funcs: Vec<HostFunctionInfo>,
}

impl PackedProgram {
    pub fn new(inscs: AlignedBytes, funcs: Vec<CompiledFuncInfo>, ffi_funcs: Vec<HostFunctionInfo>) -> (r:
        PackedProgram)
        ensures
            r.inscs@ == inscs@,
            r.funcs@ == funcs@,
            r.ffi_funcs@ == ffi_funcs@,
    {
        PackedProgram { inscs, funcs, ffi_funcs }
    }
}

/// The little-endian value of the four bytes at `pos`.
pub open spec fn u32_at(b: Seq<u8>, pos: int) -> int {
    b[pos] + b[pos + 1] * 0x100 + b[pos + 2] * 0x1_0000 + b[pos + 3] * 0x100_0000
}

/// The little-endian value of the eight bytes at `pos`.
pub open spec fn u64_at(b: Seq<u8>, pos: int) -> int {
    u32_at(b, pos) + u32_at(b, pos + 4) * 0x1_0000_0000
}

/// The four little-endian bytes of `x`.
pub open spec fn u32_bytes(x: u32) -> Seq<u8> {
    seq![
        (x % 0x100) as u8,
        ((x / 0x100) % 0x100) as u8,
        ((x / 0x1_0000) % 0x100) as u8,
        (x / 0x100_0000) as u8,
    ]
}

/// The eight little-endian bytes of `x`.
pub open spec fn u64_bytes(x: u64) -> Seq<u8> {
    u32_bytes((x % 0x1_0000_0000) as u32) + u32_bytes((x / 0x1_0000_0000) as u32)
}

/// A growable byte buffer for packed programs.
pub struct AlignedBytes {
    bytes: Vec<u8>,
}

impl View for AlignedBytes {
    type V = Seq<u8>;

    closed spec fn view(&self) -> Seq<u8> {
        self.bytes@
    }
}

impl AlignedBytes {
    pub fn new() -> (r: AlignedBytes)
        ensures
            r@.len() == 0,
    {
        AlignedBytes::with_capacity(512)
    }

    pub fn with_capacity(cap: usize) -> (r: AlignedBytes)
        ensures
            r@.len() == 0,
    {
        AlignedBytes { bytes: Vec::with_capacity(cap) }
    }

    pub fn len(&self) -> (r: usize)
        ensures
            r == self@.len(),
    {
        self.bytes.len()
    }

    /// Whether the length is a multiple of `alignment`.
    pub fn assert_aligned(&self, alignment: usize) -> (r: bool)
        requires
            alignment > 0,
        ensures
            r == (self@.len() % (alignment as nat) == 0),
    {
        self.bytes.len() % alignment == 0
    }

    pub fn push_byte(&mut self, byte: u8)
        ensures
            final(self)@ == old(self)@.push(byte),
    {
        self.bytes.push(byte);
    }

    pub fn push_zero_bytes(&mut self, count: usize)
        ensures
            final(self)@ == old(self)@ + Seq::new(count as nat, |i: int| 0u8),
    {
        let mut i: usize = 0;
        while i < count
            invariant
                0 <= i <= count,
                self.bytes@ == old(self)@ + Seq::new(i as nat, |k: int| 0u8),
            decreases count - i,
        {
            self.bytes.push(0);
            i = i + 1;
            assert(self.bytes@ =~= old(self)@ + Seq::new(i as nat, |k: int| 0u8));
        }
    }

    pub fn push_u32(&mut self, dword: u32)
        ensures
            final(self)@ == old(self)@ + u32_bytes(dword),
    {
        self.bytes.push((dword % 0x100) as u8);
        self.bytes.push(((dword / 0x100) % 0x100) as u8);
        self.bytes.push(((dword / 0x1_0000) % 0x100) as u8);
        self.bytes.push((dword / 0x100_0000) as u8);
        assert(self.bytes@ =~= old(self)@ + u32_bytes(dword));
    }

    pub fn push_u64(&mut self, qword: u64)
        ensures
            final(self)@ == old(self)@ + u64_bytes(qword),
    {
        self.push_u32((qword % 0x1_0000_0000) as u32);
        self.push_u32((qword / 0x1_0000_0000) as u32);
        assert(self@ =~= old(self)@ + u64_bytes(qword));
    }

    pub fn write_byte(&mut self, pos: usize, byte: u8)
        requires
            pos < old(self)@.len(),
        ensures
            final(self)@ == old(self)@.update(pos as int, byte),
    {
        self.bytes[pos] = byte;
    }

    pub fn write_u32(&mut self, pos: usize, dword: u32)
        requires
            pos + 4 <= old(self)@.len(),
        ensures
            final(self)@ == old(self)@.subrange(0, pos as int) + u32_bytes(dword) + old(
                self,
            )@.subrange(pos + 4, old(self)@.len() as int),
    {
        let n = self.bytes.len();
        assert(pos + 4 <= n);
        self.bytes[pos] = (dword % 0x100) as u8;
        self.bytes[pos + 1] = ((dword / 0x100) % 0x100) as u8;
        self.bytes[pos + 2] = ((dword / 0x1_0000) % 0x100) as u8;
        self.bytes[pos + 3] = (dword / 0x100_0000) as u8;
        assert(self.bytes@ =~= old(self)@.subrange(0, pos as int) + u32_bytes(dword) + old(
            self,
        )@.subrange(pos + 4, old(self)@.len() as int));
    }

    pub fn read_byte(&self, pos: usize) -> (r: u8)
        requires
            pos < self@.len(),
        ensures
            r == self@[pos as int],
    {
        self.bytes[pos]
    }

    pub fn read_u32(&self, pos: usize) -> (r: u32)
        requires
            pos + 4 <= self@.len(),
        ensures
            r as int == u32_at(self@, pos as int),
            u32_bytes(r) == self@.subrange(pos as int, pos + 4),
    {
        let n = self.bytes.len();
        assert(pos + 4 <= n);
        let b0 = self.bytes[pos];
        let b1 = self.bytes[pos + 1];
        let b2 = self.bytes[pos + 2];
        let b3 = self.bytes[pos + 3];
        proof {
            lemma_bytes_round_trip(b0, b1, b2, b3);
            assert(self@.subrange(pos as int, pos + 4) =~= seq![b0, b1, b2, b3]);
        }
        b0 as u32 + b1 as u32 * 0x100 + b2 as u32 * 0x1_0000 + b3 as u32 * 0x100_0000
    }

    pub fn read_u64(&self, pos: usize) -> (r: u64)
        requires
            pos + 8 <= self@.len(),
        ensures
            r as int == u64_at(self@, pos as int),
            u64_bytes(r) == self@.subrange(pos as int, pos + 8),
    {
        let n = self.bytes.len();
        assert(pos + 8 <= n);
        let lo = self.read_u32(pos);
        let hi = self.read_u32(pos + 4);
        let r = lo as u64 + hi as u64 * 0x1_0000_0000;
        assert(r % 0x1_0000_0000 == lo && r / 0x1_0000_0000 == hi) by (nonlinear_arith)
            requires
                r == lo + hi * 0x1_0000_0000,
                0 <= lo < 0x1_0000_0000,
        ;
        assert(self@.subrange(pos as int, pos + 8) =~= self@.subrange(pos as int, pos + 4)
            + self@.subrange(pos + 4, pos + 8));
        r
    }
}

/// Reading back four pushed bytes gives the pushed word.
pub proof fn lemma_u32_round_trip(b: Seq<u8>, x: u32)
    ensures
        u32_at(b + u32_bytes(x), b.len() as int) == x,
{
    let t = b + u32_bytes(x);
    let n = b.len() as int;
    assert(t[n] == x % 0x100);
    assert(t[n + 1] == (x / 0x100) % 0x100);
    assert(t[n + 2] == (x / 0x1_0000) % 0x100);
    assert(t[n + 3] == x / 0x100_0000);
    assert(x == x % 0x100 + ((x / 0x100) % 0x100) * 0x100 + ((x / 0x1_0000) % 0x100) * 0x1_0000
        + (x / 0x100_0000) * 0x100_0000) by (nonlinear_arith);
}

/// The bytes of four little-endian bytes read back.
pub proof fn lemma_bytes_round_trip(b0: u8, b1: u8, b2: u8, b3: u8)
    ensures
        u32_bytes((b0 + b1 * 0x100 + b2 * 0x1_0000 + b3 * 0x100_0000) as u32) == seq![b0, b1, b2, b3],
{
    let x: int = b0 + b1 * 0x100 + b2 * 0x1_0000 + b3 * 0x100_0000;
    assert(x % 0x100 == b0 && x / 0x100 == b1 + b2 * 0x100 + b3 * 0x1_0000 && x / 0x1_0000 == b2
        + b3 * 0x100 && x / 0x100_0000 == b3) by (nonlinear_arith)
        requires
            x == b0 + b1 * 0x100 + b2 * 0x1_0000 + b3 * 0x100_0000,
            0 <= b0 < 256,
            0 <= b1 < 256,
            0 <= b2 < 256,
            0 <= b3 < 256,
    ;
    assert(u32_bytes(x as u32) =~= seq![b0, b1, b2, b3]);
}

/// The two's-complement bit pattern of an integer.
pub open spec fn i64_bits(c: i64) -> u64 {
    if c >= 0 {
        c as u64
    } else {
        (c + 0x1_0000_0000_0000_0000) as u64
    }
}

/// The integer with a two's-complement bit pattern.
pub open spec fn bits_i64(q: u64) -> i64 {
    if q <= i64::MAX {
        q as i64
    } else {
        (q - 0x1_0000_0000_0000_0000) as i64
    }
}

/// A list of slot indices, four bytes each.
pub open spec fn slots_bytes(s: Seq<u32>) -> Seq<u8>
    decreases s.len(),
{
    if s.len() == 0 {
        Seq::empty()
    } else {
        slots_bytes(s.drop_last()) + u32_bytes(s.last())
    }
}

pub open spec fn zeros(n: nat) -> Seq<u8> {
    Seq::new(n, |i: int| 0u8)
}

/// Padding that brings a call with `n` arguments and `m` results to a multiple of 8.
pub open spec fn call_padding(n: nat, m: nat) -> nat {
    if (n + m) % 2 == 1 {
        4
    } else {
        0
    }
}

/// Padding that brings a multiple return of `n` values to a multiple of 8.
pub open spec fn return_padding(n: nat) -> nat {
    if n % 2 == 0 {
        4
    } else {
        0
    }
}

pub open spec fn header(op: OpCode, a: u8, b: u8, c: u8) -> Seq<u8> {
    seq![op.code(), a, b, c]
}

/// Whether an instruction has a packed form: calls and returns list at most 255 slots.
pub open spec fn encodable(i: Insc) -> bool {
    match i {
        Insc::FuncCall { arg_values, ret_value_locs, .. } | Insc::FFICall {
            arg_values,
            ret_value_locs,
            ..
        } => arg_values@.len() <= 255 && ret_value_locs@.len() <= 255,
        Insc::ReturnMultiple { ret_values } => ret_values@.len() <= 255,
        _ => true,
    }
}

/// The packed form of an instruction.
pub open spec fn insc_bytes(i: Insc) -> Seq<u8> {
    match i {
        Insc::MakeIntConst { c, dest_value } => header(OpCode::MakeIntConst, 0, 0, 0) + u32_bytes(
            dest_value,
        ) + u64_bytes(i64_bits(c)),
        Insc::IntAdd { lhs_value, rhs_value, dest_value } => header(OpCode::IntAdd, 0, 0, 0)
            + u32_bytes(dest_value) + u32_bytes(lhs_value) + u32_bytes(rhs_value),
        Insc::IntSub { lhs_value, rhs_value, dest_value } => header(OpCode::IntSub, 0, 0, 0)
            + u32_bytes(dest_value) + u32_bytes(lhs_value) + u32_bytes(rhs_value),
        Insc::IntEq { lhs_value, rhs_value, dest_value } => header(OpCode::IntEq, 0, 0, 0)
            + u32_bytes(dest_value) + u32_bytes(lhs_value) + u32_bytes(rhs_value),
        Insc::IntGt { lhs_value, rhs_value, dest_value } => header(OpCode::IntGt, 0, 0, 0)
            + u32_bytes(dest_value) + u32_bytes(lhs_value) + u32_bytes(rhs_value),
        Insc::Incr { value } => header(OpCode::Incr, 0, 0, 0) + u32_bytes(value),
        Insc::JumpIfTrue { cond_value, jump_dest } => header(OpCode::JumpIfTrue, 0, 0, 0)
            + u32_bytes(cond_value) + u32_bytes(jump_dest) + zeros(4),
        Insc::Jump { jump_dest } => header(OpCode::Jump, 0, 0, 0) + u32_bytes(jump_dest),
        Insc::FuncCall { func_id, arg_values, ret_value_locs } => {
            let pad = call_padding(arg_values@.len(), ret_value_locs@.len());
            header(
                OpCode::FuncCall,
                arg_values@.len() as u8,
                ret_value_locs@.len() as u8,
                pad as u8,
            ) + u32_bytes(func_id) + slots_bytes(arg_values@) + slots_bytes(ret_value_locs@)
                + zeros(pad)
        },
        Insc::FFICall { func_id, arg_values, ret_value_locs } => {
            let pad = call_padding(arg_values@.len(), ret_value_locs@.len());
            header(
                OpCode::FFICall,
                arg_values@.len() as u8,
                ret_value_locs@.len() as u8,
                pad as u8,
            ) + u32_bytes(func_id) + slots_bytes(arg_values@) + slots_bytes(ret_value_locs@)
                + zeros(pad)
        },
        Insc::ReturnOne { ret_value } => header(OpCode::ReturnOne, 0, 0, 0) + u32_bytes(ret_value),
        Insc::ReturnMultiple { ret_values } => {
            let pad = return_padding(ret_values@.len());
            header(OpCode::ReturnMultiple, ret_values@.len() as u8, pad as u8, 0) + slots_bytes(
                ret_values@,
            ) + zeros(pad)
        },
        Insc::ReturnNothing => header(OpCode::ReturnNothing, 0, 0, 0) + zeros(4),
        Insc::UnreachableInsc => header(OpCode::UnreachableInsc, 0, 0, 0) + zeros(4),
    }
}

/// The opcode of an instruction.
pub open spec fn insc_opcode(i: Insc) -> OpCode {
    match i {
        Insc::MakeIntConst { .. } => OpCode::MakeIntConst,
        Insc::IntAdd { .. } => OpCode::IntAdd,
        Insc::IntSub { .. } => OpCode::IntSub,
        Insc::IntEq { .. } => OpCode::IntEq,
        Insc::IntGt { .. } => OpCode::IntGt,
        Insc::Incr { .. } => OpCode::Incr,
        Insc::JumpIfTrue { .. } => OpCode::JumpIfTrue,
        Insc::Jump { .. } => OpCode::Jump,
        Insc::FuncCall { .. } => OpCode::FuncCall,
        Insc::FFICall { .. } => OpCode::FFICall,
        Insc::ReturnOne { .. } => OpCode::ReturnOne,
        Insc::ReturnMultiple { .. } => OpCode::ReturnMultiple,
        Insc::ReturnNothing => OpCode::ReturnNothing,
        Insc::UnreachableInsc => OpCode::UnreachableInsc,
    }
}

proof fn lemma_slots_len(s: Seq<u32>)
    ensures
        slots_bytes(s).len() == 4 * s.len(),
    decreases s.len(),
{
    if s.len() > 0 {
        lemma_slots_len(s.drop_last());
    }
}

/// The layout of an encoded instruction: opcode, header bytes, length, and the zero
/// padding at its end.
proof fn lemma_insc_layout(i: Insc)
    requires
        encodable(i),
    ensures
        ({
            let e = insc_bytes(i);
            &&& e.len() >= 8
            &&& e[0] == insc_opcode(i).code()
            &&& match i {
                Insc::FuncCall { arg_values, ret_value_locs, .. } | Insc::FFICall {
                    arg_values,
                    ret_value_locs,
                    ..
                } => {
                    let n = arg_values@.len();
                    let m = ret_value_locs@.len();
                    let pad = call_padding(n, m);
                    &&& e[1] == n
                    &&& e[2] == m
                    &&& e[3] == pad
                    &&& e.len() == 8 + 4 * n + 4 * m + pad
                    &&& e.subrange((8 + 4 * n + 4 * m) as int, e.len() as int) == zeros(pad)
                },
                Insc::ReturnMultiple { ret_values } => {
                    let n = ret_values@.len();
                    let pad = return_padding(n);
                    &&& e[1] == n
                    &&& e[2] == pad
                    &&& e[3] == 0
                    &&& e.len() == 4 + 4 * n + pad
                    &&& e.subrange((4 + 4 * n) as int, e.len() as int) == zeros(pad)
                },
                Insc::MakeIntConst { .. } | Insc::IntAdd { .. } | Insc::IntSub { .. }
                | Insc::IntEq { .. } | Insc::IntGt { .. } => {
                    &&& e[1] == 0 && e[2] == 0 && e[3] == 0
                    &&& e.len() == 16
                },
                Insc::JumpIfTrue { .. } => {
                    &&& e[1] == 0 && e[2] == 0 && e[3] == 0
                    &&& e.len() == 16
                    &&& e.subrange(12, 16) == zeros(4)
                },
                Insc::ReturnNothing | Insc::UnreachableInsc => {
                    &&& e[1] == 0 && e[2] == 0 && e[3] == 0
                    &&& e.len() == 8
                    &&& e.subrange(4, 8) == zeros(4)
                },
                _ => {
                    &&& e[1] == 0 && e[2] == 0 && e[3] == 0
                    &&& e.len() == 8
                },
            }
        }),
{
    let e = insc_bytes(i);
    match i {
        Insc::FuncCall { arg_values, ret_value_locs, .. } | Insc::FFICall {
            arg_values,
            ret_value_locs,
            ..
        } => {
            lemma_slots_len(arg_values@);
            lemma_slots_len(ret_value_locs@);
            let n = arg_values@.len();
            let m = ret_value_locs@.len();
            let pad = call_padding(n, m);
            assert(e.subrange((8 + 4 * n + 4 * m) as int, e.len() as int) =~= zeros(pad));
        },
        Insc::ReturnMultiple { ret_values } => {
            lemma_slots_len(ret_values@);
            let n = ret_values@.len();
            assert(e.subrange((4 + 4 * n) as int, e.len() as int) =~= zeros(return_padding(n)));
        },
        Insc::JumpIfTrue { .. } => {
            assert(e.subrange(12, 16) =~= zeros(4));
        },
        Insc::ReturnNothing | Insc::UnreachableInsc => {
            assert(e.subrange(4, 8) =~= zeros(4));
        },
        _ => {},
    }
}

/// The bytes of `b` from `pos` that an instruction decoding there covers.
proof fn lemma_decoded_bytes(b: Seq<u8>, pos: int, i: Insc, next: int)
    requires
        decodes_at(b, pos, i, next),
    ensures
        forall|k: int| 0 <= k < insc_bytes(i).len() ==> #[trigger] b[pos + k] == insc_bytes(i)[k],
{
    assert forall|k: int| 0 <= k < insc_bytes(i).len() implies #[trigger] b[pos + k] == insc_bytes(
        i,
    )[k] by {
        assert(b.subrange(pos, next)[k] == b[pos + k]);
    }
}

/// Two instructions with the same operands (slot lists compared by their contents).
pub open spec fn same_insc(a: Insc, b: Insc) -> bool {
    match (a, b) {
        (Insc::FuncCall { func_id: f1, arg_values: a1, ret_value_locs: r1 }, Insc::FuncCall {
            func_id: f2,
            arg_values: a2,
            ret_value_locs: r2,
        }) => f1 == f2 && a1@ == a2@ && r1@ == r2@,
        (Insc::FFICall { func_id: f1, arg_values: a1, ret_value_locs: r1 }, Insc::FFICall {
            func_id: f2,
            arg_values: a2,
            ret_value_locs: r2,
        }) => f1 == f2 && a1@ == a2@ && r1@ == r2@,
        (Insc::ReturnMultiple { ret_values: r1 }, Insc::ReturnMultiple { ret_values: r2 }) => r1@
            == r2@,
        (Insc::FuncCall { .. }, _) | (Insc::FFICall { .. }, _) | (Insc::ReturnMultiple { .. }, _) => false,
        _ => a == b,
    }
}

proof fn lemma_u32_bytes_injective(x: u32, y: u32)
    requires
        u32_bytes(x) == u32_bytes(y),
    ensures
        x == y,
{
    lemma_u32_round_trip(Seq::empty(), x);
    lemma_u32_round_trip(Seq::empty(), y);
    assert(Seq::<u8>::empty() + u32_bytes(x) =~= u32_bytes(x));
    assert(Seq::<u8>::empty() + u32_bytes(y) =~= u32_bytes(y));
}

proof fn lemma_u64_bytes_injective(x: u64, y: u64)
    requires
        u64_bytes(x) == u64_bytes(y),
    ensures
        x == y,
{
    let lx = (x % 0x1_0000_0000) as u32;
    let hx = (x / 0x1_0000_0000) as u32;
    let ly = (y % 0x1_0000_0000) as u32;
    let hy = (y / 0x1_0000_0000) as u32;
    assert(u64_bytes(x).subrange(0, 4) =~= u32_bytes(lx));
    assert(u64_bytes(y).subrange(0, 4) =~= u32_bytes(ly));
    assert(u64_bytes(x).subrange(4, 8) =~= u32_bytes(hx));
    assert(u64_bytes(y).subrange(4, 8) =~= u32_bytes(hy));
    lemma_u32_bytes_injective(lx, ly);
    lemma_u32_bytes_injective(hx, hy);
}

proof fn lemma_slots_injective(s1: Seq<u32>, s2: Seq<u32>)
    requires
        s1.len() == s2.len(),
        slots_bytes(s1) == slots_bytes(s2),
    ensures
        s1 == s2,
    decreases s1.len(),
{
    if s1.len() > 0 {
        let n = s1.len() - 1;
        lemma_slots_len(s1.drop_last());
        lemma_slots_len(s2.drop_last());
        assert(slots_bytes(s1).subrange(0, 4 * n) =~= slots_bytes(s1.drop_last()));
        assert(slots_bytes(s2).subrange(0, 4 * n) =~= slots_bytes(s2.drop_last()));
        assert(slots_bytes(s1).subrange(4 * n, 4 * n + 4) =~= u32_bytes(s1.last()));
        assert(slots_bytes(s2).subrange(4 * n, 4 * n + 4) =~= u32_bytes(s2.last()));
        lemma_slots_injective(s1.drop_last(), s2.drop_last());
        lemma_u32_bytes_injective(s1.last(), s2.last());
        assert(s1 =~= s2.drop_last().push(s2.last()));
        assert(s2 =~= s2.drop_last().push(s2.last()));
    }
}

/// Equal encodings come from instructions with the same operands.
#[verifier::spinoff_prover]
#[verifier::rlimit(100)]
proof fn lemma_insc_bytes_injective(a: Insc, b: Insc)
    requires
        encodable(a),
        encodable(b),
        insc_bytes(a) == insc_bytes(b),
    ensures
        same_insc(a, b),
{
    lemma_insc_layout(a);
    lemma_insc_layout(b);
    let e = insc_bytes(a);
    assert(insc_opcode(a) == insc_opcode(b));
    match (a, b) {
        (Insc::MakeIntConst { c: c1, dest_value: d1 }, Insc::MakeIntConst { c: c2, dest_value: d2 }) => {
            assert(e.subrange(4, 8) =~= u32_bytes(d1));
            assert(insc_bytes(b).subrange(4, 8) =~= u32_bytes(d2));
            assert(e.subrange(8, 16) =~= u64_bytes(i64_bits(c1)));
            assert(insc_bytes(b).subrange(8, 16) =~= u64_bytes(i64_bits(c2)));
            lemma_u32_bytes_injective(d1, d2);
            lemma_u64_bytes_injective(i64_bits(c1), i64_bits(c2));
        },
        (Insc::IntAdd { lhs_value: l1, rhs_value: r1, dest_value: d1 }, Insc::IntAdd {
            lhs_value: l2,
            rhs_value: r2,
            dest_value: d2,
        })
        | (Insc::IntSub { lhs_value: l1, rhs_value: r1, dest_value: d1 }, Insc::IntSub {
            lhs_value: l2,
            rhs_value: r2,
            dest_value: d2,
        })
        | (Insc::IntEq { lhs_value: l1, rhs_value: r1, dest_value: d1 }, Insc::IntEq {
            lhs_value: l2,
            rhs_value: r2,
            dest_value: d2,
        })
        | (Insc::IntGt { lhs_value: l1, rhs_value: r1, dest_value: d1 }, Insc::IntGt {
            lhs_value: l2,
            rhs_value: r2,
            dest_value: d2,
        }) => {
            assert(e.subrange(4, 8) =~= u32_bytes(d1));
            assert(insc_bytes(b).subrange(4, 8) =~= u32_bytes(d2));
            assert(e.subrange(8, 12) =~= u32_bytes(l1));
            assert(insc_bytes(b).subrange(8, 12) =~= u32_bytes(l2));
            assert(e.subrange(12, 16) =~= u32_bytes(r1));
            assert(insc_bytes(b).subrange(12, 16) =~= u32_bytes(r2));
            lemma_u32_bytes_injective(d1, d2);
            lemma_u32_bytes_injective(l1, l2);
            lemma_u32_bytes_injective(r1, r2);
        },
        (Insc::JumpIfTrue { cond_value: c1, jump_dest: j1 }, Insc::JumpIfTrue {
            cond_value: c2,
            jump_dest: j2,
        }) => {
            assert(e.subrange(4, 8) =~= u32_bytes(c1));
            assert(insc_bytes(b).subrange(4, 8) =~= u32_bytes(c2));
            assert(e.subrange(8, 12) =~= u32_bytes(j1));
            assert(insc_bytes(b).subrange(8, 12) =~= u32_bytes(j2));
            lemma_u32_bytes_injective(c1, c2);
            lemma_u32_bytes_injective(j1, j2);
        },
        (Insc::Incr { value: x1 }, Insc::Incr { value: x2 })
        | (Insc::Jump { jump_dest: x1 }, Insc::Jump { jump_dest: x2 })
        | (Insc::ReturnOne { ret_value: x1 }, Insc::ReturnOne { ret_value: x2 }) => {
            assert(e.subrange(4, 8) =~= u32_bytes(x1));
            assert(insc_bytes(b).subrange(4, 8) =~= u32_bytes(x2));
            lemma_u32_bytes_injective(x1, x2);
        },
        (Insc::FuncCall { func_id: f1, arg_values: a1, ret_value_locs: r1 }, Insc::FuncCall {
            func_id: f2,
            arg_values: a2,
            ret_value_locs: r2,
        })
        | (Insc::FFICall { func_id: f1, arg_values: a1, ret_value_locs: r1 }, Insc::FFICall {
            func_id: f2,
            arg_values: a2,
            ret_value_locs: r2,
        }) => {
            let n = a1@.len() as int;
            let m = r1@.len() as int;
            assert(a2@.len() == n && r2@.len() == m);
            lemma_slots_len(a1@);
            lemma_slots_len(r1@);
            lemma_slots_len(a2@);
            lemma_slots_len(r2@);
            let f = insc_bytes(b);
            assert(e.subrange(4, 8) =~= u32_bytes(f1));
            assert(f.subrange(4, 8) =~= u32_bytes(f2));
            assert(e.subrange(8, 8 + 4 * n) =~= slots_bytes(a1@));
            assert(f.subrange(8, 8 + 4 * n) =~= slots_bytes(a2@));
            assert(e.subrange(8 + 4 * n, 8 + 4 * n + 4 * m) =~= slots_bytes(r1@));
            assert(f.subrange(8 + 4 * n, 8 + 4 * n + 4 * m) =~= slots_bytes(r2@));
            lemma_u32_bytes_injective(f1, f2);
            lemma_slots_injective(a1@, a2@);
            lemma_slots_injective(r1@, r2@);
        },
        (Insc::ReturnMultiple { ret_values: r1 }, Insc::ReturnMultiple { ret_values: r2 }) => {
            let n = r1@.len() as int;
            assert(r2@.len() == n);
            lemma_slots_len(r1@);
            lemma_slots_len(r2@);
            assert(e.subrange(4, 4 + 4 * n) =~= slots_bytes(r1@));
            assert(insc_bytes(b).subrange(4, 4 + 4 * n) =~= slots_bytes(r2@));
            lemma_slots_injective(r1@, r2@);
        },
        _ => {},
    }
}

/// At most one instruction decodes at a position, up to the identity of its slot lists.
pub proof fn lemma_decode_unique(b: Seq<u8>, pos: int, i1: Insc, n1: int, i2: Insc, n2: int)
    requires
        decodes_at(b, pos, i1, n1),
        decodes_at(b, pos, i2, n2),
    ensures
        n1 == n2,
        same_insc(i1, i2),
{
    lemma_insc_layout(i1);
    lemma_insc_layout(i2);
    lemma_decoded_bytes(b, pos, i1, n1);
    lemma_decoded_bytes(b, pos, i2, n2);
    assert(b[pos + 0] == insc_bytes(i1)[0]);
    assert(b[pos + 0] == insc_bytes(i2)[0]);
    assert(b[pos + 1] == insc_bytes(i1)[1]);
    assert(b[pos + 1] == insc_bytes(i2)[1]);
    assert(b[pos + 2] == insc_bytes(i1)[2]);
    assert(b[pos + 2] == insc_bytes(i2)[2]);
    assert(insc_opcode(i1) == insc_opcode(i2));
    assert(insc_bytes(i1).len() == insc_bytes(i2).len());
    lemma_insc_bytes_injective(i1, i2);
}

proof fn lemma_wide_too_short(b: Seq<u8>, pos: int, op: OpCode)
    requires
        0 <= pos < b.len(),
        b.len() - pos < 16,
        b[pos] == op.code(),
        op is MakeIntConst || op is IntAdd || op is IntSub || op is IntEq || op is IntGt
            || op is JumpIfTrue,
    ensures
        forall|i: Insc, next: int| !#[trigger] decodes_at(b, pos, i, next),
{
    assert forall|i: Insc, next: int| !#[trigger] decodes_at(b, pos, i, next) by {
        if decodes_at(b, pos, i, next) {
            lemma_insc_layout(i);
            lemma_decoded_bytes(b, pos, i, next);
            assert(b[pos + 0] == insc_bytes(i)[0]);
        }
    }
}

proof fn lemma_jump_padding(b: Seq<u8>, pos: int)
    requires
        0 <= pos,
        pos + 16 <= b.len(),
        b[pos] == OpCode::JumpIfTrue.code(),
        b.subrange(pos + 12, pos + 16) != zeros(4),
    ensures
        forall|i: Insc, next: int| !#[trigger] decodes_at(b, pos, i, next),
{
    assert forall|i: Insc, next: int| !#[trigger] decodes_at(b, pos, i, next) by {
        if decodes_at(b, pos, i, next) {
            lemma_insc_layout(i);
            lemma_decoded_bytes(b, pos, i, next);
            assert(b[pos + 0] == insc_bytes(i)[0]);
            assert(b.subrange(pos + 12, pos + 16) =~= insc_bytes(i).subrange(12, 16));
        }
    }
}

/// A call's padding length byte must match its counts.
proof fn lemma_call_header(b: Seq<u8>, pos: int)
    requires
        0 <= pos,
        pos + 8 <= b.len(),
        b[pos] == OpCode::FuncCall.code() || b[pos] == OpCode::FFICall.code(),
        b[pos + 3] != call_padding(b[pos + 1] as nat, b[pos + 2] as nat),
    ensures
        forall|i: Insc, next: int| !#[trigger] decodes_at(b, pos, i, next),
{
    assert forall|i: Insc, next: int| !#[trigger] decodes_at(b, pos, i, next) by {
        if decodes_at(b, pos, i, next) {
            lemma_insc_layout(i);
            lemma_decoded_bytes(b, pos, i, next);
            assert(b[pos + 0] == insc_bytes(i)[0]);
            assert(b[pos + 1] == insc_bytes(i)[1]);
            assert(b[pos + 2] == insc_bytes(i)[2]);
            assert(b[pos + 3] == insc_bytes(i)[3]);
        }
    }
}

proof fn lemma_call_too_short(b: Seq<u8>, pos: int, size: int)
    requires
        0 <= pos,
        pos + 8 <= b.len(),
        b[pos] == OpCode::FuncCall.code() || b[pos] == OpCode::FFICall.code(),
        size == 8 + 4 * b[pos + 1] + 4 * b[pos + 2] + call_padding(b[pos + 1] as nat, b[pos + 2] as nat),
        b.len() - pos < size,
    ensures
        forall|i: Insc, next: int| !#[trigger] decodes_at(b, pos, i, next),
{
    assert forall|i: Insc, next: int| !#[trigger] decodes_at(b, pos, i, next) by {
        if decodes_at(b, pos, i, next) {
            lemma_insc_layout(i);
            lemma_decoded_bytes(b, pos, i, next);
            assert(b[pos + 0] == insc_bytes(i)[0]);
            assert(b[pos + 1] == insc_bytes(i)[1]);
            assert(b[pos + 2] == insc_bytes(i)[2]);
        }
    }
}

proof fn lemma_call_padding(b: Seq<u8>, pos: int, body: int, size: int)
    requires
        0 <= pos,
        pos + size <= b.len(),
        b[pos] == OpCode::FuncCall.code() || b[pos] == OpCode::FFICall.code(),
        body == 8 + 4 * b[pos + 1] + 4 * b[pos + 2],
        size == body + call_padding(b[pos + 1] as nat, b[pos + 2] as nat),
        b.subrange(pos + body, pos + size) != zeros((size - body) as nat),
    ensures
        forall|i: Insc, next: int| !#[trigger] decodes_at(b, pos, i, next),
{
    assert forall|i: Insc, next: int| !#[trigger] decodes_at(b, pos, i, next) by {
        if decodes_at(b, pos, i, next) {
            lemma_insc_layout(i);
            lemma_decoded_bytes(b, pos, i, next);
            assert(b[pos + 0] == insc_bytes(i)[0]);
            assert(b[pos + 1] == insc_bytes(i)[1]);
            assert(b[pos + 2] == insc_bytes(i)[2]);
            assert(b.subrange(pos + body, pos + size) =~= insc_bytes(i).subrange(body, size));
        }
    }
}

impl AlignedBytes {
    fn push_header(&mut self, op: OpCode, a: u8, b: u8, c: u8)
        ensures
            final(self)@ == old(self)@ + header(op, a, b, c),
    {
        self.push_byte(op.as_u8());
        self.push_byte(a);
        self.push_byte(b);
        self.push_byte(c);
        assert(self@ =~= old(self)@ + header(op, a, b, c));
    }

    fn push_slots(&mut self, slots: &Vec<u32>)
        ensures
            final(self)@ == old(self)@ + slots_bytes(slots@),
    {
        let mut k: usize = 0;
        while k < slots.len()
            invariant
                0 <= k <= slots@.len(),
                self@ == old(self)@ + slots_bytes(slots@.subrange(0, k as int)),
            decreases slots.len() - k,
        {
            self.push_u32(slots[k]);
            k = k + 1;
            assert(slots@.subrange(0, k as int).drop_last() =~= slots@.subrange(0, k - 1));
            assert(self@ =~= old(self)@ + slots_bytes(slots@.subrange(0, k as int)));
        }
        assert(slots@.subrange(0, slots@.len() as int) =~= slots@);
    }

    /// Appends the packed form of `insc`; false, with nothing appended, when it has none.
    #[verifier::spinoff_prover]
    #[verifier::rlimit(60)]
    pub fn push_insc(&mut self, insc: &Insc) -> (r: bool)
        ensures
            r == encodable(*insc),
            r ==> final(self)@ == old(self)@ + insc_bytes(*insc),
            !r ==> final(self)@ == old(self)@,
    {
        match insc {
            Insc::MakeIntConst { c, dest_value } => {
                self.push_header(OpCode::MakeIntConst, 0, 0, 0);
                self.push_u32(*dest_value);
                let bits: u64 = if *c >= 0 {
                    *c as u64
                } else {
                    (*c as i128 + 0x1_0000_0000_0000_0000i128) as u64
                };
                self.push_u64(bits);
            },
            Insc::IntAdd { lhs_value, rhs_value, dest_value } => {
                self.push_header(OpCode::IntAdd, 0, 0, 0);
                self.push_u32(*dest_value);
                self.push_u32(*lhs_value);
                self.push_u32(*rhs_value);
            },
            Insc::IntSub { lhs_value, rhs_value, dest_value } => {
                self.push_header(OpCode::IntSub, 0, 0, 0);
                self.push_u32(*dest_value);
                self.push_u32(*lhs_value);
                self.push_u32(*rhs_value);
            },
            Insc::IntEq { lhs_value, rhs_value, dest_value } => {
                self.push_header(OpCode::IntEq, 0, 0, 0);
                self.push_u32(*dest_value);
                self.push_u32(*lhs_value);
                self.push_u32(*rhs_value);
            },
            Insc::IntGt { lhs_value, rhs_value, dest_value } => {
                self.push_header(OpCode::IntGt, 0, 0, 0);
                self.push_u32(*dest_value);
                self.push_u32(*lhs_value);
                self.push_u32(*rhs_value);
            },
            Insc::Incr { value } => {
                self.push_header(OpCode::Incr, 0, 0, 0);
                self.push_u32(*value);
            },
            Insc::JumpIfTrue { cond_value, jump_dest } => {
                self.push_header(OpCode::JumpIfTrue, 0, 0, 0);
                self.push_u32(*cond_value);
                self.push_u32(*jump_dest);
                self.push_zero_bytes(4);
            },
            Insc::Jump { jump_dest } => {
                self.push_header(OpCode::Jump, 0, 0, 0);
                self.push_u32(*jump_dest);
            },
            Insc::FuncCall { func_id, arg_values, ret_value_locs } | Insc::FFICall {
                func_id,
                arg_values,
                ret_value_locs,
            } => {
                if arg_values.len() > 255 || ret_value_locs.len() > 255 {
                    return false;
                }
                let op = if let Insc::FuncCall { .. } = insc {
                    OpCode::FuncCall
                } else {
                    OpCode::FFICall
                };
                let pad: u8 = if (arg_values.len() + ret_value_locs.len()) % 2 == 1 {
                    4
                } else {
                    0
                };
                self.push_header(op, arg_values.len() as u8, ret_value_locs.len() as u8, pad);
                self.push_u32(*func_id);
                self.push_slots(arg_values);
                self.push_slots(ret_value_locs);
                self.push_zero_bytes(pad as usize);
            },
            Insc::ReturnOne { ret_value } => {
                self.push_header(OpCode::ReturnOne, 0, 0, 0);
                self.push_u32(*ret_value);
            },
            Insc::ReturnMultiple { ret_values } => {
                if ret_values.len() > 255 {
                    return false;
                }
                let pad: u8 = if ret_values.len() % 2 == 0 {
                    4
                } else {
                    0
                };
                self.push_header(OpCode::ReturnMultiple, ret_values.len() as u8, pad, 0);
                self.push_slots(ret_values);
                self.push_zero_bytes(pad as usize);
            },
            Insc::ReturnNothing => {
                self.push_header(OpCode::ReturnNothing, 0, 0, 0);
                self.push_zero_bytes(4);
            },
            Insc::UnreachableInsc => {
                self.push_header(OpCode::UnreachableInsc, 0, 0, 0);
                self.push_zero_bytes(4);
            },
        }
        assert(self@ =~= old(self)@ + insc_bytes(*insc));
        true
    }
}

impl AlignedBytes {
    /// Reads `n` slot indices starting at `pos`.
    fn read_slots(&self, pos: usize, n: usize) -> (r: Vec<u32>)
        requires
            pos + 4 * n <= self@.len(),
        ensures
            r@.len() == n,
            slots_bytes(r@) == self@.subrange(pos as int, pos + 4 * n),
    {
        let len = self.len();
        let mut v: Vec<u32> = Vec::new();
        let mut k: usize = 0;
        assert(self@.subrange(pos as int, pos as int) =~= Seq::<u8>::empty());
        while k < n
            invariant
                len == self@.len(),
                pos + 4 * n <= self@.len(),
                0 <= k <= n,
                v@.len() == k,
                slots_bytes(v@) == self@.subrange(pos as int, pos + 4 * k),
            decreases n - k,
        {
            let x = self.read_u32(pos + 4 * k);
            let ghost before = v@;
            v.push(x);
            assert(v@.drop_last() =~= before);
            assert(self@.subrange(pos as int, pos + 4 * (k + 1)) =~= self@.subrange(
                pos as int,
                pos + 4 * k,
            ) + self@.subrange(pos + 4 * k, pos + 4 * k + 4));
            k = k + 1;
        }
        v
    }

    fn zero_run(&self, pos: usize, n: usize) -> (r: bool)
        requires
            pos + n <= self@.len(),
        ensures
            r == (self@.subrange(pos as int, pos + n) == zeros(n as nat)),
    {
        let len = self.len();
        let mut k: usize = 0;
        while k < n
            invariant
                len == self@.len(),
                pos + n <= self@.len(),
                0 <= k <= n,
                forall|j: int| pos <= j < pos + k ==> #[trigger] self@[j] == 0,
            decreases n - k,
        {
            if self.read_byte(pos + k) != 0 {
                assert(self@.subrange(pos as int, pos + n)[k as int] != zeros(n as nat)[k as int]);
                return false;
            }
            k = k + 1;
        }
        assert(self@.subrange(pos as int, pos + n) =~= zeros(n as nat));
        true
    }

    /// Decodes a fixed-size instruction of sixteen bytes.
    fn read_wide(&self, pos: usize, op: OpCode) -> (r: Option<(Insc, usize)>)
        requires
            pos + 8 <= self@.len(),
            self@.subrange(pos as int, pos + 4) == header(op, 0, 0, 0),
            op is MakeIntConst || op is IntAdd || op is IntSub || op is IntEq || op is IntGt
                || op is JumpIfTrue,
        ensures
            r matches Some((i, next)) ==> {
                &&& encodable(i)
                &&& next == pos + insc_bytes(i).len()
                &&& next <= self@.len()
                &&& self@.subrange(pos as int, next as int) == insc_bytes(i)
            },
            r is None ==> forall|i: Insc, next: int| !#[trigger] decodes_at(self@, pos as int, i, next),
    {
        let len = self.len();
        if len - pos < 16 {
            proof {
                lemma_wide_too_short(self@, pos as int, op);
            }
            return None;
        }
        let ghost hdr = self@.subrange(pos as int, pos + 4);
        let x = self.read_u32(pos + 4);
        let ghost p = pos as int;
        match op {
            OpCode::MakeIntConst => {
                let q = self.read_u64(pos + 8);
                let c: i64 = if q <= i64::MAX as u64 {
                    q as i64
                } else {
                    (q as i128 - 0x1_0000_0000_0000_0000i128) as i64
                };
                let i = Insc::MakeIntConst { c, dest_value: x };
                assert(i64_bits(c) == q);
                assert(self@.subrange(p, p + 16) =~= hdr + self@.subrange(p + 4, p + 8)
                    + self@.subrange(p + 8, p + 16));
                Some((i, pos + 16))
            },
            OpCode::JumpIfTrue => {
                let y = self.read_u32(pos + 8);
                if !self.zero_run(pos + 12, 4) {
                    proof {
                        lemma_jump_padding(self@, pos as int);
                    }
                    return None;
                }
                let i = Insc::JumpIfTrue { cond_value: x, jump_dest: y };
                assert(self@.subrange(p, p + 16) =~= hdr + self@.subrange(p + 4, p + 8)
                    + self@.subrange(p + 8, p + 12) + self@.subrange(p + 12, p + 16));
                Some((i, pos + 16))
            },
            _ => {
                let y = self.read_u32(pos + 8);
                let z = self.read_u32(pos + 12);
                let i = match op {
                    OpCode::IntAdd => Insc::IntAdd { lhs_value: y, rhs_value: z, dest_value: x },
                    OpCode::IntSub => Insc::IntSub { lhs_value: y, rhs_value: z, dest_value: x },
                    OpCode::IntEq => Insc::IntEq { lhs_value: y, rhs_value: z, dest_value: x },
                    _ => Insc::IntGt { lhs_value: y, rhs_value: z, dest_value: x },
                };
                assert(self@.subrange(p, p + 16) =~= hdr + self@.subrange(p + 4, p + 8)
                    + self@.subrange(p + 8, p + 12) + self@.subrange(p + 12, p + 16));
                Some((i, pos + 16))
            },
        }
    }

    /// Decodes a call: opcode, counts, padding length, callee, slots, padding.
    #[verifier::spinoff_prover]
    #[verifier::rlimit(60)]
    fn read_call(&self, pos: usize, op: OpCode) -> (r: Option<(Insc, usize)>)
        requires
            pos + 8 <= self@.len(),
            self@[pos as int] == op.code(),
            op is FuncCall || op is FFICall,
        ensures
            r matches Some((i, next)) ==> {
                &&& encodable(i)
                &&& next == pos + insc_bytes(i).len()
                &&& next <= self@.len()
                &&& self@.subrange(pos as int, next as int) == insc_bytes(i)
            },
            r is None ==> forall|i: Insc, next: int| !#[trigger] decodes_at(self@, pos as int, i, next),
    {
        let len = self.len();
        let a = self.read_byte(pos + 1);
        let b = self.read_byte(pos + 2);
        let c = self.read_byte(pos + 3);
        let ghost hdr = self@.subrange(pos as int, pos + 4);
        assert(hdr =~= header(op, a, b, c));
        let n = a as usize;
        let m = b as usize;
        let pad: u8 = if (n + m) % 2 == 1 {
            4
        } else {
            0
        };
        if c != pad {
            proof {
                lemma_call_header(self@, pos as int);
            }
            return None;
        }
        let size = 8 + 4 * n + 4 * m + pad as usize;
        if len - pos < size {
            proof {
                lemma_call_too_short(self@, pos as int, size as int);
            }
            return None;
        }
        let f = self.read_u32(pos + 4);
        let args = self.read_slots(pos + 8, n);
        let rets = self.read_slots(pos + 8 + 4 * n, m);
        if !self.zero_run(pos + 8 + 4 * n + 4 * m, pad as usize) {
            proof {
                lemma_call_padding(self@, pos as int, (8 + 4 * n + 4 * m) as int, size as int);
            }
            return None;
        }
        let i = if let OpCode::FuncCall = op {
            Insc::FuncCall { func_id: f, arg_values: args, ret_value_locs: rets }
        } else {
            Insc::FFICall { func_id: f, arg_values: args, ret_value_locs: rets }
        };
        let ghost p = pos as int;
        let ghost q1 = p + 8 + 4 * n;
        let ghost q2 = q1 + 4 * m;
        assert(self@.subrange(p, p + size) =~= hdr + self@.subrange(p + 4, p + 8)
            + self@.subrange(p + 8, q1) + self@.subrange(q1, q2) + self@.subrange(q2, p + size));
        Some((i, pos + size))
    }

    /// Decodes a multiple return: opcode, count, padding length, slots, padding.
    fn read_return_multiple(&self, pos: usize) -> (r: Option<(Insc, usize)>)
        requires
            pos + 8 <= self@.len(),
            self@[pos as int] == OpCode::ReturnMultiple.code(),
        ensures
            r matches Some((i, next)) ==> {
                &&& encodable(i)
                &&& next == pos + insc_bytes(i).len()
                &&& next <= self@.len()
                &&& self@.subrange(pos as int, next as int) == insc_bytes(i)
            },
            r is None ==> forall|i: Insc, next: int| !#[trigger] decodes_at(self@, pos as int, i, next),
    {
        let len = self.len();
        let a = self.read_byte(pos + 1);
        let b = self.read_byte(pos + 2);
        let c = self.read_byte(pos + 3);
        let ghost hdr = self@.subrange(pos as int, pos + 4);
        assert(hdr =~= header(OpCode::ReturnMultiple, a, b, c));
        let n = a as usize;
        let pad: u8 = if n % 2 == 0 {
            4
        } else {
            0
        };
        if b != pad || c != 0 {
            proof {
                assert forall|i: Insc, next: int| !#[trigger] decodes_at(self@, pos as int, i, next) by {
                    if decodes_at(self@, pos as int, i, next) {
                        lemma_insc_layout(i);
                        lemma_decoded_bytes(self@, pos as int, i, next);
                        assert(self@[pos as int + 0] == insc_bytes(i)[0]);
                        assert(self@[pos as int + 1] == insc_bytes(i)[1]);
                        assert(self@[pos as int + 2] == insc_bytes(i)[2]);
                        assert(self@[pos as int + 3] == insc_bytes(i)[3]);
                    }
                }
            }
            return None;
        }
        let size = 4 + 4 * n + pad as usize;
        if len - pos < size {
            proof {
                assert forall|i: Insc, next: int| !#[trigger] decodes_at(self@, pos as int, i, next) by {
                    if decodes_at(self@, pos as int, i, next) {
                        lemma_insc_layout(i);
                        lemma_decoded_bytes(self@, pos as int, i, next);
                        assert(self@[pos as int + 0] == insc_bytes(i)[0]);
                        assert(self@[pos as int + 1] == insc_bytes(i)[1]);
                        assert(self@[pos as int + 2] == insc_bytes(i)[2]);
                        assert(self@[pos as int + 3] == insc_bytes(i)[3]);
                    }
                }
            }
            return None;
        }
        let rets = self.read_slots(pos + 4, n);
        if !self.zero_run(pos + 4 + 4 * n, pad as usize) {
            proof {
                assert forall|i: Insc, next: int| !#[trigger] decodes_at(self@, pos as int, i, next) by {
                    if decodes_at(self@, pos as int, i, next) {
                        lemma_insc_layout(i);
                        lemma_decoded_bytes(self@, pos as int, i, next);
                        assert(self@[pos as int + 0] == insc_bytes(i)[0]);
                        assert(self@[pos as int + 1] == insc_bytes(i)[1]);
                        assert(self@[pos as int + 2] == insc_bytes(i)[2]);
                        assert(self@[pos as int + 3] == insc_bytes(i)[3]);
                        assert(self@.subrange(pos as int + 4 + 4 * n, pos as int + size) =~= insc_bytes(i).subrange(4 + 4 * n, size as int));
                    }
                }
            }
            return None;
        }
        let i = Insc::ReturnMultiple { ret_values: rets };
        let ghost p = pos as int;
        let ghost q = p + 4 + 4 * n;
        assert(self@.subrange(p, p + size) =~= hdr + self@.subrange(p + 4, q) + self@.subrange(
            q,
            p + size,
        ));
        Some((i, pos + size))
    }

    /// Decodes the instruction at `pos` and gives the position after it. Whatever it
    /// decodes re-encodes to exactly the bytes it read.
    pub fn read_insc(&self, pos: usize) -> (r: Option<(Insc, usize)>)
        ensures
            r matches Some((i, next)) ==> {
                &&& encodable(i)
                &&& next == pos + insc_bytes(i).len()
                &&& next <= self@.len()
                &&& self@.subrange(pos as int, next as int) == insc_bytes(i)
            },
            r is None ==> forall|i: Insc, next: int| !#[trigger] decodes_at(self@, pos as int, i, next),
    {
        let len = self.len();
        if pos >= len || len - pos < 8 {
            proof {
                assert forall|i: Insc, next: int| !#[trigger] decodes_at(self@, pos as int, i, next) by {
                    if decodes_at(self@, pos as int, i, next) {
                        lemma_insc_layout(i);
                        lemma_decoded_bytes(self@, pos as int, i, next);
                    }
                }
            }
            return None;
        }
        let op = match OpCode::from_u8(self.read_byte(pos)) {
            Some(op) => op,
            None => {
                proof {
                    assert forall|i: Insc, next: int| !#[trigger] decodes_at(self@, pos as int, i, next) by {
                        if decodes_at(self@, pos as int, i, next) {
                            lemma_insc_layout(i);
                            lemma_decoded_bytes(self@, pos as int, i, next);
                            assert(self@[pos as int + 0] == insc_bytes(i)[0]);
                        }
                    }
                }
                return None;
            },
        };
        match op {
            OpCode::FuncCall | OpCode::FFICall => {
                return self.read_call(pos, op);
            },
            OpCode::ReturnMultiple => {
                return self.read_return_multiple(pos);
            },
            _ => {},
        }
        let a = self.read_byte(pos + 1);
        let b = self.read_byte(pos + 2);
        let c = self.read_byte(pos + 3);
        if a != 0 || b != 0 || c != 0 {
            proof {
                assert forall|i: Insc, next: int| !#[trigger] decodes_at(self@, pos as int, i, next) by {
                    if decodes_at(self@, pos as int, i, next) {
                        lemma_insc_layout(i);
                        lemma_decoded_bytes(self@, pos as int, i, next);
                        assert(self@[pos as int + 0] == insc_bytes(i)[0]);
                        assert(self@[pos as int + 1] == insc_bytes(i)[1]);
                        assert(self@[pos as int + 2] == insc_bytes(i)[2]);
                        assert(self@[pos as int + 3] == insc_bytes(i)[3]);
                    }
                }
            }
            return None;
        }
        let ghost hdr = self@.subrange(pos as int, pos + 4);
        assert(hdr =~= header(op, 0, 0, 0));
        match op {
            OpCode::Incr | OpCode::Jump | OpCode::ReturnOne => {
                let x = self.read_u32(pos + 4);
                let i = match op {
                    OpCode::Incr => Insc::Incr { value: x },
                    OpCode::Jump => Insc::Jump { jump_dest: x },
                    _ => Insc::ReturnOne { ret_value: x },
                };
                assert(self@.subrange(pos as int, pos + 8) =~= hdr + self@.subrange(
                    pos + 4,
                    pos + 8,
                ));
                Some((i, pos + 8))
            },
            OpCode::ReturnNothing | OpCode::UnreachableInsc => {
                if !self.zero_run(pos + 4, 4) {
                    proof {
                        assert forall|i: Insc, next: int| !#[trigger] decodes_at(self@, pos as int, i, next) by {
                            if decodes_at(self@, pos as int, i, next) {
                                lemma_insc_layout(i);
                                lemma_decoded_bytes(self@, pos as int, i, next);
                                assert(self@[pos as int + 0] == insc_bytes(i)[0]);
                                assert(self@.subrange(pos as int + 4, pos as int + 8) =~= insc_bytes(i).subrange(4, 8));
                            }
                        }
                    }
                    return None;
                }
                let i = match op {
                    OpCode::ReturnNothing => Insc::ReturnNothing,
                    _ => Insc::UnreachableInsc,
                };
                assert(self@.subrange(pos as int, pos + 8) =~= hdr + self@.subrange(
                    pos + 4,
                    pos + 8,
                ));
                Some((i, pos + 8))
            },
            _ => self.read_wide(pos, op),
        }
    }
}

} // verus!
