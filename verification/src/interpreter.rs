//! The bytecode interpreter: the opcode set, programs, and the machine that
//! runs them one opcode at a time.

use vstd::prelude::*;
use crate::encoding::{
    be_u32, bits_i16, bits_i32, bits_i64, bits_i8, i16_bits, i16_from_bits, i16_to_bits, i32_bits,
    i32_from_bits, i32_to_bits, i64_bits, i64_from_bits, i64_to_bits, i8_bits, i8_from_bits,
    i8_to_bits, lemma_be_round_trip, u16_be, u32_be, u64_be,
};
use crate::ast::{SizeAlign, TCStructMember, TCType};
use crate::filedb::{
    FileDb, EXIT_SYMBOL, MALLOC_SYMBOL, MEMCPY_SYMBOL, PRINTF_SYMBOL, REALLOC_SYMBOL,
};
use crate::library::{exit, exit_step, malloc, malloc_step, memcpy, memcpy_step, realloc, realloc_step};
use crate::printf::{printf, printf_step};
use crate::runtime::{
    agrees, dropped, lemma_call_then_ret, lemma_push_then_pop, local_id, zeros, BufferView,
    ErrorKind, IError, Memory, MemoryView, Var, VarBuffer, VarPointer, CALL_DEPTH_LIMIT,
    META_NO_SYMBOL, POOL_LIMIT, STACK_VAR_LIMIT, TAG_BINARY, TAG_STACK, VAR_ID_LIMIT,
};
use crate::util::{no_file, CodeLoc, StringArray, NO_FILE_ID};

verus! {

/// Environment call that ends the program with the exit code on top of the
/// operand stack.
pub const ECALL_EXIT: u32 = 0;

/// Environment call that pushes the number of program arguments.
pub const ECALL_ARGC: u32 = 1;

/// Environment call that pops an argument index and pushes a pointer to a
/// fresh heap copy of that argument, zero terminated.
pub const ECALL_ARGV: u32 = 2;

/// The instructions of the machine.
///
/// - `GetLocal` and `SetLocal` read and write a stack variable that is
///   named relative to the frame pointer.
/// - `Get` and `Store` do the same through a pointer that they pop first.
/// - `PopKeep` drops `drop` bytes from under the top `keep` bytes.
/// - The comparisons pop the right operand, then the left one, and push
///   the byte 1 where the comparison holds and the byte 0 where it does
///   not.
#[derive(Debug, Clone, Copy, PartialEq, Eq, Structural)]
pub enum Opcode {
    Func(u32),
    StackAlloc { bytes: u32, symbol: u32 },
    StackAllocDyn { symbol: u32 },
    StackDealloc,
    StackAddToTemp,
    MakeTempI8(i8),
    MakeTempI32(i32),
    MakeTempI64(i64),
    MakeTempU64(u64),
    /// Pushes a double, given by its IEEE 754 bit pattern.
    MakeTempF64(u64),
    MakeTempBinaryPtr { var: u32, offset: u32 },
    MakeTempLocalStackPtr { var: i16, offset: u32 },
    Pop { bytes: u32 },
    PopKeep { keep: u32, drop: u32 },
    PushUndef { bytes: u32 },
    PushDup { bytes: u32 },
    Swap { top: u32, bottom: u32 },
    PopIntoTopVar { offset: u32, bytes: u32 },
    SExtend8To16,
    SExtend8To32,
    SExtend8To64,
    SExtend16To32,
    SExtend16To64,
    SExtend32To64,
    ZExtend8To16,
    ZExtend8To32,
    ZExtend8To64,
    ZExtend16To32,
    ZExtend16To64,
    ZExtend32To64,
    GetLocal { var: i16, offset: u32, bytes: u32 },
    SetLocal { var: i16, offset: u32, bytes: u32 },
    Get { offset: u32, bytes: u32 },
    /// Writes through a popped pointer, as `Get` reads through one.
    Store { offset: u32, bytes: u32 },
    AddU32,
    AddU64,
    SubI32,
    SubI64,
    SubU64,
    MulI32,
    DivI32,
    DivI64,
    DivU64,
    CompLtI32,
    CompLtU64,
    CompLeqI32,
    CompLeqU64,
    CompEq32,
    CompNeq32,
    CompEq64,
    MulI64,
    MulU64,
    ModI64,
    Jump(u32),
    JumpIfZero8(u32),
    JumpIfZero16(u32),
    JumpIfZero32(u32),
    JumpIfZero64(u32),
    JumpIfNotZero8(u32),
    JumpIfNotZero16(u32),
    JumpIfNotZero32(u32),
    JumpIfNotZero64(u32),
    Ret,
    Call(u32),
    LibCall(u32),
    Ecall(u32),
}

/// An opcode with the source location that it was compiled from.
#[derive(Debug, Clone, Copy, PartialEq, Eq, Structural)]
pub struct TaggedOpcode {
    pub op: Opcode,
    pub loc: CodeLoc,
}

/// How the machine deals with an opcode.
#[derive(Debug, Clone, Copy, PartialEq, Eq, Structural)]
pub enum OpClass {
    /// Moves bytes between the operand stack, the stack variables and the
    /// segments.
    Stack,
    /// Widens the value on top of the operand stack.
    Extend,
    /// Computes on the two values on top of the operand stack.
    Arith,
    /// Decides where execution goes on.
    Control,
}

/// The class of an opcode.
pub open spec fn op_class(op: Opcode) -> OpClass {
    match op {
        Opcode::Func(_)
        | Opcode::StackAlloc { .. }
        | Opcode::StackAllocDyn { .. }
        | Opcode::StackDealloc
        | Opcode::StackAddToTemp
        | Opcode::MakeTempI8(_)
        | Opcode::MakeTempI32(_)
        | Opcode::MakeTempI64(_)
        | Opcode::MakeTempU64(_)
        | Opcode::MakeTempF64(_)
        | Opcode::MakeTempBinaryPtr { .. }
        | Opcode::MakeTempLocalStackPtr { .. }
        | Opcode::Pop { .. }
        | Opcode::PopKeep { .. }
        | Opcode::PushUndef { .. }
        | Opcode::PushDup { .. }
        | Opcode::Swap { .. }
        | Opcode::PopIntoTopVar { .. }
        | Opcode::GetLocal { .. }
        | Opcode::SetLocal { .. }
        | Opcode::Get { .. }
        | Opcode::Store { .. } => OpClass::Stack,
        Opcode::SExtend8To16
        | Opcode::SExtend8To32
        | Opcode::SExtend8To64
        | Opcode::SExtend16To32
        | Opcode::SExtend16To64
        | Opcode::SExtend32To64
        | Opcode::ZExtend8To16
        | Opcode::ZExtend8To32
        | Opcode::ZExtend8To64
        | Opcode::ZExtend16To32
        | Opcode::ZExtend16To64
        | Opcode::ZExtend32To64 => OpClass::Extend,
        Opcode::AddU32
        | Opcode::AddU64
        | Opcode::SubI32
        | Opcode::SubI64
        | Opcode::SubU64
        | Opcode::MulI32
        | Opcode::DivI32
        | Opcode::DivI64
        | Opcode::DivU64
        | Opcode::CompLtI32
        | Opcode::CompLtU64
        | Opcode::CompLeqI32
        | Opcode::CompLeqU64
        | Opcode::CompEq32
        | Opcode::CompNeq32
        | Opcode::CompEq64
        | Opcode::MulI64
        | Opcode::MulU64
        | Opcode::ModI64 => OpClass::Arith,
        Opcode::Jump(_)
        | Opcode::JumpIfZero8(_)
        | Opcode::JumpIfZero16(_)
        | Opcode::JumpIfZero32(_)
        | Opcode::JumpIfZero64(_)
        | Opcode::JumpIfNotZero8(_)
        | Opcode::JumpIfNotZero16(_)
        | Opcode::JumpIfNotZero32(_)
        | Opcode::JumpIfNotZero64(_)
        | Opcode::Ret
        | Opcode::Call(_)
        | Opcode::LibCall(_)
        | Opcode::Ecall(_) => OpClass::Control,
    }
}

/// The class of an opcode.
pub fn classify(op: Opcode) -> (class: OpClass)
    ensures
        class == op_class(op),
{
    match op {
        Opcode::Func(_)
        | Opcode::StackAlloc { .. }
        | Opcode::StackAllocDyn { .. }
        | Opcode::StackDealloc
        | Opcode::StackAddToTemp
        | Opcode::MakeTempI8(_)
        | Opcode::MakeTempI32(_)
        | Opcode::MakeTempI64(_)
        | Opcode::MakeTempU64(_)
        | Opcode::MakeTempF64(_)
        | Opcode::MakeTempBinaryPtr { .. }
        | Opcode::MakeTempLocalStackPtr { .. }
        | Opcode::Pop { .. }
        | Opcode::PopKeep { .. }
        | Opcode::PushUndef { .. }
        | Opcode::PushDup { .. }
        | Opcode::Swap { .. }
        | Opcode::PopIntoTopVar { .. }
        | Opcode::GetLocal { .. }
        | Opcode::SetLocal { .. }
        | Opcode::Get { .. }
        | Opcode::Store { .. } => OpClass::Stack,
        Opcode::SExtend8To16
        | Opcode::SExtend8To32
        | Opcode::SExtend8To64
        | Opcode::SExtend16To32
        | Opcode::SExtend16To64
        | Opcode::SExtend32To64
        | Opcode::ZExtend8To16
        | Opcode::ZExtend8To32
        | Opcode::ZExtend8To64
        | Opcode::ZExtend16To32
        | Opcode::ZExtend16To64
        | Opcode::ZExtend32To64 => OpClass::Extend,
        Opcode::AddU32
        | Opcode::AddU64
        | Opcode::SubI32
        | Opcode::SubI64
        | Opcode::SubU64
        | Opcode::MulI32
        | Opcode::DivI32
        | Opcode::DivI64
        | Opcode::DivU64
        | Opcode::CompLtI32
        | Opcode::CompLtU64
        | Opcode::CompLeqI32
        | Opcode::CompLeqU64
        | Opcode::CompEq32
        | Opcode::CompNeq32
        | Opcode::CompEq64
        | Opcode::MulI64
        | Opcode::MulU64
        | Opcode::ModI64 => OpClass::Arith,
        Opcode::Jump(_)
        | Opcode::JumpIfZero8(_)
        | Opcode::JumpIfZero16(_)
        | Opcode::JumpIfZero32(_)
        | Opcode::JumpIfZero64(_)
        | Opcode::JumpIfNotZero8(_)
        | Opcode::JumpIfNotZero16(_)
        | Opcode::JumpIfNotZero32(_)
        | Opcode::JumpIfNotZero64(_)
        | Opcode::Ret
        | Opcode::Call(_)
        | Opcode::LibCall(_)
        | Opcode::Ecall(_) => OpClass::Control,
    }
}

/// The target of a jump opcode.
pub open spec fn jump_target(op: Opcode) -> Option<u32> {
    match op {
        Opcode::Jump(t)
        | Opcode::JumpIfZero8(t)
        | Opcode::JumpIfZero16(t)
        | Opcode::JumpIfZero32(t)
        | Opcode::JumpIfZero64(t)
        | Opcode::JumpIfNotZero8(t)
        | Opcode::JumpIfNotZero16(t)
        | Opcode::JumpIfNotZero32(t)
        | Opcode::JumpIfNotZero64(t) => Some(t),
        _ => None,
    }
}

/// Whether execution can go on at the next opcode after `op`.
pub open spec fn falls_through(op: Opcode) -> bool {
    !(op is Jump || op is Ret)
}

/// Whether the opcode at `i` keeps execution within `ops`: a jump goes to an
/// opcode, a call goes to a function header that an opcode follows, and an
/// opcode that can fall through is not the last.
pub open spec fn op_in_range(ops: Seq<TaggedOpcode>, i: int) -> bool {
    &&& falls_through(ops[i].op) ==> i + 1 < ops.len()
    &&& jump_target(ops[i].op) matches Some(t) ==> t < ops.len()
    &&& ops[i].op matches Opcode::Call(t) ==> t + 1 < ops.len() && ops[t as int].op is Func
}

/// Whether execution can never leave `ops`.
pub open spec fn ops_closed(ops: Seq<TaggedOpcode>) -> bool {
    forall|i: int| 0 <= i < ops.len() ==> op_in_range(ops, i)
}

/// An assembled program: the source files, the opcodes, the static data,
/// and the index of the header of `main`.
#[derive(Debug)]
pub struct Program {
    pub files: FileDb,
    pub ops: Vec<TaggedOpcode>,
    pub data: VarBuffer,
    pub main_idx: u32,
}

impl Program {
    /// A program can be run when execution can never leave its opcodes,
    /// `main_idx` is the index of a function header, and its static data is
    /// well formed.
    pub open spec fn wf(&self) -> bool {
        &&& self.ops@.len() <= u32::MAX
        &&& self.main_idx < self.ops@.len()
        &&& self.ops@[self.main_idx as int].op is Func
        &&& ops_closed(self.ops@)
        &&& self.data@.wf()
    }

    /// Whether the program can be run.
    pub fn check(&self) -> (ok: bool)
        ensures
            ok == self.wf(),
    {
        let len: usize = self.ops.len();
        if len > u32::MAX as usize || self.main_idx as usize >= len || !self.data.is_wf() {
            return false;
        }
        match self.ops[self.main_idx as usize].op {
            Opcode::Func(_) => {},
            _ => {
                return false;
            },
        }
        let mut i: usize = 0;
        while i < len
            invariant
                i <= len,
                len == self.ops@.len(),
                self.data@.wf(),
                forall|k: int| 0 <= k < i ==> op_in_range(self.ops@, k),
            decreases len - i,
        {
            if !op_is_in_range(&self.ops, i) {
                return false;
            }
            i = i + 1;
        }
        true
    }
}

/// Whether the opcode at `i` keeps execution within `ops`.
pub fn op_is_in_range(ops: &Vec<TaggedOpcode>, i: usize) -> (ok: bool)
    requires
        i < ops@.len(),
    ensures
        ok == op_in_range(ops@, i as int),
{
    let len: usize = ops.len();
    match ops[i].op {
        Opcode::Jump(t) => (t as usize) < len,
        Opcode::Ret => true,
        Opcode::JumpIfZero8(t)
        | Opcode::JumpIfZero16(t)
        | Opcode::JumpIfZero32(t)
        | Opcode::JumpIfZero64(t)
        | Opcode::JumpIfNotZero8(t)
        | Opcode::JumpIfNotZero16(t)
        | Opcode::JumpIfNotZero32(t)
        | Opcode::JumpIfNotZero64(t) => (t as usize) < len && i + 1 < len,
        Opcode::Call(t) => {
            if i + 1 < len && (t as usize) < len && t as usize + 1 < len {
                match ops[t as usize].op {
                    Opcode::Func(_) => true,
                    _ => false,
                }
            } else {
                false
            }
        },
        _ => i + 1 < len,
    }
}

/// A step that yields a value, as a step that yields none.
pub open spec fn drop_value<T>(step: (MemoryView, Result<T, ErrorKind>)) -> (
    MemoryView,
    Result<(), ErrorKind>,
) {
    (step.0, dropped(step.1))
}

/// The pointer that a local variable index and an offset name under frame
/// pointer `fp`.
pub open spec fn local_ptr(fp: u16, var: i16, offset: u32) -> VarPointer {
    VarPointer::make(TAG_STACK as int, local_id(fp, var) as int, offset as int)
}

/// The pointer that the bits `value` encode, moved on by `offset` bytes.
pub open spec fn shifted_ptr(value: u64, offset: u32) -> VarPointer {
    VarPointer::make(
        (VarPointer { value }).tag(),
        (VarPointer { value }).var(),
        (VarPointer { value }).off_plus(offset as int),
    )
}

/// What an opcode of the class `Stack` does to the memory.
pub open spec fn stack_step(m: MemoryView, op: Opcode) -> (MemoryView, Result<(), ErrorKind>) {
    match op {
        Opcode::StackAlloc { bytes, symbol } => drop_value(m.add_stack_var(bytes, symbol)),
        Opcode::StackAllocDyn { symbol } => match m.pop_u32().1 {
            Ok(space) => drop_value(m.pop_u32().0.add_stack_var(space, symbol)),
            Err(kind) => (m, Err(kind)),
        },
        Opcode::StackDealloc => drop_value(m.pop_stack_var()),
        Opcode::StackAddToTemp => m.pop_stack_var_onto_stack(),
        Opcode::MakeTempI8(value) => m.push(seq![i8_bits(value)]),
        Opcode::MakeTempI32(value) => m.push(u32_be(i32_bits(value))),
        Opcode::MakeTempI64(value) => m.push(u64_be(i64_bits(value))),
        Opcode::MakeTempU64(value) => m.push(u64_be(value)),
        Opcode::MakeTempF64(bits) => m.push(u64_be(bits)),
        Opcode::MakeTempBinaryPtr { var, offset } => m.push(
            u64_be(
                VarPointer::make(
                    TAG_BINARY as int,
                    (var % VAR_ID_LIMIT) as int,
                    offset as int,
                ).value,
            ),
        ),
        Opcode::MakeTempLocalStackPtr { var, offset } => m.push(
            u64_be(local_ptr(m.fp, var, offset).value),
        ),
        Opcode::Pop { bytes } => drop_value(m.pop(bytes as int)),
        Opcode::PopKeep { keep, drop } => m.pop_keep(keep as int, drop as int),
        Opcode::PushUndef { bytes } => m.push(zeros(bytes as int)),
        Opcode::PushDup { bytes } => m.dup(bytes as int),
        Opcode::Swap { top, bottom } => m.swap(top as int, bottom as int),
        Opcode::PopIntoTopVar { offset, bytes } => m.pop_stack_bytes_into(
            VarPointer::make(TAG_STACK as int, m.stack.vars.len() as int, offset as int),
            bytes as int,
        ),
        Opcode::GetLocal { var, offset, bytes } => m.push_stack_bytes_from(
            local_ptr(m.fp, var, offset),
            bytes as int,
        ),
        Opcode::SetLocal { var, offset, bytes } => m.pop_stack_bytes_into(
            local_ptr(m.fp, var, offset),
            bytes as int,
        ),
        Opcode::Get { offset, bytes } => match m.pop_u64().1 {
            Ok(value) => m.pop_u64().0.push_stack_bytes_from(
                shifted_ptr(value, offset),
                bytes as int,
            ),
            Err(kind) => (m, Err(kind)),
        },
        Opcode::Store { offset, bytes } => match m.pop_u64().1 {
            Ok(value) => m.pop_u64().0.pop_stack_bytes_into(
                shifted_ptr(value, offset),
                bytes as int,
            ),
            Err(kind) => (m, Err(kind)),
        },
        _ => (m, Ok(())),
    }
}

/// The bytes that a widening opcode makes of the value `v` that it pops.
/// Signed widening keeps the value; unsigned widening keeps the magnitude.
pub open spec fn extended(op: Opcode, v: u64) -> Seq<u8> {
    match op {
        Opcode::SExtend8To16 => u16_be(i16_bits(bits_i8(v as u8) as i16)),
        Opcode::SExtend8To32 => u32_be(i32_bits(bits_i8(v as u8) as i32)),
        Opcode::SExtend8To64 => u64_be(i64_bits(bits_i8(v as u8) as i64)),
        Opcode::SExtend16To32 => u32_be(i32_bits(bits_i16(v as u16) as i32)),
        Opcode::SExtend16To64 => u64_be(i64_bits(bits_i16(v as u16) as i64)),
        Opcode::SExtend32To64 => u64_be(i64_bits(bits_i32(v as u32) as i64)),
        Opcode::ZExtend8To16 => u16_be(v as u16),
        Opcode::ZExtend8To32 => u32_be(v as u32),
        Opcode::ZExtend16To32 => u32_be(v as u32),
        _ => u64_be(v),
    }
}

/// The number of bytes that a widening opcode pops.
pub open spec fn extend_source_width(op: Opcode) -> int {
    match op {
        Opcode::SExtend8To16
        | Opcode::SExtend8To32
        | Opcode::SExtend8To64
        | Opcode::ZExtend8To16
        | Opcode::ZExtend8To32
        | Opcode::ZExtend8To64 => 1,
        Opcode::SExtend16To32
        | Opcode::SExtend16To64
        | Opcode::ZExtend16To32
        | Opcode::ZExtend16To64 => 2,
        _ => 4,
    }
}

/// Popping a big-endian value of `width` bytes, for the widths 1, 2 and 4.
pub open spec fn pop_narrow(m: MemoryView, width: int) -> (MemoryView, Result<u64, ErrorKind>) {
    if width == 1 {
        match m.pop_u8().1 {
            Ok(v) => (m.pop_u8().0, Ok(v as u64)),
            Err(kind) => (m, Err(kind)),
        }
    } else if width == 2 {
        match m.pop_u16().1 {
            Ok(v) => (m.pop_u16().0, Ok(v as u64)),
            Err(kind) => (m, Err(kind)),
        }
    } else {
        match m.pop_u32().1 {
            Ok(v) => (m.pop_u32().0, Ok(v as u64)),
            Err(kind) => (m, Err(kind)),
        }
    }
}

/// What an opcode of the class `Extend` does to the memory: it pops a
/// big-endian value of the source width and pushes it at the target width.
pub open spec fn extend_step(m: MemoryView, op: Opcode) -> (MemoryView, Result<(), ErrorKind>) {
    match pop_narrow(m, extend_source_width(op)).1 {
        Ok(v) => pop_narrow(m, extend_source_width(op)).0.push(extended(op, v)),
        Err(kind) => (m, Err(kind)),
    }
}

/// The quotient of `x` by `d`, rounded towards zero.
pub open spec fn trunc_div(x: int, d: int) -> int {
    if x >= 0 {
        if d > 0 {
            x / d
        } else {
            -(x / (-d))
        }
    } else {
        if d > 0 {
            -((-x) / d)
        } else {
            (-x) / (-d)
        }
    }
}

/// Signed 32-bit division: a zero divisor is trapped, and the one quotient
/// out of range wraps around to the dividend.
pub open spec fn div_i32(l: i32, r: i32) -> Result<i32, ErrorKind> {
    if r == 0 {
        Err(ErrorKind::DivisionByZero)
    } else if l == i32::MIN && r == -1 {
        Ok(l)
    } else {
        Ok(trunc_div(l as int, r as int) as i32)
    }
}

/// Signed 64-bit division: a zero divisor is trapped, and the one quotient
/// out of range wraps around to the dividend.
pub open spec fn div_i64(l: i64, r: i64) -> Result<i64, ErrorKind> {
    if r == 0 {
        Err(ErrorKind::DivisionByZero)
    } else if l == i64::MIN && r == -1 {
        Ok(l)
    } else {
        Ok(trunc_div(l as int, r as int) as i64)
    }
}

/// The byte that a comparison pushes.
pub open spec fn truth(b: bool) -> Seq<u8> {
    seq![if b { 1u8 } else { 0u8 }]
}

/// Whether an opcode of the class `Arith` works on 32-bit operands.
pub open spec fn is_word_op(op: Opcode) -> bool {
    match op {
        Opcode::AddU32
        | Opcode::SubI32
        | Opcode::MulI32
        | Opcode::DivI32
        | Opcode::CompLtI32
        | Opcode::CompLeqI32
        | Opcode::CompEq32
        | Opcode::CompNeq32 => true,
        _ => false,
    }
}

/// The bytes that a 32-bit opcode pushes for the operands `l` and `r`, or
/// the fault that it raises.
pub open spec fn word_result(op: Opcode, l: u32, r: u32) -> Result<Seq<u8>, ErrorKind> {
    match op {
        Opcode::AddU32 => Ok(u32_be(l.wrapping_add(r))),
        Opcode::SubI32 => Ok(u32_be(i32_bits(bits_i32(l).wrapping_sub(bits_i32(r))))),
        Opcode::MulI32 => Ok(u32_be(i32_bits(bits_i32(l).wrapping_mul(bits_i32(r))))),
        Opcode::DivI32 => match div_i32(bits_i32(l), bits_i32(r)) {
            Ok(q) => Ok(u32_be(i32_bits(q))),
            Err(kind) => Err(kind),
        },
        Opcode::CompLtI32 => Ok(truth(bits_i32(l) < bits_i32(r))),
        Opcode::CompLeqI32 => Ok(truth(bits_i32(l) <= bits_i32(r))),
        Opcode::CompEq32 => Ok(truth(l == r)),
        _ => Ok(truth(l != r)),
    }
}

/// The bytes that a 64-bit opcode pushes for the operands `l` and `r`, or
/// the fault that it raises.
pub open spec fn long_result(op: Opcode, l: u64, r: u64) -> Result<Seq<u8>, ErrorKind> {
    match op {
        Opcode::AddU64 => Ok(u64_be(l.wrapping_add(r))),
        Opcode::SubI64 => Ok(u64_be(i64_bits(bits_i64(l).wrapping_sub(bits_i64(r))))),
        Opcode::SubU64 => Ok(u64_be(l.wrapping_sub(r))),
        Opcode::MulI64 => Ok(u64_be(i64_bits(bits_i64(l).wrapping_mul(bits_i64(r))))),
        Opcode::MulU64 => Ok(u64_be(l.wrapping_mul(r))),
        Opcode::DivI64 => match div_i64(bits_i64(l), bits_i64(r)) {
            Ok(q) => Ok(u64_be(i64_bits(q))),
            Err(kind) => Err(kind),
        },
        Opcode::DivU64 => if r == 0 {
            Err(ErrorKind::DivisionByZero)
        } else {
            Ok(u64_be(l / r))
        },
        Opcode::ModI64 => if r == 0 {
            Err(ErrorKind::DivisionByZero)
        } else {
            Ok(u64_be(l % r))
        },
        Opcode::CompLtU64 => Ok(truth(l < r)),
        Opcode::CompLeqU64 => Ok(truth(l <= r)),
        _ => Ok(truth(l == r)),
    }
}

/// Popping the right operand and then the left one, both 32 bits wide.
pub open spec fn pop_words(m: MemoryView) -> (MemoryView, Result<(u32, u32), ErrorKind>) {
    match m.pop_u32().1 {
        Ok(r) => match m.pop_u32().0.pop_u32().1 {
            Ok(l) => (m.pop_u32().0.pop_u32().0, Ok((l, r))),
            Err(kind) => (m.pop_u32().0, Err(kind)),
        },
        Err(kind) => (m, Err(kind)),
    }
}

/// Popping the right operand and then the left one, both 64 bits wide.
pub open spec fn pop_longs(m: MemoryView) -> (MemoryView, Result<(u64, u64), ErrorKind>) {
    match m.pop_u64().1 {
        Ok(r) => match m.pop_u64().0.pop_u64().1 {
            Ok(l) => (m.pop_u64().0.pop_u64().0, Ok((l, r))),
            Err(kind) => (m.pop_u64().0, Err(kind)),
        },
        Err(kind) => (m, Err(kind)),
    }
}

/// Pushing the result of a computation, or raising its fault.
pub open spec fn push_result(m: MemoryView, result: Result<Seq<u8>, ErrorKind>) -> (
    MemoryView,
    Result<(), ErrorKind>,
) {
    match result {
        Ok(bytes) => m.push(bytes),
        Err(kind) => (m, Err(kind)),
    }
}

/// What an opcode of the class `Arith` does to the memory: it pops the
/// right operand, pops the left operand, and pushes the result.
pub open spec fn arith_step(m: MemoryView, op: Opcode) -> (MemoryView, Result<(), ErrorKind>) {
    if is_word_op(op) {
        match pop_words(m).1 {
            Ok((l, r)) => push_result(pop_words(m).0, word_result(op, l, r)),
            Err(kind) => (pop_words(m).0, Err(kind)),
        }
    } else {
        match pop_longs(m).1 {
            Ok((l, r)) => push_result(pop_longs(m).0, long_result(op, l, r)),
            Err(kind) => (pop_longs(m).0, Err(kind)),
        }
    }
}

/// Runs an opcode of the class `Stack` that allocates, frees or pushes a
/// constant.
fn run_alloc_op(memory: &mut Memory, op: Opcode) -> (r: Result<(), IError>)
    requires
        old(memory).wf(),
        op_class(op) == OpClass::Stack,
    ensures
        final(memory).wf(),
        final(memory)@.same_control(old(memory)@),
        is_alloc_op(op) ==> final(memory)@ == stack_step(old(memory)@, op).0 && agrees(
            r,
            stack_step(old(memory)@, op).1,
        ),
{
    match op {
        Opcode::StackAlloc { bytes, symbol } => match memory.add_stack_var(bytes, symbol) {
            Ok(_) => Ok(()),
            Err(e) => Err(e),
        },
        Opcode::StackAllocDyn { symbol } => match memory.pop_u32() {
            Ok(space) => match memory.add_stack_var(space, symbol) {
                Ok(_) => Ok(()),
                Err(e) => Err(e),
            },
            Err(e) => Err(e),
        },
        Opcode::StackDealloc => match memory.pop_stack_var() {
            Ok(_) => Ok(()),
            Err(e) => Err(e),
        },
        Opcode::StackAddToTemp => memory.pop_stack_var_onto_stack(),
        Opcode::MakeTempI8(value) => memory.push_u8(i8_to_bits(value)),
        Opcode::MakeTempI32(value) => memory.push_u32(i32_to_bits(value)),
        Opcode::MakeTempI64(value) => memory.push_u64(i64_to_bits(value)),
        Opcode::MakeTempU64(value) => memory.push_u64(value),
        Opcode::MakeTempF64(bits) => memory.push_u64(bits),
        Opcode::MakeTempBinaryPtr { var, offset } => {
            let ptr = VarPointer::new_binary(var % VAR_ID_LIMIT, offset);
            memory.push_u64(ptr.value)
        },
        Opcode::MakeTempLocalStackPtr { var, offset } => {
            let ptr = VarPointer::new_stack(memory.fp_offset(var), offset);
            memory.push_u64(ptr.value)
        },
        _ => Ok(()),
    }
}

/// Runs an opcode of the class `Stack` that moves bytes.
fn run_move_op(memory: &mut Memory, op: Opcode) -> (r: Result<(), IError>)
    requires
        old(memory).wf(),
        op_class(op) == OpClass::Stack,
        !is_alloc_op(op),
    ensures
        final(memory).wf(),
        final(memory)@.same_control(old(memory)@),
        final(memory)@ == stack_step(old(memory)@, op).0,
        agrees(r, stack_step(old(memory)@, op).1),
{
    match op {
        Opcode::Pop { bytes } => memory.pop_bytes(bytes),
        Opcode::PopKeep { keep, drop } => memory.pop_keep_bytes(keep, drop),
        Opcode::PushUndef { bytes } => push_zeros(memory, bytes),
        Opcode::PushDup { bytes } => memory.dup_top_stack_bytes(bytes),
        Opcode::Swap { top, bottom } => memory.swap_bytes(top, bottom),
        Opcode::PopIntoTopVar { offset, bytes } => {
            let ptr = VarPointer::new_stack(memory.stack_length(), offset);
            memory.pop_stack_bytes_into(ptr, bytes)
        },
        Opcode::GetLocal { var, offset, bytes } => {
            let ptr = VarPointer::new_stack(memory.fp_offset(var), offset);
            memory.push_stack_bytes_from(ptr, bytes)
        },
        Opcode::SetLocal { var, offset, bytes } => {
            let ptr = VarPointer::new_stack(memory.fp_offset(var), offset);
            memory.pop_stack_bytes_into(ptr, bytes)
        },
        Opcode::Get { offset, bytes } => match memory.pop_u64() {
            Ok(value) => {
                let ptr = (VarPointer { value }).add(offset as u64);
                memory.push_stack_bytes_from(ptr, bytes)
            },
            Err(e) => Err(e),
        },
        Opcode::Store { offset, bytes } => match memory.pop_u64() {
            Ok(value) => {
                let ptr = (VarPointer { value }).add(offset as u64);
                memory.pop_stack_bytes_into(ptr, bytes)
            },
            Err(e) => Err(e),
        },
        _ => Ok(()),
    }
}

/// Whether an opcode of the class `Stack` allocates, frees or pushes a
/// constant, rather than moving bytes.
pub open spec fn is_alloc_op(op: Opcode) -> bool {
    match op {
        Opcode::StackAlloc { .. }
        | Opcode::StackAllocDyn { .. }
        | Opcode::StackDealloc
        | Opcode::StackAddToTemp
        | Opcode::MakeTempI8(_)
        | Opcode::MakeTempI32(_)
        | Opcode::MakeTempI64(_)
        | Opcode::MakeTempU64(_)
        | Opcode::MakeTempF64(_)
        | Opcode::MakeTempBinaryPtr { .. }
        | Opcode::MakeTempLocalStackPtr { .. } => true,
        _ => false,
    }
}

/// Runs an opcode of the class `Stack`.
pub fn run_stack_op(memory: &mut Memory, op: Opcode) -> (r: Result<(), IError>)
    requires
        old(memory).wf(),
        op_class(op) == OpClass::Stack,
    ensures
        final(memory).wf(),
        final(memory)@.same_control(old(memory)@),
        final(memory)@ == stack_step(old(memory)@, op).0,
        agrees(r, stack_step(old(memory)@, op).1),
{
    match op {
        Opcode::StackAlloc { .. }
        | Opcode::StackAllocDyn { .. }
        | Opcode::StackDealloc
        | Opcode::StackAddToTemp
        | Opcode::MakeTempI8(_)
        | Opcode::MakeTempI32(_)
        | Opcode::MakeTempI64(_)
        | Opcode::MakeTempU64(_)
        | Opcode::MakeTempF64(_)
        | Opcode::MakeTempBinaryPtr { .. }
        | Opcode::MakeTempLocalStackPtr { .. } => run_alloc_op(memory, op),
        _ => run_move_op(memory, op),
    }
}

/// Pushes `count` zero bytes onto the operand stack.
fn push_zeros(memory: &mut Memory, count: u32) -> (r: Result<(), IError>)
    requires
        old(memory).wf(),
    ensures
        final(memory).wf(),
        final(memory)@.same_control(old(memory)@),
        final(memory)@ == old(memory)@.push(zeros(count as int)).0,
        agrees(r, old(memory)@.push(zeros(count as int)).1),
{
    let mut bytes: Vec<u8> = Vec::new();
    let mut i: u32 = 0;
    while i < count
        invariant
            i <= count,
            bytes@ == zeros(i as int),
        decreases count - i,
    {
        bytes.push(0u8);
        i = i + 1;
        assert(bytes@ =~= zeros(i as int));
    }
    memory.push_bytes(&bytes)
}

/// Runs an opcode of the class `Extend`.
pub fn run_extend_op(memory: &mut Memory, op: Opcode) -> (r: Result<(), IError>)
    requires
        old(memory).wf(),
        op_class(op) == OpClass::Extend,
    ensures
        final(memory).wf(),
        final(memory)@.same_control(old(memory)@),
        final(memory)@ == extend_step(old(memory)@, op).0,
        agrees(r, extend_step(old(memory)@, op).1),
{
    match op {
        Opcode::SExtend8To16 => match memory.pop_u8() {
            Ok(v) => memory.push_u16(i16_to_bits(i8_from_bits(v) as i16)),
            Err(e) => Err(e),
        },
        Opcode::SExtend8To32 => match memory.pop_u8() {
            Ok(v) => memory.push_u32(i32_to_bits(i8_from_bits(v) as i32)),
            Err(e) => Err(e),
        },
        Opcode::SExtend8To64 => match memory.pop_u8() {
            Ok(v) => memory.push_u64(i64_to_bits(i8_from_bits(v) as i64)),
            Err(e) => Err(e),
        },
        Opcode::SExtend16To32 => match memory.pop_u16() {
            Ok(v) => memory.push_u32(i32_to_bits(i16_from_bits(v) as i32)),
            Err(e) => Err(e),
        },
        Opcode::SExtend16To64 => match memory.pop_u16() {
            Ok(v) => memory.push_u64(i64_to_bits(i16_from_bits(v) as i64)),
            Err(e) => Err(e),
        },
        Opcode::SExtend32To64 => match memory.pop_u32() {
            Ok(v) => memory.push_u64(i64_to_bits(i32_from_bits(v) as i64)),
            Err(e) => Err(e),
        },
        Opcode::ZExtend8To16 => match memory.pop_u8() {
            Ok(v) => memory.push_u16(v as u16),
            Err(e) => Err(e),
        },
        Opcode::ZExtend8To32 => match memory.pop_u8() {
            Ok(v) => memory.push_u32(v as u32),
            Err(e) => Err(e),
        },
        Opcode::ZExtend8To64 => match memory.pop_u8() {
            Ok(v) => memory.push_u64(v as u64),
            Err(e) => Err(e),
        },
        Opcode::ZExtend16To32 => match memory.pop_u16() {
            Ok(v) => memory.push_u32(v as u32),
            Err(e) => Err(e),
        },
        Opcode::ZExtend16To64 => match memory.pop_u16() {
            Ok(v) => memory.push_u64(v as u64),
            Err(e) => Err(e),
        },
        _ => match memory.pop_u32() {
            Ok(v) => memory.push_u64(v as u64),
            Err(e) => Err(e),
        },
    }
}

/// A quotient rounded towards zero is no larger in magnitude than the
/// dividend, and smaller where the divisor is neither 1 nor -1.
pub proof fn lemma_trunc_div_bounds(x: int, d: int)
    requires
        d != 0,
    ensures
        x >= 0 ==> -x <= trunc_div(x, d) <= x,
        x < 0 ==> x <= trunc_div(x, d) <= -x,
        x < 0 && d < -1 ==> trunc_div(x, d) < -x,
{
    let ax = if x >= 0 { x } else { -x };
    let ad = if d > 0 { d } else { -d };
    vstd::arithmetic::div_mod::lemma_div_pos_is_pos(ax, ad);
    vstd::arithmetic::div_mod::lemma_div_nonincreasing(ax, ad);
    if ax > 0 && ad > 1 {
        vstd::arithmetic::div_mod::lemma_div_decreases(ax, ad);
    }
}

/// The quotient rounded towards zero, written out by the signs of its
/// operands.
pub proof fn lemma_trunc_div_checked(x: int, d: int)
    requires
        d != 0,
    ensures
        x >= 0 ==> -x <= trunc_div(x, d) <= x,
        x < 0 ==> x <= trunc_div(x, d) <= -x,
        x < 0 && d < -1 ==> trunc_div(x, d) < -x,
        trunc_div(x, d) == (if x == 0 {
            0
        } else if x > 0 && d > 0 {
            x / d
        } else if x < 0 && d < 0 {
            ((x * -1) / (d * -1))
        } else if x < 0 {
            ((x * -1) / d) * -1
        } else {
            (x / (d * -1)) * -1
        }),
{
    lemma_trunc_div_bounds(x, d);
    vstd::arithmetic::div_mod::lemma_div_basics(d);
    vstd::arithmetic::div_mod::lemma_div_basics(-d);
    assert(x * -1 == -x);
    assert(d * -1 == -d);
}

/// Divides two signed words, rounding towards zero.
pub fn divide_i32(l: i32, r: i32) -> (q: Result<i32, ErrorKind>)
    ensures
        q == div_i32(l, r),
{
    proof {
        if r != 0 {
            lemma_trunc_div_checked(l as int, r as int);
        }
    }
    if r == 0 {
        Err(ErrorKind::DivisionByZero)
    } else {
        match l.checked_div(r) {
            Some(q) => {
                assert(div_i32(l, r) == Ok::<i32, ErrorKind>(q));
                Ok(q)
            },
            None => {
                assert(div_i32(l, r) == Ok::<i32, ErrorKind>(l));
                Ok(l)
            },
        }
    }
}

/// Divides two signed doublewords, rounding towards zero.
pub fn divide_i64(l: i64, r: i64) -> (q: Result<i64, ErrorKind>)
    ensures
        q == div_i64(l, r),
{
    proof {
        if r != 0 {
            lemma_trunc_div_checked(l as int, r as int);
        }
    }
    if r == 0 {
        Err(ErrorKind::DivisionByZero)
    } else {
        match l.checked_div(r) {
            Some(q) => {
                assert(div_i64(l, r) == Ok::<i64, ErrorKind>(q));
                Ok(q)
            },
            None => {
                assert(div_i64(l, r) == Ok::<i64, ErrorKind>(l));
                Ok(l)
            },
        }
    }
}

/// Pushes the byte that a comparison yields.
fn push_truth(memory: &mut Memory, b: bool) -> (r: Result<(), IError>)
    requires
        old(memory).wf(),
    ensures
        final(memory).wf(),
        final(memory)@.same_control(old(memory)@),
        final(memory)@ == old(memory)@.push(truth(b)).0,
        agrees(r, old(memory)@.push(truth(b)).1),
{
    let byte: u8 = if b { 1 } else { 0 };
    assert(truth(b) =~= seq![byte]);
    memory.push_u8(byte)
}

/// Pops the right operand and then the left one, both 32 bits wide.
fn pop_two_words(memory: &mut Memory) -> (r: Result<(u32, u32), IError>)
    requires
        old(memory).wf(),
    ensures
        final(memory).wf(),
        final(memory)@.same_control(old(memory)@),
        final(memory)@ == pop_words(old(memory)@).0,
        agrees(r, pop_words(old(memory)@).1),
{
    match memory.pop_u32() {
        Ok(right) => match memory.pop_u32() {
            Ok(left) => Ok((left, right)),
            Err(e) => Err(e),
        },
        Err(e) => Err(e),
    }
}

/// Pops the right operand and then the left one, both 64 bits wide.
fn pop_two_longs(memory: &mut Memory) -> (r: Result<(u64, u64), IError>)
    requires
        old(memory).wf(),
    ensures
        final(memory).wf(),
        final(memory)@.same_control(old(memory)@),
        final(memory)@ == pop_longs(old(memory)@).0,
        agrees(r, pop_longs(old(memory)@).1),
{
    match memory.pop_u64() {
        Ok(right) => match memory.pop_u64() {
            Ok(left) => Ok((left, right)),
            Err(e) => Err(e),
        },
        Err(e) => Err(e),
    }
}

/// Runs an opcode of the class `Arith` that works on 32-bit operands.
fn run_word_op(memory: &mut Memory, op: Opcode) -> (r: Result<(), IError>)
    requires
        old(memory).wf(),
        op_class(op) == OpClass::Arith,
        is_word_op(op),
    ensures
        final(memory).wf(),
        final(memory)@.same_control(old(memory)@),
        final(memory)@ == arith_step(old(memory)@, op).0,
        agrees(r, arith_step(old(memory)@, op).1),
{
    let (l, r) = match pop_two_words(memory) {
        Ok(pair) => pair,
        Err(e) => {
            return Err(e);
        },
    };
    match op {
        Opcode::AddU32 => memory.push_u32(l.wrapping_add(r)),
        Opcode::SubI32 => memory.push_u32(
            i32_to_bits(i32_from_bits(l).wrapping_sub(i32_from_bits(r))),
        ),
        Opcode::MulI32 => memory.push_u32(
            i32_to_bits(i32_from_bits(l).wrapping_mul(i32_from_bits(r))),
        ),
        Opcode::DivI32 => match divide_i32(i32_from_bits(l), i32_from_bits(r)) {
            Ok(q) => memory.push_u32(i32_to_bits(q)),
            Err(kind) => Err(IError::of_kind(kind)),
        },
        Opcode::CompLtI32 => push_truth(memory, i32_from_bits(l) < i32_from_bits(r)),
        Opcode::CompLeqI32 => push_truth(memory, i32_from_bits(l) <= i32_from_bits(r)),
        Opcode::CompEq32 => push_truth(memory, l == r),
        _ => push_truth(memory, l != r),
    }
}

/// Runs an opcode of the class `Arith` that works on 64-bit operands.
fn run_long_op(memory: &mut Memory, op: Opcode) -> (r: Result<(), IError>)
    requires
        old(memory).wf(),
        op_class(op) == OpClass::Arith,
        !is_word_op(op),
    ensures
        final(memory).wf(),
        final(memory)@.same_control(old(memory)@),
        final(memory)@ == arith_step(old(memory)@, op).0,
        agrees(r, arith_step(old(memory)@, op).1),
{
    let (l, r) = match pop_two_longs(memory) {
        Ok(pair) => pair,
        Err(e) => {
            return Err(e);
        },
    };
    match op {
        Opcode::AddU64 => memory.push_u64(l.wrapping_add(r)),
        Opcode::SubI64 => memory.push_u64(
            i64_to_bits(i64_from_bits(l).wrapping_sub(i64_from_bits(r))),
        ),
        Opcode::SubU64 => memory.push_u64(l.wrapping_sub(r)),
        Opcode::MulI64 => memory.push_u64(
            i64_to_bits(i64_from_bits(l).wrapping_mul(i64_from_bits(r))),
        ),
        Opcode::MulU64 => memory.push_u64(l.wrapping_mul(r)),
        Opcode::DivI64 => match divide_i64(i64_from_bits(l), i64_from_bits(r)) {
            Ok(q) => memory.push_u64(i64_to_bits(q)),
            Err(kind) => Err(IError::of_kind(kind)),
        },
        Opcode::DivU64 => if r == 0 {
            Err(IError::of_kind(ErrorKind::DivisionByZero))
        } else {
            memory.push_u64(l / r)
        },
        Opcode::ModI64 => if r == 0 {
            Err(IError::of_kind(ErrorKind::DivisionByZero))
        } else {
            memory.push_u64(l % r)
        },
        Opcode::CompLtU64 => push_truth(memory, l < r),
        Opcode::CompLeqU64 => push_truth(memory, l <= r),
        _ => push_truth(memory, l == r),
    }
}

/// Runs an opcode of the class `Arith`.
pub fn run_arith_op(memory: &mut Memory, op: Opcode) -> (r: Result<(), IError>)
    requires
        old(memory).wf(),
        op_class(op) == OpClass::Arith,
    ensures
        final(memory).wf(),
        final(memory)@.same_control(old(memory)@),
        final(memory)@ == arith_step(old(memory)@, op).0,
        agrees(r, arith_step(old(memory)@, op).1),
{
    match op {
        Opcode::AddU32
        | Opcode::SubI32
        | Opcode::MulI32
        | Opcode::DivI32
        | Opcode::CompLtI32
        | Opcode::CompLeqI32
        | Opcode::CompEq32
        | Opcode::CompNeq32 => run_word_op(memory, op),
        _ => run_long_op(memory, op),
    }
}

/// Debug information about a variable: its declared type, its symbol, and
/// where it is declared.
#[derive(Debug, Clone, Copy, PartialEq, Eq, Structural)]
pub struct RuntimeVar {
    pub decl_type: TCType,
    pub symbol: u32,
    pub loc: CodeLoc,
}

/// Debug information about a struct type: its members, where it is
/// defined, and its size and alignment. A struct that is declared and not
/// defined has no members.
#[derive(Debug, Clone, Copy)]
pub struct RuntimeStruct<'a> {
    pub members: Option<&'a [TCStructMember]>,
    pub loc: CodeLoc,
    pub sa: SizeAlign,
}

/// Where a machine stands: the depth of the call stack, the frame pointer,
/// the program counter, and the location of the opcode that runs next.
#[derive(Debug, Clone, Copy, PartialEq, Eq, Structural)]
pub struct RuntimeDiagnostic {
    pub callstack: u32,
    pub fp: u16,
    pub pc: u32,
    pub loc: CodeLoc,
}

/// A machine: a program, the arguments that it was started with, and its
/// memory.
#[derive(Debug)]
pub struct Runtime {
    pub memory: Memory,
    pub args: StringArray,
    pub program: Program,
}

impl Runtime {
    /// The machine can take a step: its program can be run, its memory is
    /// well formed, it is within a function, so that its call stack holds
    /// a frame, and its program counter and every program counter on the
    /// call stack name an opcode.
    pub open spec fn wf(&self) -> bool {
        &&& self.program.wf()
        &&& self.memory.wf()
        &&& self.args@.len() <= u32::MAX
        &&& self.memory.callstack@.len() >= 1
        &&& self.memory.pc < self.program.ops@.len()
        &&& forall|i: int|
            0 <= i < self.memory.callstack@.len() ==> (#[trigger] self.memory.callstack@[i]).pc
                < self.program.ops@.len()
    }

    /// Whether `other` is this machine with another memory.
    pub open spec fn same_setup(&self, other: &Runtime) -> bool {
        self.program == other.program && self.args == other.args
    }
}

/// A finished step of an opcode that falls through: execution goes on at
/// the next opcode.
pub open spec fn advance(step: (MemoryView, Result<(), ErrorKind>)) -> (
    MemoryView,
    Result<Option<i32>, ErrorKind>,
) {
    match step.1 {
        Ok(_) => (step.0.jump((step.0.pc + 1) as u32), Ok(None)),
        Err(kind) => (step.0, Err(kind)),
    }
}

/// Popping a big-endian value of `width` bytes, for the widths 1, 2, 4 and
/// 8.
pub open spec fn pop_wide(m: MemoryView, width: int) -> (MemoryView, Result<u64, ErrorKind>) {
    if width == 8 {
        m.pop_u64()
    } else {
        pop_narrow(m, width)
    }
}

/// The number of bytes that a conditional jump pops.
pub open spec fn branch_width(op: Opcode) -> int {
    match op {
        Opcode::JumpIfZero8(_) | Opcode::JumpIfNotZero8(_) => 1,
        Opcode::JumpIfZero16(_) | Opcode::JumpIfNotZero16(_) => 2,
        Opcode::JumpIfZero32(_) | Opcode::JumpIfNotZero32(_) => 4,
        _ => 8,
    }
}

/// Whether a conditional jump is taken on zero, rather than on a value
/// that is not zero.
pub open spec fn branches_on_zero(op: Opcode) -> bool {
    match op {
        Opcode::JumpIfZero8(_)
        | Opcode::JumpIfZero16(_)
        | Opcode::JumpIfZero32(_)
        | Opcode::JumpIfZero64(_) => true,
        _ => false,
    }
}

/// What a jump does: an unconditional jump goes to its target, and a
/// conditional jump pops a value and goes to its target or to the next
/// opcode.
pub open spec fn jump_step(m: MemoryView, op: Opcode) -> (
    MemoryView,
    Result<Option<i32>, ErrorKind>,
) {
    match op {
        Opcode::Jump(target) => (m.jump(target), Ok(None)),
        _ => match pop_wide(m, branch_width(op)).1 {
            Err(kind) => (m, Err(kind)),
            Ok(value) => if (value == 0) == branches_on_zero(op) {
                (pop_wide(m, branch_width(op)).0.jump(jump_target(op)->Some_0), Ok(None))
            } else {
                advance((pop_wide(m, branch_width(op)).0, Ok(())))
            },
        },
    }
}

/// What a library call does: the library function named by `symbol` runs,
/// and execution goes on at the next opcode unless the function ends the
/// program. A symbol that names no library function is a fault.
pub open spec fn lib_step(m: MemoryView, symbol: u32) -> (
    MemoryView,
    Result<Option<i32>, ErrorKind>,
) {
    let done = if symbol == PRINTF_SYMBOL {
        printf_step(m)
    } else if symbol == EXIT_SYMBOL {
        exit_step(m)
    } else if symbol == MALLOC_SYMBOL {
        malloc_step(m)
    } else if symbol == REALLOC_SYMBOL {
        realloc_step(m)
    } else if symbol == MEMCPY_SYMBOL {
        memcpy_step(m)
    } else {
        (m, Err(ErrorKind::InvalidLibraryFunction(symbol)))
    };
    match done.1 {
        Ok(None) => advance((done.0, Ok(()))),
        _ => done,
    }
}

/// What the environment call `ARGV` does once it has popped a valid index:
/// it allocates a heap variable for the argument and a terminating zero
/// byte, fills it, and pushes a pointer to it.
pub open spec fn argv_step(m: MemoryView, arg: Seq<u8>) -> (
    MemoryView,
    Result<Option<i32>, ErrorKind>,
) {
    if arg.len() >= u32::MAX {
        (m, Err(ErrorKind::OutOfMemory))
    } else {
        match m.add_heap_var((arg.len() + 1) as u32).1 {
            Err(kind) => (m, Err(kind)),
            Ok(ptr) => advance(
                m.add_heap_var((arg.len() + 1) as u32).0.write(ptr, arg.push(0u8)).0.push(
                    u64_be(ptr.value),
                ),
            ),
        }
    }
}

/// What an environment call does.
pub open spec fn ecall_step(m: MemoryView, args: Seq<Seq<u8>>, code: u32) -> (
    MemoryView,
    Result<Option<i32>, ErrorKind>,
) {
    if code == ECALL_EXIT {
        match m.pop_u32().1 {
            Ok(value) => (m.pop_u32().0, Ok(Some(bits_i32(value)))),
            Err(kind) => (m, Err(kind)),
        }
    } else if code == ECALL_ARGC {
        advance(m.push(u32_be(args.len() as u32)))
    } else if code == ECALL_ARGV {
        match m.pop_u32().1 {
            Ok(idx) => if idx >= args.len() {
                (m.pop_u32().0, Err(ErrorKind::InvalidArgumentIndex(idx)))
            } else {
                argv_step(m.pop_u32().0, args[idx as int])
            },
            Err(kind) => (m, Err(kind)),
        }
    } else {
        (m, Err(ErrorKind::InvalidEnviromentCall(code)))
    }
}

/// The pointer to the first stack variable, which a machine allocates
/// before it starts and which holds the value that `main` returns.
pub open spec fn exit_slot() -> VarPointer {
    VarPointer::make(TAG_STACK as int, 1, 0)
}

/// What `Ret` does: the current frame goes. In the frame of `main`, the
/// first frame of the call stack, the program ends with the value in the
/// exit slot instead, and the memory stays as it is: a machine that has
/// ended keeps the frame of `main`, and every further step ends it again.
pub open spec fn ret_step(m: MemoryView) -> (MemoryView, Result<Option<i32>, ErrorKind>) {
    if m.callstack.len() == 1 {
        match m.read_u32(exit_slot()) {
            Ok(value) => (m, Ok(Some(bits_i32(value)))),
            Err(kind) => (m, Err(kind)),
        }
    } else {
        match m.ret().1 {
            Err(kind) => (m, Err(kind)),
            Ok(_) => (m.ret().0, Ok(None)),
        }
    }
}

/// What `Call` does: a frame for the function whose header is at `target`
/// goes onto the call stack, and execution goes on after the header.
pub open spec fn call_step(ops: Seq<TaggedOpcode>, m: MemoryView, target: u32, loc: CodeLoc) -> (
    MemoryView,
    Result<Option<i32>, ErrorKind>,
) {
    match m.call((target + 1) as u32, ops[target as int].op->Func_0, loc).1 {
        Ok(_) => (m.call((target + 1) as u32, ops[target as int].op->Func_0, loc).0, Ok(None)),
        Err(kind) => (m, Err(kind)),
    }
}

/// What an opcode of the class `Control` does.
pub open spec fn control_step(
    ops: Seq<TaggedOpcode>,
    args: Seq<Seq<u8>>,
    m: MemoryView,
    op: TaggedOpcode,
) -> (MemoryView, Result<Option<i32>, ErrorKind>) {
    match op.op {
        Opcode::Ret => ret_step(m),
        Opcode::Call(target) => call_step(ops, m, target, op.loc),
        Opcode::LibCall(symbol) => lib_step(m, symbol),
        Opcode::Ecall(code) => ecall_step(m, args, code),
        _ => jump_step(m, op.op),
    }
}

/// What one step of the machine does: the opcode at the program counter
/// runs, and yields the new memory together with the exit code, if the
/// program ends, or the fault, if the opcode fails.
pub open spec fn step(ops: Seq<TaggedOpcode>, args: Seq<Seq<u8>>, m: MemoryView) -> (
    MemoryView,
    Result<Option<i32>, ErrorKind>,
) {
    let op = ops[m.pc as int];
    match op_class(op.op) {
        OpClass::Stack => advance(stack_step(m, op.op)),
        OpClass::Extend => advance(extend_step(m, op.op)),
        OpClass::Arith => advance(arith_step(m, op.op)),
        OpClass::Control => control_step(ops, args, m, op),
    }
}

/// What one step does as callers see it: a fault leaves a record of where
/// it happened on the call stack.
pub open spec fn traced_step(ops: Seq<TaggedOpcode>, args: Seq<Seq<u8>>, m: MemoryView) -> (
    MemoryView,
    Result<Option<i32>, ErrorKind>,
) {
    match step(ops, args, m).1 {
        Err(kind) => (
            step(ops, args, m).0.push_callstack(ops[step(ops, args, m).0.pc as int].loc),
            Err(kind),
        ),
        _ => step(ops, args, m),
    }
}

/// What up to `count` steps do: the steps stop early where the program
/// ends or an opcode fails.
pub open spec fn steps(ops: Seq<TaggedOpcode>, args: Seq<Seq<u8>>, m: MemoryView, count: nat) -> (
    MemoryView,
    Result<Option<i32>, ErrorKind>,
)
    decreases count,
{
    if count == 0 {
        (m, Ok(None))
    } else {
        match traced_step(ops, args, m).1 {
            Ok(None) => steps(ops, args, traced_step(ops, args, m).0, (count - 1) as nat),
            _ => traced_step(ops, args, m),
        }
    }
}

/// What up to `count` steps do where they also stop as soon as the program
/// counter is `pc` or the call stack holds fewer than `depth` frames.
pub open spec fn steps_until(
    ops: Seq<TaggedOpcode>,
    args: Seq<Seq<u8>>,
    m: MemoryView,
    count: nat,
    pc: u32,
    depth: int,
) -> (MemoryView, Result<Option<i32>, ErrorKind>)
    decreases count,
{
    if count == 0 || m.pc == pc || m.callstack.len() < depth {
        (m, Ok(None))
    } else {
        match traced_step(ops, args, m).1 {
            Ok(None) => steps_until(
                ops,
                args,
                traced_step(ops, args, m).0,
                (count - 1) as nat,
                pc,
                depth,
            ),
            _ => traced_step(ops, args, m),
        }
    }
}

/// The memory of a machine that is about to run the function whose header
/// is at `main_idx`: the exit slot is allocated, and the frame of `main` is
/// on the call stack.
pub open spec fn start_memory(binary: BufferView, main_idx: u32, name: u32) -> MemoryView {
    MemoryView::initial(binary).add_stack_var(4, META_NO_SYMBOL).0.jump(main_idx).call(
        main_idx,
        name,
        CodeLoc { start: 0, end: 0, file: NO_FILE_ID },
    ).0
}

/// A copy of a variable buffer.
pub fn copy_buffer(buffer: &VarBuffer) -> (copy: VarBuffer)
    ensures
        copy@ == buffer@,
{
    let data: Vec<u8> = buffer.read(0, buffer.data.len());
    let mut vars: Vec<Var> = Vec::new();
    let mut i: usize = 0;
    while i < buffer.vars.len()
        invariant
            i <= buffer.vars@.len(),
            vars@ == buffer.vars@.subrange(0, i as int),
        decreases buffer.vars@.len() - i,
    {
        vars.push(buffer.vars[i]);
        i = i + 1;
        assert(vars@ =~= buffer.vars@.subrange(0, i as int));
    }
    assert(vars@ =~= buffer.vars@);
    assert(data@ =~= buffer.data@);
    VarBuffer { data, vars }
}

impl Runtime {
    /// A machine that is about to run `program` with the arguments `args`.
    pub fn new(program: Program, args: StringArray) -> (r: Runtime)
        requires
            program.wf(),
            args@.len() <= u32::MAX,
        ensures
            r.wf(),
            r.program == program,
            r.args == args,
            r.memory@ == start_memory(
                program.data@,
                program.main_idx,
                program.ops@[program.main_idx as int].op->Func_0,
            ),
    {
        let mut memory = Memory::new_with_binary(copy_buffer(&program.data));
        let slot = memory.add_stack_var(4, META_NO_SYMBOL);
        assert(slot is Ok);
        memory.jump(program.main_idx);
        let name: u32 = match program.ops[program.main_idx as usize].op {
            Opcode::Func(name) => name,
            _ => META_NO_SYMBOL,
        };
        assert(op_in_range(program.ops@, program.main_idx as int));
        let entered = memory.call(program.main_idx, name, no_file());
        assert(entered is Ok);
        Runtime { memory, args, program }
    }

    /// Where the machine stands.
    pub fn diagnostic(&self) -> (d: RuntimeDiagnostic)
        requires
            self.wf(),
        ensures
            d == (RuntimeDiagnostic {
                callstack: self.memory@.callstack.len() as u32,
                fp: self.memory@.fp,
                pc: self.memory@.pc,
                loc: self.program.ops@[self.memory@.pc as int].loc,
            }),
    {
        RuntimeDiagnostic {
            callstack: self.memory.callstack.len() as u32,
            fp: self.memory.fp,
            pc: self.memory.pc,
            loc: self.program.ops[self.memory.pc as usize].loc,
        }
    }

    /// Runs a jump.
    fn run_jump(&mut self, op: Opcode) -> (r: Result<Option<i32>, IError>)
        requires
            old(self).wf(),
            jump_target(op) is Some,
            old(self).program.ops@[old(self).memory.pc as int].op == op,
        ensures
            final(self).wf(),
            final(self).same_setup(old(self)),
            final(self).memory@ == jump_step(old(self).memory@, op).0,
            agrees(r, jump_step(old(self).memory@, op).1),
            r is Err ==> final(self).memory@.same_control(old(self).memory@),
    {
        assert(op_in_range(self.program.ops@, self.memory.pc as int));
        let (target, width, on_zero): (u32, u8, bool) = match op {
            Opcode::Jump(target) => {
                self.memory.jump(target);
                return Ok(None);
            },
            Opcode::JumpIfZero8(target) => (target, 1, true),
            Opcode::JumpIfZero16(target) => (target, 2, true),
            Opcode::JumpIfZero32(target) => (target, 4, true),
            Opcode::JumpIfZero64(target) => (target, 8, true),
            Opcode::JumpIfNotZero8(target) => (target, 1, false),
            Opcode::JumpIfNotZero16(target) => (target, 2, false),
            Opcode::JumpIfNotZero32(target) => (target, 4, false),
            Opcode::JumpIfNotZero64(target) => (target, 8, false),
            _ => (0, 8, false),
        };
        let popped: Result<u64, IError> = if width == 1 {
            match self.memory.pop_u8() {
                Ok(v) => Ok(v as u64),
                Err(e) => Err(e),
            }
        } else if width == 2 {
            match self.memory.pop_u16() {
                Ok(v) => Ok(v as u64),
                Err(e) => Err(e),
            }
        } else if width == 4 {
            match self.memory.pop_u32() {
                Ok(v) => Ok(v as u64),
                Err(e) => Err(e),
            }
        } else {
            self.memory.pop_u64()
        };
        match popped {
            Ok(value) => {
                if (value == 0) == on_zero {
                    self.memory.jump(target);
                } else {
                    self.memory.increment_pc();
                }
                Ok(None)
            },
            Err(e) => Err(e),
        }
    }

    /// Runs `Ret`.
    fn run_ret(&mut self) -> (r: Result<Option<i32>, IError>)
        requires
            old(self).wf(),
        ensures
            final(self).wf(),
            final(self).same_setup(old(self)),
            final(self).memory@ == ret_step(old(self).memory@).0,
            agrees(r, ret_step(old(self).memory@).1),
    {
        if self.memory.callstack.len() == 1 {
            return match self.memory.get_u32(VarPointer::new_stack(1, 0)) {
                Ok(value) => Ok(Some(i32_from_bits(value))),
                Err(e) => Err(e),
            };
        }
        match self.memory.ret() {
            Ok(_) => Ok(None),
            Err(e) => Err(e),
        }
    }

    /// Runs `Call`.
    fn run_call(&mut self, target: u32, loc: CodeLoc) -> (r: Result<Option<i32>, IError>)
        requires
            old(self).wf(),
            old(self).program.ops@[old(self).memory.pc as int].op == Opcode::Call(target),
        ensures
            final(self).wf(),
            final(self).same_setup(old(self)),
            final(self).memory@ == call_step(
                old(self).program.ops@,
                old(self).memory@,
                target,
                loc,
            ).0,
            agrees(r, call_step(old(self).program.ops@, old(self).memory@, target, loc).1),
            r is Err ==> final(self).memory@.same_control(old(self).memory@),
    {
        assert(op_in_range(self.program.ops@, self.memory.pc as int));
        let func_name: u32 = match self.program.ops[target as usize].op {
            Opcode::Func(name) => name,
            _ => META_NO_SYMBOL,
        };
        match self.memory.call(target + 1, func_name, loc) {
            Ok(_) => Ok(None),
            Err(e) => Err(e),
        }
    }

    /// Runs `LibCall`.
    fn run_lib_call(&mut self, symbol: u32) -> (r: Result<Option<i32>, IError>)
        requires
            old(self).wf(),
            old(self).program.ops@[old(self).memory.pc as int].op == Opcode::LibCall(symbol),
        ensures
            final(self).wf(),
            final(self).same_setup(old(self)),
            final(self).memory@ == lib_step(old(self).memory@, symbol).0,
            agrees(r, lib_step(old(self).memory@, symbol).1),
            r is Err ==> final(self).memory@.same_control(old(self).memory@),
    {
        assert(op_in_range(self.program.ops@, self.memory.pc as int));
        let done: Result<Option<i32>, IError> = if symbol == PRINTF_SYMBOL {
            printf(self)
        } else if symbol == EXIT_SYMBOL {
            exit(self)
        } else if symbol == MALLOC_SYMBOL {
            malloc(self)
        } else if symbol == REALLOC_SYMBOL {
            realloc(self)
        } else if symbol == MEMCPY_SYMBOL {
            memcpy(self)
        } else {
            Err(IError::of_kind(ErrorKind::InvalidLibraryFunction(symbol)))
        };
        match done {
            Ok(None) => {
                self.memory.increment_pc();
                Ok(None)
            },
            Ok(Some(code)) => Ok(Some(code)),
            Err(e) => Err(e),
        }
    }

    /// Runs the environment call `ARGV` for the argument at `idx`.
    fn run_argv(&mut self, idx: usize) -> (r: Result<Option<i32>, IError>)
        requires
            old(self).wf(),
            idx < old(self).args@.len(),
            old(self).memory.pc + 1 < old(self).program.ops@.len(),
        ensures
            final(self).wf(),
            final(self).same_setup(old(self)),
            final(self).memory@ == argv_step(old(self).memory@, old(self).args@[idx as int]).0,
            agrees(r, argv_step(old(self).memory@, old(self).args@[idx as int]).1),
            r is Err ==> final(self).memory@.same_control(old(self).memory@),
    {
        let arg: &Vec<u8> = self.args.get(idx);
        if arg.len() >= u32::MAX as usize {
            return Err(IError::of_kind(ErrorKind::OutOfMemory));
        }
        let mut bytes: Vec<u8> = Vec::new();
        let mut i: usize = 0;
        while i < arg.len()
            invariant
                i <= arg@.len(),
                bytes@ == arg@.subrange(0, i as int),
            decreases arg@.len() - i,
        {
            bytes.push(arg[i]);
            i = i + 1;
            assert(bytes@ =~= arg@.subrange(0, i as int));
        }
        bytes.push(0u8);
        assert(bytes@ =~= arg@.push(0u8));
        let var_pointer = match self.memory.add_heap_var(bytes.len() as u32) {
            Ok(ptr) => ptr,
            Err(e) => {
                return Err(e);
            },
        };
        let _ = self.memory.write_bytes(var_pointer, &bytes);
        match self.memory.push_u64(var_pointer.value) {
            Ok(_) => {
                self.memory.increment_pc();
                Ok(None)
            },
            Err(e) => Err(e),
        }
    }

    /// Runs `Ecall`.
    fn run_ecall(&mut self, code: u32) -> (r: Result<Option<i32>, IError>)
        requires
            old(self).wf(),
            old(self).program.ops@[old(self).memory.pc as int].op == Opcode::Ecall(code),
        ensures
            final(self).wf(),
            final(self).same_setup(old(self)),
            final(self).memory@ == ecall_step(old(self).memory@, old(self).args@, code).0,
            agrees(r, ecall_step(old(self).memory@, old(self).args@, code).1),
            r is Err ==> final(self).memory@.same_control(old(self).memory@),
    {
        assert(op_in_range(self.program.ops@, self.memory.pc as int));
        if code == ECALL_EXIT {
            match self.memory.pop_u32() {
                Ok(value) => Ok(Some(i32_from_bits(value))),
                Err(e) => Err(e),
            }
        } else if code == ECALL_ARGC {
            match self.memory.push_u32(self.args.len() as u32) {
                Ok(_) => {
                    self.memory.increment_pc();
                    Ok(None)
                },
                Err(e) => Err(e),
            }
        } else if code == ECALL_ARGV {
            match self.memory.pop_u32() {
                Ok(idx) => {
                    if idx as usize >= self.args.len() {
                        Err(IError::of_kind(ErrorKind::InvalidArgumentIndex(idx)))
                    } else {
                        self.run_argv(idx as usize)
                    }
                },
                Err(e) => Err(e),
            }
        } else {
            Err(IError::of_kind(ErrorKind::InvalidEnviromentCall(code)))
        }
    }

    /// Runs the opcode at the program counter.
    pub fn run_op_internal(&mut self) -> (r: Result<Option<i32>, IError>)
        requires
            old(self).wf(),
        ensures
            final(self).wf(),
            final(self).same_setup(old(self)),
            final(self).memory@ == step(
                old(self).program.ops@,
                old(self).args@,
                old(self).memory@,
            ).0,
            agrees(r, step(old(self).program.ops@, old(self).args@, old(self).memory@).1),
    {
        let op: TaggedOpcode = self.program.ops[self.memory.pc as usize];
        assert(op_in_range(self.program.ops@, self.memory.pc as int));
        match classify(op.op) {
            OpClass::Stack => match run_stack_op(&mut self.memory, op.op) {
                Ok(_) => {
                    self.memory.increment_pc();
                    Ok(None)
                },
                Err(e) => Err(e),
            },
            OpClass::Extend => match run_extend_op(&mut self.memory, op.op) {
                Ok(_) => {
                    self.memory.increment_pc();
                    Ok(None)
                },
                Err(e) => Err(e),
            },
            OpClass::Arith => match run_arith_op(&mut self.memory, op.op) {
                Ok(_) => {
                    self.memory.increment_pc();
                    Ok(None)
                },
                Err(e) => Err(e),
            },
            OpClass::Control => match op.op {
                Opcode::Ret => self.run_ret(),
                Opcode::Call(target) => self.run_call(target, op.loc),
                Opcode::LibCall(symbol) => self.run_lib_call(symbol),
                Opcode::Ecall(code) => self.run_ecall(code),
                _ => self.run_jump(op.op),
            },
        }
    }

    /// Runs the opcode at the program counter. A fault leaves a record of
    /// where it happened on the call stack.
    pub fn run_op(&mut self) -> (r: Result<Option<i32>, IError>)
        requires
            old(self).wf(),
        ensures
            final(self).wf(),
            final(self).same_setup(old(self)),
            final(self).memory@ == traced_step(
                old(self).program.ops@,
                old(self).args@,
                old(self).memory@,
            ).0,
            agrees(r, traced_step(old(self).program.ops@, old(self).args@, old(self).memory@).1),
    {
        match self.run_op_internal() {
            Ok(opt) => Ok(opt),
            Err(err) => {
                let loc: CodeLoc = self.program.ops[self.memory.pc as usize].loc;
                self.memory.push_callstack(loc);
                Err(err)
            },
        }
    }

    /// Runs up to `count` opcodes, and stops early where the program ends
    /// or an opcode fails.
    pub fn run_op_count(&mut self, count: u32) -> (r: Result<Option<i32>, IError>)
        requires
            old(self).wf(),
        ensures
            final(self).wf(),
            final(self).same_setup(old(self)),
            final(self).memory@ == steps(
                old(self).program.ops@,
                old(self).args@,
                old(self).memory@,
                count as nat,
            ).0,
            agrees(
                r,
                steps(old(self).program.ops@, old(self).args@, old(self).memory@, count as nat).1,
            ),
    {
        let ghost ops = self.program.ops@;
        let ghost args = self.args@;
        let ghost whole = steps(ops, args, self.memory@, count as nat);
        let mut left: u32 = count;
        while left > 0
            invariant
                self.wf(),
                self.same_setup(old(self)),
                ops == old(self).program.ops@,
                args == old(self).args@,
                whole == steps(ops, args, old(self).memory@, count as nat),
                whole == steps(ops, args, self.memory@, left as nat),
            decreases left,
        {
            match self.run_op() {
                Ok(Some(exit)) => {
                    return Ok(Some(exit));
                },
                Ok(None) => {},
                Err(e) => {
                    return Err(e);
                },
            }
            left = left - 1;
        }
        Ok(None)
    }

    /// Runs up to `count` opcodes, and stops early where the program ends,
    /// an opcode fails, the program counter is `pc`, or the call stack
    /// holds fewer than `stack_size` frames.
    pub fn run_count_or_until(&mut self, count: u32, pc: u32, stack_size: u16) -> (r: Result<
        Option<i32>,
        IError,
    >)
        requires
            old(self).wf(),
        ensures
            final(self).wf(),
            final(self).same_setup(old(self)),
            final(self).memory@ == steps_until(
                old(self).program.ops@,
                old(self).args@,
                old(self).memory@,
                count as nat,
                pc,
                stack_size as int,
            ).0,
            agrees(
                r,
                steps_until(
                    old(self).program.ops@,
                    old(self).args@,
                    old(self).memory@,
                    count as nat,
                    pc,
                    stack_size as int,
                ).1,
            ),
    {
        let ghost ops = self.program.ops@;
        let ghost args = self.args@;
        let ghost whole = steps_until(
            ops,
            args,
            self.memory@,
            count as nat,
            pc,
            stack_size as int,
        );
        let mut left: u32 = count;
        while stack_size as usize <= self.memory.callstack.len() && left > 0 && self.memory.pc
            != pc
            invariant
                self.wf(),
                self.same_setup(old(self)),
                ops == old(self).program.ops@,
                args == old(self).args@,
                whole == steps_until(
                    ops,
                    args,
                    old(self).memory@,
                    count as nat,
                    pc,
                    stack_size as int,
                ),
                whole == steps_until(ops, args, self.memory@, left as nat, pc, stack_size as int),
            decreases left,
        {
            match self.run_op() {
                Ok(Some(exit)) => {
                    return Ok(Some(exit));
                },
                Ok(None) => {},
                Err(e) => {
                    return Err(e);
                },
            }
            left = left - 1;
        }
        Ok(None)
    }
}

/// What an opcode outside the class `Control` does to the memory.
pub open spec fn simple_step(m: MemoryView, op: Opcode) -> (MemoryView, Result<(), ErrorKind>) {
    match op_class(op) {
        OpClass::Extend => extend_step(m, op),
        OpClass::Arith => arith_step(m, op),
        _ => stack_step(m, op),
    }
}

/// Whether an opcode outside the class `Control` leaves the stack
/// variables alone: it is none of the four that allocate or free one.
pub open spec fn keeps_vars(op: Opcode) -> bool {
    op_class(op) != OpClass::Control && !(op is StackAlloc || op is StackAllocDyn || op
        is StackDealloc || op is StackAddToTemp)
}

/// The number of bytes that an opcode pushes onto the operand stack, less
/// the number that it pops.
pub open spec fn net_bytes(op: Opcode) -> int {
    match op {
        Opcode::MakeTempI8(_) => 1,
        Opcode::MakeTempI32(_) => 4,
        Opcode::MakeTempI64(_)
        | Opcode::MakeTempU64(_)
        | Opcode::MakeTempF64(_)
        | Opcode::MakeTempBinaryPtr { .. }
        | Opcode::MakeTempLocalStackPtr { .. } => 8,
        Opcode::Pop { bytes } => -(bytes as int),
        Opcode::PopKeep { drop, .. } => -(drop as int),
        Opcode::PushUndef { bytes } | Opcode::PushDup { bytes } => bytes as int,
        Opcode::PopIntoTopVar { bytes, .. } | Opcode::SetLocal { bytes, .. } => -(bytes as int),
        Opcode::GetLocal { bytes, .. } => bytes as int,
        Opcode::Get { bytes, .. } => bytes - 8,
        Opcode::Store { bytes, .. } => -(bytes as int) - 8,
        Opcode::SExtend8To16 | Opcode::ZExtend8To16 => 1,
        Opcode::SExtend8To32 | Opcode::ZExtend8To32 => 3,
        Opcode::SExtend8To64 | Opcode::ZExtend8To64 => 7,
        Opcode::SExtend16To32 | Opcode::ZExtend16To32 => 2,
        Opcode::SExtend16To64 | Opcode::ZExtend16To64 => 6,
        Opcode::SExtend32To64 | Opcode::ZExtend32To64 => 4,
        Opcode::AddU32 | Opcode::SubI32 | Opcode::MulI32 | Opcode::DivI32 => -4,
        Opcode::CompLtI32 | Opcode::CompLeqI32 | Opcode::CompEq32 | Opcode::CompNeq32 => -7,
        Opcode::AddU64
        | Opcode::SubI64
        | Opcode::SubU64
        | Opcode::MulI64
        | Opcode::MulU64
        | Opcode::DivI64
        | Opcode::DivU64
        | Opcode::ModI64 => -8,
        Opcode::CompLtU64 | Opcode::CompLeqU64 | Opcode::CompEq64 => -15,
        Opcode::JumpIfZero8(_) | Opcode::JumpIfNotZero8(_) => -1,
        Opcode::JumpIfZero16(_) | Opcode::JumpIfNotZero16(_) => -2,
        Opcode::JumpIfZero32(_) | Opcode::JumpIfNotZero32(_) => -4,
        Opcode::JumpIfZero64(_) | Opcode::JumpIfNotZero64(_) => -8,
        _ => 0,
    }
}

/// After every opcode that leaves the stack variables alone, the operand
/// stack holds as many bytes as before, plus those that the opcode pushes,
/// less those that it pops; and the stack variables are where they were.
pub proof fn lemma_operand_stack_accounting(m: MemoryView, op: Opcode)
    requires
        m.wf(),
        keeps_vars(op),
        simple_step(m, op).1 is Ok,
    ensures
        simple_step(m, op).0.temp_len() == m.temp_len() + net_bytes(op),
        simple_step(m, op).0.stack.vars == m.stack.vars,
{
    lemma_be_round_trip(0, 0, 0);
    match op_class(op) {
        OpClass::Extend => {
            lemma_extend_accounting(m, op);
        },
        OpClass::Arith => {
            lemma_arith_accounting(m, op);
        },
        _ => {
            lemma_stack_accounting(m, op);
        },
    }
}

/// The number of bytes that the variables hold together.
pub open spec fn var_bytes(vars: Seq<Var>) -> int
    decreases vars.len(),
{
    if vars.len() == 0 {
        0
    } else {
        var_bytes(vars.drop_last()) + vars.last().len
    }
}

/// The number of operand bytes in the whole stack: the bytes of the pool
/// that belong to no variable, above the last variable and between the
/// variables.
pub open spec fn operand_bytes(m: MemoryView) -> int {
    m.stack.data.len() - var_bytes(m.stack.vars)
}

/// The number of operand bytes that an opcode outside the class `Control`
/// pushes in the memory `m`, less the number that it pops. Allocating a
/// stack variable pushes and pops nothing, but for the size that
/// `StackAllocDyn` pops. Freeing a stack variable pops the operand bytes
/// that lie above the variable, and `StackAddToTemp` also pushes the bytes
/// of the variable.
pub open spec fn net_operands(m: MemoryView, op: Opcode) -> int {
    match op {
        Opcode::StackAlloc { .. } => 0,
        Opcode::StackAllocDyn { .. } => -4,
        Opcode::StackDealloc => -m.temp_len(),
        Opcode::StackAddToTemp => m.stack.vars.last().len - m.temp_len(),
        _ => net_bytes(op),
    }
}

/// After every opcode outside the class `Control`, those that allocate and
/// free stack variables among them, the stack holds as many operand bytes
/// as before, plus those that the opcode pushes, less those that it pops.
/// Allocating adds one stack variable, with no operand bytes above it, and
/// freeing takes one away.
pub proof fn lemma_operand_accounting(m: MemoryView, op: Opcode)
    requires
        m.wf(),
        op_class(op) != OpClass::Control,
        simple_step(m, op).1 is Ok,
    ensures
        operand_bytes(simple_step(m, op).0) == operand_bytes(m) + net_operands(m, op),
        op is StackAlloc || op is StackAllocDyn ==> simple_step(m, op).0.stack.vars.len()
            == m.stack.vars.len() + 1 && simple_step(m, op).0.temp_len() == 0,
        op is StackDealloc || op is StackAddToTemp ==> simple_step(m, op).0.stack.vars.len()
            == m.stack.vars.len() - 1,
{
    let after = simple_step(m, op).0;
    let vars = m.stack.vars;
    if keeps_vars(op) {
        lemma_operand_stack_accounting(m, op);
    } else {
        match op {
            Opcode::StackAlloc { bytes, symbol } => {
                assert(after.stack.vars.drop_last() =~= vars);
            },
            Opcode::StackAllocDyn { symbol } => {
                let popped = m.pop_u32().0;
                lemma_byte_counts(m, Seq::empty(), 4, exit_slot());
                assert(popped.stack.vars == vars);
                assert(after.stack.vars.drop_last() =~= vars);
            },
            _ => {
                assert(vars.last() == vars[vars.len() - 1]);
            },
        }
    }
}

/// A jump that does not fail leaves the stack variables alone and pops
/// what it tests, whether it is taken or not; a call that does not fail
/// leaves the whole stack as it is.
pub proof fn lemma_control_accounting(ops: Seq<TaggedOpcode>, m: MemoryView, op: TaggedOpcode)
    requires
        m.wf(),
    ensures
        jump_target(op.op) is Some && jump_step(m, op.op).1 is Ok ==> {
            &&& jump_step(m, op.op).0.stack.vars == m.stack.vars
            &&& operand_bytes(jump_step(m, op.op).0) == operand_bytes(m) + net_bytes(op.op)
        },
        op.op matches Opcode::Call(target) ==> call_step(ops, m, target, op.loc).0.stack
            == m.stack,
{
    lemma_byte_counts(m, Seq::empty(), 1, exit_slot());
    lemma_byte_counts(m, Seq::empty(), 2, exit_slot());
    lemma_byte_counts(m, Seq::empty(), 4, exit_slot());
    lemma_byte_counts(m, Seq::empty(), 8, exit_slot());
}

/// The big-endian encodings have the length of their width.
proof fn lemma_widths(a: u16, b: u32, c: u64)
    ensures
        u16_be(a).len() == 2,
        u32_be(b).len() == 4,
        u64_be(c).len() == 8,
{
}

/// What pushing, popping and writing do to the number of operand bytes.
proof fn lemma_byte_counts(m: MemoryView, bytes: Seq<u8>, n: int, ptr: VarPointer)
    requires
        m.wf(),
    ensures
        m.push(bytes).1 is Ok ==> m.push(bytes).0.temp_len() == m.temp_len() + bytes.len()
            && m.push(bytes).0.stack.vars == m.stack.vars && m.push(bytes).0.wf(),
        0 <= n && m.pop(n).1 is Ok ==> m.pop(n).0.temp_len() == m.temp_len() - n && m.pop(
            n,
        ).0.stack.vars == m.stack.vars && m.pop(n).0.wf() && m.pop(n).1->Ok_0.len() == n,
        m.write(ptr, bytes).0.temp_len() == m.temp_len(),
        m.write(ptr, bytes).0.stack.vars == m.stack.vars,
        0 <= n ==> (m.read(ptr, n) matches Ok(read) ==> read.len() == n),
{
    if m.stack.vars.len() > 0 {
        assert(m.stack.vars.last() == m.stack.vars[m.stack.vars.len() - 1]);
    }
    ptr.lemma_made_of_parts();
    if 0 <= n && m.read(ptr, n) is Ok {
        let seg = m.segment(ptr.tag());
        let var = seg.vars[ptr.var() - 1];
        assert(var.idx + var.len <= seg.data.len());
    }
}

#[verifier::rlimit(50)]
proof fn lemma_stack_accounting(m: MemoryView, op: Opcode)
    requires
        m.wf(),
        keeps_vars(op),
        op_class(op) == OpClass::Stack,
        stack_step(m, op).1 is Ok,
    ensures
        stack_step(m, op).0.temp_len() == m.temp_len() + net_bytes(op),
        stack_step(m, op).0.stack.vars == m.stack.vars,
{
    match op {
        Opcode::MakeTempI8(v) => {
            lemma_byte_counts(m, seq![i8_bits(v)], 0, exit_slot());
        },
        Opcode::MakeTempI32(v) => {
            lemma_widths(0, i32_bits(v), 0);
            lemma_byte_counts(m, u32_be(i32_bits(v)), 0, exit_slot());
        },
        Opcode::MakeTempI64(v) => {
            lemma_widths(0, 0, i64_bits(v));
            lemma_byte_counts(m, u64_be(i64_bits(v)), 0, exit_slot());
        },
        Opcode::MakeTempU64(v) => {
            lemma_widths(0, 0, v);
            lemma_byte_counts(m, u64_be(v), 0, exit_slot());
        },
        Opcode::MakeTempF64(v) => {
            lemma_widths(0, 0, v);
            lemma_byte_counts(m, u64_be(v), 0, exit_slot());
        },
        Opcode::MakeTempBinaryPtr { var, offset } => {
            let value = VarPointer::make(
                TAG_BINARY as int,
                (var % VAR_ID_LIMIT) as int,
                offset as int,
            ).value;
            lemma_widths(0, 0, value);
            lemma_byte_counts(m, u64_be(value), 0, exit_slot());
        },
        Opcode::MakeTempLocalStackPtr { var, offset } => {
            let value = local_ptr(m.fp, var, offset).value;
            lemma_widths(0, 0, value);
            lemma_byte_counts(m, u64_be(value), 0, exit_slot());
        },
        Opcode::Pop { bytes } => {
            lemma_byte_counts(m, Seq::empty(), bytes as int, exit_slot());
        },
        Opcode::PopKeep { keep, drop } => {
            lemma_byte_counts(m, Seq::empty(), keep + drop, exit_slot());
            lemma_byte_counts(m.popped(keep + drop), m.top(keep as int), 0, exit_slot());
        },
        Opcode::PushUndef { bytes } => {
            lemma_byte_counts(m, zeros(bytes as int), 0, exit_slot());
        },
        Opcode::PushDup { bytes } => {
            lemma_byte_counts(m, m.top(bytes as int), 0, exit_slot());
        },
        Opcode::Swap { top, bottom } => {
            lemma_byte_counts(m, Seq::empty(), top + bottom, exit_slot());
            let low = m.popped(top + bottom);
            lemma_byte_counts(low, m.top(top as int), 0, exit_slot());
            lemma_byte_counts(
                low.pushed(m.top(top as int)),
                m.popped(top as int).top(bottom as int),
                0,
                exit_slot(),
            );
        },
        Opcode::PopIntoTopVar { offset, bytes } => {
            let ptr = VarPointer::make(TAG_STACK as int, m.stack.vars.len() as int, offset as int);
            lemma_byte_counts(m, Seq::empty(), bytes as int, ptr);
            lemma_byte_counts(m.popped(bytes as int), m.top(bytes as int), 0, ptr);
        },
        Opcode::SetLocal { var, offset, bytes } => {
            let ptr = local_ptr(m.fp, var, offset);
            lemma_byte_counts(m, Seq::empty(), bytes as int, ptr);
            lemma_byte_counts(m.popped(bytes as int), m.top(bytes as int), 0, ptr);
        },
        Opcode::GetLocal { var, offset, bytes } => {
            let ptr = local_ptr(m.fp, var, offset);
            lemma_byte_counts(m, Seq::empty(), bytes as int, ptr);
            lemma_byte_counts(m, m.read(ptr, bytes as int)->Ok_0, bytes as int, ptr);
        },
        Opcode::Get { offset, bytes } => {
            lemma_byte_counts(m, Seq::empty(), 8, exit_slot());
            let value = m.pop_u64().1->Ok_0;
            let ptr = shifted_ptr(value, offset);
            let low = m.pop_u64().0;
            lemma_byte_counts(low, Seq::empty(), bytes as int, ptr);
            lemma_byte_counts(low, low.read(ptr, bytes as int)->Ok_0, bytes as int, ptr);
        },
        Opcode::Store { offset, bytes } => {
            lemma_byte_counts(m, Seq::empty(), 8, exit_slot());
            let value = m.pop_u64().1->Ok_0;
            let ptr = shifted_ptr(value, offset);
            let low = m.pop_u64().0;
            lemma_byte_counts(low, Seq::empty(), bytes as int, ptr);
            lemma_byte_counts(low.popped(bytes as int), low.top(bytes as int), 0, ptr);
        },
        _ => {},
    }
}

#[verifier::rlimit(50)]
proof fn lemma_extend_accounting(m: MemoryView, op: Opcode)
    requires
        m.wf(),
        op_class(op) == OpClass::Extend,
        extend_step(m, op).1 is Ok,
    ensures
        extend_step(m, op).0.temp_len() == m.temp_len() + net_bytes(op),
        extend_step(m, op).0.stack.vars == m.stack.vars,
{
    let width = extend_source_width(op);
    let v = pop_narrow(m, width).1->Ok_0;
    let low = pop_narrow(m, width).0;
    lemma_byte_counts(m, Seq::empty(), width, exit_slot());
    assert(low == m.pop(width).0);
    lemma_widths(0, 0, v);
    lemma_widths(v as u16, v as u32, 0);
    lemma_widths(i16_bits(bits_i8(v as u8) as i16), i32_bits(bits_i8(v as u8) as i32), 0);
    lemma_widths(0, i32_bits(bits_i16(v as u16) as i32), i64_bits(bits_i8(v as u8) as i64));
    lemma_widths(0, 0, i64_bits(bits_i16(v as u16) as i64));
    lemma_widths(0, 0, i64_bits(bits_i32(v as u32) as i64));
    lemma_byte_counts(low, extended(op, v), 0, exit_slot());
}

#[verifier::rlimit(50)]
proof fn lemma_arith_accounting(m: MemoryView, op: Opcode)
    requires
        m.wf(),
        op_class(op) == OpClass::Arith,
        arith_step(m, op).1 is Ok,
    ensures
        arith_step(m, op).0.temp_len() == m.temp_len() + net_bytes(op),
        arith_step(m, op).0.stack.vars == m.stack.vars,
{
    if is_word_op(op) {
        let (l, r) = pop_words(m).1->Ok_0;
        lemma_byte_counts(m, Seq::empty(), 4, exit_slot());
        let first = m.pop(4).0;
        lemma_byte_counts(first, Seq::empty(), 4, exit_slot());
        let second = first.pop(4).0;
        assert(pop_words(m).0 == second);
        let bytes = word_result(op, l, r)->Ok_0;
        lemma_widths(0, l.wrapping_add(r), 0);
        lemma_widths(0, i32_bits(bits_i32(l).wrapping_sub(bits_i32(r))), 0);
        lemma_widths(0, i32_bits(bits_i32(l).wrapping_mul(bits_i32(r))), 0);
        if op is DivI32 {
            lemma_widths(0, i32_bits(div_i32(bits_i32(l), bits_i32(r))->Ok_0), 0);
        }
        lemma_byte_counts(second, bytes, 0, exit_slot());
    } else {
        let (l, r) = pop_longs(m).1->Ok_0;
        lemma_byte_counts(m, Seq::empty(), 8, exit_slot());
        let first = m.pop(8).0;
        lemma_byte_counts(first, Seq::empty(), 8, exit_slot());
        let second = first.pop(8).0;
        assert(pop_longs(m).0 == second);
        let bytes = long_result(op, l, r)->Ok_0;
        lemma_widths(0, 0, l.wrapping_add(r));
        lemma_widths(0, 0, l.wrapping_sub(r));
        lemma_widths(0, 0, l.wrapping_mul(r));
        lemma_widths(0, 0, i64_bits(bits_i64(l).wrapping_sub(bits_i64(r))));
        lemma_widths(0, 0, i64_bits(bits_i64(l).wrapping_mul(bits_i64(r))));
        if op is DivI64 {
            lemma_widths(0, 0, i64_bits(div_i64(bits_i64(l), bits_i64(r))->Ok_0));
        }
        if r != 0 {
            lemma_widths(0, 0, l / r);
            lemma_widths(0, 0, l % r);
        }
        lemma_byte_counts(second, bytes, 0, exit_slot());
    }
}

/// Wherever the stack pool has room for four more bytes, pushing a 32-bit
/// constant succeeds and puts its four big-endian bytes on top of the
/// operand stack; popping them gives the constant back when they are read
/// as a signed value, and the memory is as it was before the push.
pub proof fn lemma_make_temp_round_trip(m: MemoryView, v: i32)
    requires
        m.wf(),
        m.stack.data.len() + 4 <= POOL_LIMIT,
    ensures
        stack_step(m, Opcode::MakeTempI32(v)) == (
            m.pushed(u32_be(i32_bits(v))),
            Ok::<(), ErrorKind>(()),
        ),
        u32_be(i32_bits(v)).len() == 4,
        m.pushed(u32_be(i32_bits(v))).pop_u32() == (m, Ok::<u32, ErrorKind>(i32_bits(v))),
        bits_i32(i32_bits(v)) == v,
{
    lemma_be_round_trip(0, i32_bits(v), 0);
    lemma_push_then_pop(m, u32_be(i32_bits(v)));
}

/// Sign extension keeps the value: wherever the stack pool has room for
/// four more bytes, a signed byte that is pushed and widened to 32 bits
/// leaves the four big-endian bytes of the same value on top of what the
/// stack held.
pub proof fn lemma_sign_extension(m: MemoryView, v: i8)
    requires
        m.wf(),
        m.stack.data.len() + 4 <= POOL_LIMIT,
    ensures
        stack_step(m, Opcode::MakeTempI8(v)) == (
            m.pushed(seq![i8_bits(v)]),
            Ok::<(), ErrorKind>(()),
        ),
        extend_step(m.pushed(seq![i8_bits(v)]), Opcode::SExtend8To32) == (
            m.pushed(u32_be(i32_bits(v as i32))),
            Ok::<(), ErrorKind>(()),
        ),
        u32_be(i32_bits(v as i32)).len() == 4,
        bits_i32(be_u32(u32_be(i32_bits(v as i32)))) == v,
{
    lemma_be_round_trip(0, i32_bits(v as i32), 0);
    lemma_push_then_pop(m, seq![i8_bits(v)]);
    let pushed = stack_step(m, Opcode::MakeTempI8(v)).0;
    assert(pushed.pop(1) == (m, Ok::<Seq<u8>, ErrorKind>(seq![i8_bits(v)])));
    assert(bits_i8(i8_bits(v)) == v);
}

/// Zero extension keeps the magnitude: wherever the stack pool has room
/// for four more bytes, a byte that is pushed and widened to 32 bits leaves
/// three zero bytes and the byte itself on top of what the stack held,
/// which is the big-endian form of the same number.
pub proof fn lemma_zero_extension(m: MemoryView, v: u8)
    requires
        m.wf(),
        m.stack.data.len() + 4 <= POOL_LIMIT,
    ensures
        stack_step(m, Opcode::MakeTempI8(bits_i8(v))) == (
            m.pushed(seq![v]),
            Ok::<(), ErrorKind>(()),
        ),
        extend_step(m.pushed(seq![v]), Opcode::ZExtend8To32) == (
            m.pushed(seq![0u8, 0u8, 0u8, v]),
            Ok::<(), ErrorKind>(()),
        ),
        be_u32(seq![0u8, 0u8, 0u8, v]) == v,
{
    lemma_be_round_trip(0, v as u32, 0);
    lemma_push_then_pop(m, seq![i8_bits(bits_i8(v))]);
    let pushed = stack_step(m, Opcode::MakeTempI8(bits_i8(v))).0;
    assert(i8_bits(bits_i8(v)) == v);
    assert(pushed.pop(1) == (m, Ok::<Seq<u8>, ErrorKind>(seq![v])));
    assert(u32_be(v as u32) =~= seq![0u8, 0u8, 0u8, v]);
}

/// Whether an opcode divides.
pub open spec fn divides(op: Opcode) -> bool {
    op is DivI32 || op is DivI64 || op is DivU64 || op is ModI64
}

/// Division by zero is trapped: a dividing opcode whose right operand is
/// zero raises `DivisionByZero` and pushes nothing.
pub proof fn lemma_division_by_zero_traps(m: MemoryView, op: Opcode)
    requires
        divides(op),
        op is DivI32 ==> pop_words(m).1 is Ok && pop_words(m).1->Ok_0.1 == 0,
        !(op is DivI32) ==> pop_longs(m).1 is Ok && pop_longs(m).1->Ok_0.1 == 0,
    ensures
        arith_step(m, op).1 == Err::<(), ErrorKind>(ErrorKind::DivisionByZero),
        op is DivI32 ==> arith_step(m, op).0 == pop_words(m).0,
        !(op is DivI32) ==> arith_step(m, op).0 == pop_longs(m).0,
{
}

/// In every machine with room for one more frame, a call that is followed
/// at once by the matching `Ret` takes two steps, neither of which fails or
/// ends the program, and leaves the memory as it was, with the program
/// counter at the opcode after the call: the frame pointer, the call stack
/// and the stack variables are those from before the call.
pub proof fn lemma_call_ret_steps(machine: Runtime, target: u32)
    requires
        machine.wf(),
        machine.program.ops@[machine.memory@.pc as int].op == Opcode::Call(target),
        machine.program.ops@[target + 1].op == Opcode::Ret,
        machine.memory@.callstack.len() < CALL_DEPTH_LIMIT,
        machine.memory@.stack.vars.len() < STACK_VAR_LIMIT,
    ensures
        step(machine.program.ops@, machine.args@, machine.memory@).1 == Ok::<
            Option<i32>,
            ErrorKind,
        >(None),
        step(machine.program.ops@, machine.args@, machine.memory@).0.pc == target + 1,
        step(
            machine.program.ops@,
            machine.args@,
            step(machine.program.ops@, machine.args@, machine.memory@).0,
        ) == (
            machine.memory@.jump((machine.memory@.pc + 1) as u32),
            Ok::<Option<i32>, ErrorKind>(None),
        ),
{
    let ops = machine.program.ops@;
    let m = machine.memory@;
    let op = ops[m.pc as int];
    assert(op_in_range(ops, m.pc as int));
    lemma_call_then_ret(m, (target + 1) as u32, ops[target as int].op->Func_0, op.loc);
}

} // verus!
