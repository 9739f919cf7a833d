//! The machine's memory: tagged pointers, variable buffers, and the
//! segmented memory with its operand stack and call stack.

use vstd::prelude::*;
use vstd::string::StringExecFns;
use crate::printf::decimal;
use crate::util::CodeLoc;
use crate::encoding::{
    be_u16, be_u32, be_u64, push_u16_be, push_u32_be, push_u64_be, read_u16_be, read_u32_be,
    read_u64_be, u16_be, u32_be, u64_be,
};

verus! {

/// The characters whose codes are the given bytes.
pub open spec fn chars_of(bytes: Seq<u8>) -> Seq<char> {
    Seq::new(bytes.len(), |i: int| bytes[i] as char)
}

/// Appends the decimal digits of `v` to `s`.
pub fn append_decimal(s: &mut String, v: u64)
    ensures
        final(s)@ == old(s)@ + chars_of(decimal(v as nat)),
    decreases v,
{
    if v >= 10 {
        append_decimal(s, v / 10);
    }
    let digit: u8 = 0x30 + (v % 10) as u8;
    s.push(digit as char);
    assert(s@ =~= old(s)@ + chars_of(decimal(v as nat)));
}

/// The runtime faults. A fault has the short name of its kind and a
/// message; faults of one kind differ in what their message says.
#[derive(Debug, Clone, Copy, PartialEq, Eq, Structural)]
pub enum ErrorKind {
    /// A null pointer, a pointer to a variable that is not live, or a
    /// pointer that an operation cannot accept.
    InvalidPointer,
    /// A `realloc` of a pointer that does not point into the heap.
    NotFromHeap,
    /// A `realloc` of a pointer that lies the given number of bytes behind
    /// the start of its variable.
    OffAllocation(u32),
    /// An access that crosses the end of a live variable.
    SegfaultOutOfBounds,
    /// A pop that the operand stack or the current frame cannot serve.
    StackUnderflow,
    /// The stack segment or the call stack is full.
    StackOverflow,
    /// The heap segment is full.
    OutOfMemory,
    /// A division or remainder by zero.
    DivisionByZero,
    /// A library call to the given symbol, which names no library function.
    InvalidLibraryFunction(u32),
    /// An environment call with the given code, which is unknown.
    InvalidEnviromentCall(u32),
    /// The given argument index, at or past the number of program
    /// arguments.
    InvalidArgumentIndex(u32),
    /// A string read that found no terminating zero byte.
    MissingNullTerminator,
    /// A format string that ends with a single `%`.
    LonePercent,
    /// A format string that ends within a conversion.
    CutOffConversion,
    /// The given byte in a format string, where a conversion character is
    /// due and which is none.
    InvalidFormatString(u8),
    /// The host refused output.
    WriteFailed,
}

impl ErrorKind {
    /// The short name under which the fault is reported.
    pub open spec fn name(self) -> Seq<char> {
        match self {
            ErrorKind::InvalidPointer => "InvalidPointer"@,
            ErrorKind::NotFromHeap => "InvalidPointer"@,
            ErrorKind::OffAllocation(_) => "InvalidPointer"@,
            ErrorKind::SegfaultOutOfBounds => "SegfaultOutOfBounds"@,
            ErrorKind::StackUnderflow => "StackUnderflow"@,
            ErrorKind::StackOverflow => "StackOverflow"@,
            ErrorKind::OutOfMemory => "OutOfMemory"@,
            ErrorKind::DivisionByZero => "DivisionByZero"@,
            ErrorKind::InvalidLibraryFunction(_) => "InvalidLibraryFunction"@,
            ErrorKind::InvalidEnviromentCall(_) => "InvalidEnviromentCall"@,
            ErrorKind::InvalidArgumentIndex(_) => "InvalidArgumentIndex"@,
            ErrorKind::MissingNullTerminator => "MissingNullTerminator"@,
            ErrorKind::LonePercent => "InvalidFormatString"@,
            ErrorKind::CutOffConversion => "InvalidFormatString"@,
            ErrorKind::InvalidFormatString(_) => "InvalidFormatString"@,
            ErrorKind::WriteFailed => "WriteFailed"@,
        }
    }

    /// The short name under which the fault is reported.
    pub fn short_name(self) -> (s: String)
        ensures
            s@ == self.name(),
    {
        match self {
            ErrorKind::InvalidPointer => "InvalidPointer".to_owned(),
            ErrorKind::NotFromHeap => "InvalidPointer".to_owned(),
            ErrorKind::OffAllocation(_) => "InvalidPointer".to_owned(),
            ErrorKind::SegfaultOutOfBounds => "SegfaultOutOfBounds".to_owned(),
            ErrorKind::StackUnderflow => "StackUnderflow".to_owned(),
            ErrorKind::StackOverflow => "StackOverflow".to_owned(),
            ErrorKind::OutOfMemory => "OutOfMemory".to_owned(),
            ErrorKind::DivisionByZero => "DivisionByZero".to_owned(),
            ErrorKind::InvalidLibraryFunction(_) => "InvalidLibraryFunction".to_owned(),
            ErrorKind::InvalidEnviromentCall(_) => "InvalidEnviromentCall".to_owned(),
            ErrorKind::InvalidArgumentIndex(_) => "InvalidArgumentIndex".to_owned(),
            ErrorKind::MissingNullTerminator => "MissingNullTerminator".to_owned(),
            ErrorKind::LonePercent => "InvalidFormatString".to_owned(),
            ErrorKind::CutOffConversion => "InvalidFormatString".to_owned(),
            ErrorKind::InvalidFormatString(_) => "InvalidFormatString".to_owned(),
            ErrorKind::WriteFailed => "WriteFailed".to_owned(),
        }
    }

    /// The message that explains the fault to a reader. It holds the value
    /// that the fault carries: numbers in decimal, and a byte as the
    /// character with its code.
    pub open spec fn text(self) -> Seq<char> {
        match self {
            ErrorKind::InvalidPointer => "the pointer does not name a live variable"@,
            ErrorKind::NotFromHeap => "called realloc on a pointer that was not from the heap"@,
            ErrorKind::OffAllocation(offset) => "called realloc on a pointer that was "@ + chars_of(
                decimal(offset as nat),
            ) + " bytes off of its allocation"@,
            ErrorKind::SegfaultOutOfBounds => "the access crosses the end of its variable"@,
            ErrorKind::StackUnderflow => "tried to pop more than the stack holds"@,
            ErrorKind::StackOverflow => "the stack is full"@,
            ErrorKind::OutOfMemory => "the heap is full"@,
            ErrorKind::DivisionByZero => "division by zero"@,
            ErrorKind::InvalidLibraryFunction(symbol) => "library function symbol '"@ + chars_of(
                decimal(symbol as nat),
            ) + "' is invalid (this is a problem with tci)"@,
            ErrorKind::InvalidEnviromentCall(code) => "invalid ecall value of "@ + chars_of(
                decimal(code as nat),
            ),
            ErrorKind::InvalidArgumentIndex(index) => "Argument index "@ + chars_of(
                decimal(index as nat),
            ) + " is invalid (this is a problem with tci)"@,
            ErrorKind::MissingNullTerminator => "string missing null terminator"@,
            ErrorKind::LonePercent => "format string ends with a single '%'; to print out a '%' use '%%'"@,
            ErrorKind::CutOffConversion => "format string ends within a conversion"@,
            ErrorKind::InvalidFormatString(byte) => "got byte '"@.push(byte as char)
                + "' after '%'"@,
            ErrorKind::WriteFailed => "failed to write to stdout"@,
        }
    }

    /// The message that explains the fault to a reader.
    pub fn describe(self) -> (s: String)
        ensures
            s@ == self.text(),
    {
        match self {
            ErrorKind::InvalidPointer => "the pointer does not name a live variable".to_owned(),
            ErrorKind::NotFromHeap => "called realloc on a pointer that was not from the heap".to_owned(),
            ErrorKind::OffAllocation(offset) => {
                let mut s: String = "called realloc on a pointer that was ".to_owned();
                append_decimal(&mut s, offset as u64);
                s.append(" bytes off of its allocation");
                s
            },
            ErrorKind::SegfaultOutOfBounds => "the access crosses the end of its variable".to_owned(),
            ErrorKind::StackUnderflow => "tried to pop more than the stack holds".to_owned(),
            ErrorKind::StackOverflow => "the stack is full".to_owned(),
            ErrorKind::OutOfMemory => "the heap is full".to_owned(),
            ErrorKind::DivisionByZero => "division by zero".to_owned(),
            ErrorKind::InvalidLibraryFunction(symbol) => {
                let mut s: String = "library function symbol '".to_owned();
                append_decimal(&mut s, symbol as u64);
                s.append("' is invalid (this is a problem with tci)");
                s
            },
            ErrorKind::InvalidEnviromentCall(code) => {
                let mut s: String = "invalid ecall value of ".to_owned();
                append_decimal(&mut s, code as u64);
                s
            },
            ErrorKind::InvalidArgumentIndex(index) => {
                let mut s: String = "Argument index ".to_owned();
                append_decimal(&mut s, index as u64);
                s.append(" is invalid (this is a problem with tci)");
                s
            },
            ErrorKind::MissingNullTerminator => "string missing null terminator".to_owned(),
            ErrorKind::LonePercent => "format string ends with a single '%'; to print out a '%' use '%%'".to_owned(),
            ErrorKind::CutOffConversion => "format string ends within a conversion".to_owned(),
            ErrorKind::InvalidFormatString(byte) => {
                let mut s: String = "got byte '".to_owned();
                s.push(byte as char);
                s.append("' after '%'");
                s
            },
            ErrorKind::WriteFailed => "failed to write to stdout".to_owned(),
        }
    }
}

/// A runtime fault: the short name of its kind and a message for the reader.
#[derive(Debug, Clone)]
pub struct IError {
    pub short_name: String,
    pub message: String,
}

impl IError {
    /// A fault with the given short name and message.
    pub fn new(short_name: &str, message: String) -> (e: IError)
        ensures
            e.short_name@ == short_name@,
            e.message@ == message@,
    {
        IError { short_name: short_name.to_owned(), message }
    }

    /// The fault of the given kind.
    pub fn of_kind(kind: ErrorKind) -> (e: IError)
        ensures
            e.is_kind(kind),
    {
        IError { short_name: kind.short_name(), message: kind.describe() }
    }

    /// Whether the fault is the fault of `kind`: it has the short name and
    /// the message of the kind.
    pub open spec fn is_kind(&self, kind: ErrorKind) -> bool {
        self.short_name@ == kind.name() && self.message@ == kind.text()
    }
}

/// Whether an executable result agrees with the result that the model
/// gives: the same value on success, a fault of the same kind on failure.
pub open spec fn agrees<T>(r: Result<T, IError>, model: Result<T, ErrorKind>) -> bool {
    match model {
        Ok(v) => r == Ok::<T, IError>(v),
        Err(kind) => r is Err && r->Err_0.is_kind(kind),
    }
}

/// A result without its value.
pub open spec fn dropped<T>(r: Result<T, ErrorKind>) -> Result<(), ErrorKind> {
    match r {
        Ok(_) => Ok(()),
        Err(kind) => Err(kind),
    }
}

/// Segment tag of the null pointer.
pub const TAG_NULL: u64 = 0;

/// Segment tag of pointers into the stack segment.
pub const TAG_STACK: u64 = 1;

/// Segment tag of pointers into the heap segment.
pub const TAG_HEAP: u64 = 2;

/// Segment tag of pointers into the static segment.
pub const TAG_BINARY: u64 = 3;

/// One past the largest variable id that a pointer can carry.
pub const VAR_ID_LIMIT: u32 = 0x4000_0000;

/// A tagged pointer: two bits of segment tag, thirty bits of variable id and
/// thirty-two bits of byte offset within the variable, from the top down.
#[derive(Debug, Clone, Copy, PartialEq, Eq, Hash, Structural)]
pub struct VarPointer {
    pub value: u64,
}

impl VarPointer {
    /// The pointer with the given tag, variable id and offset.
    #[verifier::opaque]
    pub open spec fn make(tag: int, var: int, offset: int) -> VarPointer {
        VarPointer {
            value: (tag * 0x4000_0000_0000_0000 + var * 0x1_0000_0000 + offset) as u64,
        }
    }

    /// The segment tag.
    #[verifier::opaque]
    pub open spec fn tag(self) -> int {
        self.value as int / 0x4000_0000_0000_0000
    }

    /// The variable id.
    #[verifier::opaque]
    pub open spec fn var(self) -> int {
        (self.value as int / 0x1_0000_0000) % 0x4000_0000
    }

    /// The byte offset within the variable.
    #[verifier::opaque]
    pub open spec fn off(self) -> int {
        self.value as int % 0x1_0000_0000
    }

    /// A pointer is made of its three parts, and making a pointer from parts
    /// in range gives a pointer with those parts.
    pub proof fn lemma_parts(tag: int, var: int, offset: int)
        requires
            0 <= tag < 4,
            0 <= var < 0x4000_0000,
            0 <= offset < 0x1_0000_0000,
        ensures
            Self::make(tag, var, offset).tag() == tag,
            Self::make(tag, var, offset).var() == var,
            Self::make(tag, var, offset).off() == offset,
    {
        reveal(VarPointer::make);
        reveal(VarPointer::tag);
        reveal(VarPointer::var);
        reveal(VarPointer::off);
    }

    /// Every pointer is the pointer made of its own parts.
    pub proof fn lemma_made_of_parts(self)
        ensures
            0 <= self.tag() < 4,
            0 <= self.var() < 0x4000_0000,
            0 <= self.off() < 0x1_0000_0000,
            self == Self::make(self.tag(), self.var(), self.off()),
    {
        reveal(VarPointer::make);
        reveal(VarPointer::tag);
        reveal(VarPointer::var);
        reveal(VarPointer::off);
    }

    /// A pointer into the stack segment.
    pub fn new_stack(idx: u16, offset: u32) -> (p: VarPointer)
        ensures
            p == Self::make(TAG_STACK as int, idx as int, offset as int),
            p.tag() == TAG_STACK,
            p.var() == idx,
            p.off() == offset,
    {
        proof {
            Self::lemma_parts(TAG_STACK as int, idx as int, offset as int);
            reveal(VarPointer::make);
        }
        VarPointer { value: 0x4000_0000_0000_0000 + (idx as u64) * 0x1_0000_0000 + offset as u64 }
    }

    /// A pointer into the heap segment.
    pub fn new_heap(idx: u32, offset: u32) -> (p: VarPointer)
        requires
            idx < VAR_ID_LIMIT,
        ensures
            p == Self::make(TAG_HEAP as int, idx as int, offset as int),
            p.tag() == TAG_HEAP,
            p.var() == idx,
            p.off() == offset,
    {
        proof {
            Self::lemma_parts(TAG_HEAP as int, idx as int, offset as int);
            reveal(VarPointer::make);
        }
        VarPointer { value: 0x8000_0000_0000_0000 + (idx as u64) * 0x1_0000_0000 + offset as u64 }
    }

    /// A pointer into the static segment.
    pub fn new_binary(idx: u32, offset: u32) -> (p: VarPointer)
        requires
            idx < VAR_ID_LIMIT,
        ensures
            p == Self::make(TAG_BINARY as int, idx as int, offset as int),
            p.tag() == TAG_BINARY,
            p.var() == idx,
            p.off() == offset,
    {
        proof {
            Self::lemma_parts(TAG_BINARY as int, idx as int, offset as int);
            reveal(VarPointer::make);
        }
        VarPointer { value: 0xC000_0000_0000_0000 + (idx as u64) * 0x1_0000_0000 + offset as u64 }
    }

    /// Whether the pointer is into the stack segment.
    pub fn is_stack(self) -> (b: bool)
        ensures
            b == (self.tag() == TAG_STACK),
    {
        proof {
            reveal(VarPointer::tag);
        }
        self.value / 0x4000_0000_0000_0000 == TAG_STACK
    }

    /// Whether the pointer is into the heap segment.
    pub fn is_heap(self) -> (b: bool)
        ensures
            b == (self.tag() == TAG_HEAP),
    {
        proof {
            reveal(VarPointer::tag);
        }
        self.value / 0x4000_0000_0000_0000 == TAG_HEAP
    }

    /// Whether the pointer is into the static segment.
    pub fn is_binary(self) -> (b: bool)
        ensures
            b == (self.tag() == TAG_BINARY),
    {
        proof {
            reveal(VarPointer::tag);
        }
        self.value / 0x4000_0000_0000_0000 == TAG_BINARY
    }

    /// The variable id.
    pub fn var_idx(self) -> (v: u32)
        ensures
            v == self.var(),
            v < VAR_ID_LIMIT,
    {
        proof {
            reveal(VarPointer::var);
        }
        ((self.value / 0x1_0000_0000) % 0x4000_0000) as u32
    }

    /// The byte offset within the variable.
    pub fn offset(self) -> (o: u32)
        ensures
            o == self.off(),
    {
        proof {
            reveal(VarPointer::off);
        }
        (self.value % 0x1_0000_0000) as u32
    }

    /// The same pointer with its offset replaced.
    pub fn with_offset(self, offset: u32) -> (p: VarPointer)
        ensures
            p == Self::make(self.tag(), self.var(), offset as int),
            p.tag() == self.tag(),
            p.var() == self.var(),
            p.off() == offset,
    {
        proof {
            self.lemma_made_of_parts();
            Self::lemma_parts(self.tag(), self.var(), offset as int);
            reveal(VarPointer::make);
            reveal(VarPointer::off);
        }
        VarPointer { value: self.value - self.value % 0x1_0000_0000 + offset as u64 }
    }

    /// The offset that `n` more bytes lead to, wrapping within 32 bits.
    pub open spec fn off_plus(self, n: int) -> int {
        (self.off() + n) % 0x1_0000_0000
    }

    /// The pointer `n` bytes further on; the offset wraps within 32 bits.
    pub fn add(self, n: u64) -> (p: VarPointer)
        ensures
            p == Self::make(self.tag(), self.var(), self.off_plus(n as int)),
            p.tag() == self.tag(),
            p.var() == self.var(),
            p.off() == self.off_plus(n as int),
    {
        proof {
            reveal(VarPointer::off);
        }
        let low: u64 = n % 0x1_0000_0000;
        let sum: u64 = (self.value % 0x1_0000_0000 + low) % 0x1_0000_0000;
        assert(sum == self.off_plus(n as int)) by {
            vstd::arithmetic::div_mod::lemma_add_mod_noop_right(
                self.off(),
                n as int,
                0x1_0000_0000,
            );
        }
        self.with_offset(sum as u32)
    }
}

/// The most bytes that the pool of one segment can hold.
pub const POOL_LIMIT: usize = 0x7FFF_FFFF;

/// The most variables that the heap or the static segment can hold.
pub const VAR_LIMIT: usize = 0x3FFF_FFFF;

/// The most variables that the stack segment can hold.
pub const STACK_VAR_LIMIT: usize = 0xFFFF;

/// The most frames that the call stack can hold.
pub const CALL_DEPTH_LIMIT: usize = 0xFFFF_FFFF;

/// Symbol of variables and frames that carry no debug symbol.
pub const META_NO_SYMBOL: u32 = 0xFFFF_FFFF;

/// One variable of a segment: `len` bytes of the pool from `idx` on, and a
/// debug symbol.
#[derive(Debug, Clone, Copy, PartialEq, Eq, Structural)]
pub struct Var {
    pub idx: usize,
    pub len: u32,
    pub meta: u32,
}

/// `data` with the bytes from `start` on replaced by `bytes`.
pub open spec fn splice(data: Seq<u8>, start: int, bytes: Seq<u8>) -> Seq<u8> {
    Seq::new(
        data.len(),
        |i: int| if start <= i < start + bytes.len() { bytes[i - start] } else { data[i] },
    )
}

/// `n` zero bytes.
pub open spec fn zeros(n: int) -> Seq<u8> {
    Seq::new(n as nat, |i: int| 0u8)
}

/// What a variable buffer holds: the byte pool and the variable records.
/// Variable ids count from one; id zero names no variable.
pub struct BufferView {
    pub data: Seq<u8>,
    pub vars: Seq<Var>,
}

impl BufferView {
    /// The buffer without bytes or variables.
    pub open spec fn empty() -> BufferView {
        BufferView { data: Seq::empty(), vars: Seq::empty() }
    }

    /// The variables lie in the pool in the order of their ids, without
    /// overlap, and the buffer is within its limits.
    pub open spec fn wf(self) -> bool {
        &&& self.data.len() <= POOL_LIMIT
        &&& self.vars.len() <= VAR_LIMIT
        &&& forall|i: int|
            0 <= i < self.vars.len() ==> (#[trigger] self.vars[i]).idx + self.vars[i].len
                <= self.data.len()
        &&& forall|i: int, j: int|
            0 <= i < j < self.vars.len() ==> (#[trigger] self.vars[i]).idx + self.vars[i].len <= (
            #[trigger] self.vars[j]).idx
    }

    /// The end of the last variable: where the bytes that belong to no
    /// variable begin.
    pub open spec fn upper(self) -> int {
        if self.vars.len() == 0 {
            0
        } else {
            self.vars.last().idx + self.vars.last().len
        }
    }

    /// Whether `var` is the id of a variable of the buffer.
    pub open spec fn live(self, var: int) -> bool {
        1 <= var <= self.vars.len()
    }

    /// What becomes of an access to `len` bytes at `offset` in variable
    /// `var`: the pool index where the bytes begin, or the fault.
    pub open spec fn check(self, var: int, offset: int, len: int) -> Result<int, ErrorKind> {
        if !self.live(var) {
            Err(ErrorKind::InvalidPointer)
        } else if offset + len > self.vars[var - 1].len {
            Err(ErrorKind::SegfaultOutOfBounds)
        } else {
            Ok(self.vars[var - 1].idx + offset)
        }
    }

    /// Whether a variable of `len` bytes can be added.
    pub open spec fn can_add(self, len: int) -> bool {
        self.vars.len() < VAR_LIMIT && self.data.len() + len <= POOL_LIMIT
    }

    /// The buffer with a new variable of `len` zero bytes at the end of the
    /// pool.
    pub open spec fn add_var(self, len: u32, meta: u32) -> BufferView {
        BufferView {
            data: self.data + zeros(len as int),
            vars: self.vars.push(Var { idx: self.data.len() as usize, len, meta }),
        }
    }

    /// The buffer with the pool bytes from `start` on replaced by `bytes`.
    pub open spec fn write_at(self, start: int, bytes: Seq<u8>) -> BufferView {
        BufferView { data: splice(self.data, start, bytes), vars: self.vars }
    }
}

/// An ordered sequence of variables over one growing byte pool.
#[derive(Debug, Clone)]
pub struct VarBuffer {
    pub data: Vec<u8>,
    pub vars: Vec<Var>,
}

impl View for VarBuffer {
    type V = BufferView;

    open spec fn view(&self) -> BufferView {
        BufferView { data: self.data@, vars: self.vars@ }
    }
}

impl VarBuffer {
    /// The buffer without bytes or variables.
    pub fn new() -> (b: VarBuffer)
        ensures
            b@ == BufferView::empty(),
            b@.wf(),
    {
        VarBuffer { data: Vec::new(), vars: Vec::new() }
    }

    /// Whether the buffer is well formed.
    pub fn is_wf(&self) -> (ok: bool)
        ensures
            ok == self@.wf(),
    {
        if self.data.len() > POOL_LIMIT || self.vars.len() > VAR_LIMIT {
            return false;
        }
        let mut end: usize = 0;
        let mut k: usize = 0;
        while k < self.vars.len()
            invariant
                k <= self.vars@.len(),
                self.data@.len() <= POOL_LIMIT,
                self.vars@.len() <= VAR_LIMIT,
                end <= self.data@.len(),
                k == 0 ==> end == 0,
                k > 0 ==> end == self.vars@[k - 1].idx + self.vars@[k - 1].len,
                forall|i: int|
                    0 <= i < k ==> (#[trigger] self.vars@[i]).idx + self.vars@[i].len <= end,
                forall|i: int, j: int|
                    0 <= i < j < k ==> (#[trigger] self.vars@[i]).idx + self.vars@[i].len <= (
                    #[trigger] self.vars@[j]).idx,
            decreases self.vars@.len() - k,
        {
            let var: Var = self.vars[k];
            if var.idx < end || var.idx > self.data.len() || var.len as usize > self.data.len()
                - var.idx {
                proof {
                    if self@.wf() {
                        if k > 0 {
                            assert(self.vars@[k - 1].idx + self.vars@[k - 1].len <= self.vars@[k
                                as int].idx);
                        }
                        assert(self.vars@[k as int].idx + self.vars@[k as int].len
                            <= self.data@.len());
                    }
                }
                return false;
            }
            end = var.idx + var.len as usize;
            k = k + 1;
        }
        true
    }

    /// Adds a variable of `len` zero bytes and returns its id, or adds
    /// nothing where the buffer is at one of its limits.
    pub fn add_var(&mut self, len: u32, meta: u32) -> (r: Option<u32>)
        requires
            old(self)@.wf(),
        ensures
            final(self)@.wf(),
            match r {
                Some(id) => old(self)@.can_add(len as int) && final(self)@ == old(self)@.add_var(
                    len,
                    meta,
                ) && id == final(self)@.vars.len(),
                None => !old(self)@.can_add(len as int) && final(self)@ == old(self)@,
            },
    {
        if self.vars.len() >= VAR_LIMIT || len as usize > POOL_LIMIT - self.data.len() {
            return None;
        }
        let idx: usize = self.data.len();
        self.vars.push(Var { idx, len, meta });
        let mut i: u32 = 0;
        while i < len
            invariant
                i <= len,
                idx + len <= POOL_LIMIT,
                self.vars@ == old(self).vars@.push(Var { idx, len, meta }),
                self.data@ == old(self).data@ + zeros(i as int),
                idx == old(self).data@.len(),
            decreases len - i,
        {
            self.data.push(0u8);
            i = i + 1;
            assert(self.data@ =~= old(self).data@ + zeros(i as int));
        }
        Some(self.vars.len() as u32)
    }

    /// Checks an access to `len` bytes at `offset` in variable `var` and
    /// returns the pool index where the bytes begin.
    pub fn check(&self, var: u32, offset: u32, len: u32) -> (r: Result<usize, ErrorKind>)
        requires
            self@.wf(),
        ensures
            match r {
                Ok(start) => self@.check(var as int, offset as int, len as int) == Ok::<
                    int,
                    ErrorKind,
                >(start as int) && start + len <= self.data.len(),
                Err(kind) => self@.check(var as int, offset as int, len as int) == Err::<
                    int,
                    ErrorKind,
                >(kind),
            },
    {
        if var == 0 || var as usize > self.vars.len() {
            return Err(ErrorKind::InvalidPointer);
        }
        let v: Var = self.vars[var as usize - 1];
        if offset as u64 + len as u64 > v.len as u64 {
            return Err(ErrorKind::SegfaultOutOfBounds);
        }
        Ok(v.idx + offset as usize)
    }

    /// The `len` pool bytes from `start` on.
    pub fn read(&self, start: usize, len: usize) -> (bytes: Vec<u8>)
        requires
            start + len <= self.data.len(),
        ensures
            bytes@ == self.data@.subrange(start as int, start + len),
    {
        let mut bytes: Vec<u8> = Vec::new();
        let mut i: usize = 0;
        while i < len
            invariant
                i <= len,
                start + len <= self.data.len(),
                bytes@ == self.data@.subrange(start as int, start + i),
            decreases len - i,
        {
            bytes.push(self.data[start + i]);
            i = i + 1;
            assert(bytes@ =~= self.data@.subrange(start as int, start + i));
        }
        bytes
    }

    /// Replaces the pool bytes from `start` on by `bytes`.
    pub fn write(&mut self, start: usize, bytes: &Vec<u8>)
        requires
            start + bytes.len() <= old(self).data.len(),
        ensures
            final(self)@ == old(self)@.write_at(start as int, bytes@),
    {
        let mut i: usize = 0;
        while i < bytes.len()
            invariant
                i <= bytes.len(),
                start + bytes.len() <= self.data.len(),
                self.vars@ == old(self).vars@,
                self.data@ == splice(old(self).data@, start as int, bytes@.subrange(0, i as int)),
            decreases bytes.len() - i,
        {
            self.data.set(start + i, bytes[i]);
            i = i + 1;
            assert(self.data@ =~= splice(
                old(self).data@,
                start as int,
                bytes@.subrange(0, i as int),
            ));
        }
        assert(bytes@.subrange(0, bytes.len() as int) =~= bytes@);
    }
}

/// One entry of the call stack: the callee's symbol, the location of the
/// call site, and the frame pointer and program counter to go back to.
#[derive(Debug, Clone, Copy, PartialEq, Eq, Structural)]
pub struct CallFrame {
    pub name: u32,
    pub loc: CodeLoc,
    pub fp: u16,
    pub pc: u32,
}

/// What the memory holds.
///
/// The stack pool holds the stack variables and, between and above them,
/// operand bytes. The operand stack is the part of the pool above the last
/// stack variable.
pub struct MemoryView {
    pub stack: BufferView,
    pub heap: BufferView,
    pub binary: BufferView,
    pub callstack: Seq<CallFrame>,
    pub fp: u16,
    pub pc: u32,
    pub output: Seq<u8>,
}

/// The id of the stack variable that a frame-relative index names under
/// frame pointer `fp`: `fp + var`, or zero, the id of no variable, where that
/// sum is no id.
pub open spec fn local_id(fp: u16, var: i16) -> u16 {
    if 0 <= fp + var <= 0xFFFF {
        (fp + var) as u16
    } else {
        0
    }
}

impl MemoryView {
    /// The memory of a machine that has not run yet, over the given static
    /// segment.
    pub open spec fn initial(binary: BufferView) -> MemoryView {
        MemoryView {
            stack: BufferView::empty(),
            heap: BufferView::empty(),
            binary,
            callstack: Seq::empty(),
            fp: 1,
            pc: 0,
            output: Seq::empty(),
        }
    }

    /// The segments are well formed and within the limits of the machine.
    pub open spec fn wf(self) -> bool {
        &&& self.stack.wf()
        &&& self.heap.wf()
        &&& self.binary.wf()
        &&& self.stack.vars.len() <= STACK_VAR_LIMIT
        &&& self.callstack.len() <= CALL_DEPTH_LIMIT
        &&& self.fp >= 1
        &&& forall|i: int| 0 <= i < self.callstack.len() ==> (#[trigger] self.callstack[i]).fp >= 1
    }

    /// The number of bytes on the operand stack.
    pub open spec fn temp_len(self) -> int {
        self.stack.data.len() - self.stack.upper()
    }

    /// The top `n` bytes of the operand stack.
    pub open spec fn top(self, n: int) -> Seq<u8> {
        self.stack.data.subrange(self.stack.data.len() - n, self.stack.data.len() as int)
    }

    /// The memory with the stack pool replaced.
    pub open spec fn with_stack_data(self, data: Seq<u8>) -> MemoryView {
        MemoryView { stack: BufferView { data, vars: self.stack.vars }, ..self }
    }

    /// The memory with `bytes` on top of the operand stack.
    pub open spec fn pushed(self, bytes: Seq<u8>) -> MemoryView {
        self.with_stack_data(self.stack.data + bytes)
    }

    /// The memory without the top `n` bytes of the operand stack.
    pub open spec fn popped(self, n: int) -> MemoryView {
        self.with_stack_data(self.stack.data.take(self.stack.data.len() - n))
    }

    /// Pushing `bytes`: the stack overflows where the pool would pass its
    /// limit.
    pub open spec fn push(self, bytes: Seq<u8>) -> (MemoryView, Result<(), ErrorKind>) {
        if self.stack.data.len() + bytes.len() > POOL_LIMIT {
            (self, Err(ErrorKind::StackOverflow))
        } else {
            (self.pushed(bytes), Ok(()))
        }
    }

    /// Popping `n` bytes: the stack underflows where the operand stack holds
    /// fewer.
    pub open spec fn pop(self, n: int) -> (MemoryView, Result<Seq<u8>, ErrorKind>) {
        if n > self.temp_len() {
            (self, Err(ErrorKind::StackUnderflow))
        } else {
            (self.popped(n), Ok(self.top(n)))
        }
    }

    /// Popping one byte.
    pub open spec fn pop_u8(self) -> (MemoryView, Result<u8, ErrorKind>) {
        match self.pop(1).1 {
            Ok(bytes) => (self.pop(1).0, Ok(bytes[0])),
            Err(kind) => (self, Err(kind)),
        }
    }

    /// Popping a big-endian halfword.
    pub open spec fn pop_u16(self) -> (MemoryView, Result<u16, ErrorKind>) {
        match self.pop(2).1 {
            Ok(bytes) => (self.pop(2).0, Ok(be_u16(bytes))),
            Err(kind) => (self, Err(kind)),
        }
    }

    /// Popping a big-endian word.
    pub open spec fn pop_u32(self) -> (MemoryView, Result<u32, ErrorKind>) {
        match self.pop(4).1 {
            Ok(bytes) => (self.pop(4).0, Ok(be_u32(bytes))),
            Err(kind) => (self, Err(kind)),
        }
    }

    /// Popping a big-endian doubleword.
    pub open spec fn pop_u64(self) -> (MemoryView, Result<u64, ErrorKind>) {
        match self.pop(8).1 {
            Ok(bytes) => (self.pop(8).0, Ok(be_u64(bytes))),
            Err(kind) => (self, Err(kind)),
        }
    }

    /// Duplicating the top `n` bytes of the operand stack.
    pub open spec fn dup(self, n: int) -> (MemoryView, Result<(), ErrorKind>) {
        if n > self.temp_len() {
            (self, Err(ErrorKind::StackUnderflow))
        } else {
            self.push(self.top(n))
        }
    }

    /// Dropping the `drop` bytes that lie under the top `keep` bytes.
    pub open spec fn pop_keep(self, keep: int, drop: int) -> (MemoryView, Result<(), ErrorKind>) {
        if keep + drop > self.temp_len() {
            (self, Err(ErrorKind::StackUnderflow))
        } else {
            (self.popped(keep + drop).pushed(self.top(keep)), Ok(()))
        }
    }

    /// Exchanging the top `top` bytes with the `bottom` bytes under them.
    pub open spec fn swap(self, top: int, bottom: int) -> (MemoryView, Result<(), ErrorKind>) {
        if top + bottom > self.temp_len() {
            (self, Err(ErrorKind::StackUnderflow))
        } else {
            (
                self.popped(top + bottom).pushed(self.top(top)).pushed(
                    self.popped(top).top(bottom),
                ),
                Ok(()),
            )
        }
    }

    /// Adding a stack variable of `len` zero bytes: the stack overflows
    /// where the segment is at one of its limits.
    pub open spec fn add_stack_var(self, len: u32, meta: u32) -> (
        MemoryView,
        Result<VarPointer, ErrorKind>,
    ) {
        if self.stack.vars.len() >= STACK_VAR_LIMIT || self.stack.data.len() + len > POOL_LIMIT {
            (self, Err(ErrorKind::StackOverflow))
        } else {
            (
                MemoryView { stack: self.stack.add_var(len, meta), ..self },
                Ok(VarPointer::make(TAG_STACK as int, (self.stack.vars.len() + 1) as int, 0)),
            )
        }
    }

    /// Adding a heap variable of `len` zero bytes: memory runs out where the
    /// segment is at one of its limits.
    pub open spec fn add_heap_var(self, len: u32) -> (MemoryView, Result<VarPointer, ErrorKind>) {
        if !self.heap.can_add(len as int) {
            (self, Err(ErrorKind::OutOfMemory))
        } else {
            (
                MemoryView { heap: self.heap.add_var(len, META_NO_SYMBOL), ..self },
                Ok(VarPointer::make(TAG_HEAP as int, (self.heap.vars.len() + 1) as int, 0)),
            )
        }
    }

    /// Whether the current frame owns a stack variable.
    pub open spec fn frame_has_var(self) -> bool {
        self.stack.vars.len() >= self.fp
    }

    /// Dropping the last stack variable and all that lies above its start.
    pub open spec fn pop_stack_var(self) -> (MemoryView, Result<Var, ErrorKind>) {
        if !self.frame_has_var() {
            (self, Err(ErrorKind::StackUnderflow))
        } else {
            (
                MemoryView {
                    stack: BufferView {
                        data: self.stack.data.take(self.stack.vars.last().idx as int),
                        vars: self.stack.vars.drop_last(),
                    },
                    ..self
                },
                Ok(self.stack.vars.last()),
            )
        }
    }

    /// Turning the last stack variable into operand bytes: the record goes,
    /// its bytes stay, and what lay above them goes.
    pub open spec fn pop_stack_var_onto_stack(self) -> (MemoryView, Result<(), ErrorKind>) {
        if !self.frame_has_var() {
            (self, Err(ErrorKind::StackUnderflow))
        } else {
            (
                MemoryView {
                    stack: BufferView {
                        data: self.stack.data.take(self.stack.upper()),
                        vars: self.stack.vars.drop_last(),
                    },
                    ..self
                },
                Ok(()),
            )
        }
    }

    /// The segment that pointers with the given tag point into.
    pub open spec fn segment(self, tag: int) -> BufferView {
        if tag == TAG_STACK {
            self.stack
        } else if tag == TAG_HEAP {
            self.heap
        } else {
            self.binary
        }
    }

    /// The memory with the pool of one segment overwritten from `start` on.
    pub open spec fn with_written(self, tag: int, start: int, bytes: Seq<u8>) -> MemoryView {
        if tag == TAG_STACK {
            MemoryView { stack: self.stack.write_at(start, bytes), ..self }
        } else if tag == TAG_HEAP {
            MemoryView { heap: self.heap.write_at(start, bytes), ..self }
        } else {
            MemoryView { binary: self.binary.write_at(start, bytes), ..self }
        }
    }

    /// What becomes of an access to `len` bytes through `ptr`: the pool
    /// index where the bytes begin, or the fault. The null pointer and a
    /// pointer to a variable that is not live are invalid; an access past
    /// the end of a live variable is out of bounds.
    pub open spec fn check(self, ptr: VarPointer, len: int) -> Result<int, ErrorKind> {
        if ptr.tag() == TAG_NULL {
            Err(ErrorKind::InvalidPointer)
        } else {
            self.segment(ptr.tag()).check(ptr.var(), ptr.off(), len)
        }
    }

    /// The `len` bytes that `ptr` points to.
    pub open spec fn read(self, ptr: VarPointer, len: int) -> Result<Seq<u8>, ErrorKind> {
        match self.check(ptr, len) {
            Ok(start) => Ok(self.segment(ptr.tag()).data.subrange(start, start + len)),
            Err(kind) => Err(kind),
        }
    }

    /// Writing `bytes` to where `ptr` points.
    pub open spec fn write(self, ptr: VarPointer, bytes: Seq<u8>) -> (
        MemoryView,
        Result<(), ErrorKind>,
    ) {
        match self.check(ptr, bytes.len() as int) {
            Ok(start) => (self.with_written(ptr.tag(), start, bytes), Ok(())),
            Err(kind) => (self, Err(kind)),
        }
    }

    /// The byte that `ptr` points to.
    pub open spec fn read_u8(self, ptr: VarPointer) -> Result<u8, ErrorKind> {
        match self.read(ptr, 1) {
            Ok(bytes) => Ok(bytes[0]),
            Err(kind) => Err(kind),
        }
    }

    /// The big-endian word that `ptr` points to.
    pub open spec fn read_u32(self, ptr: VarPointer) -> Result<u32, ErrorKind> {
        match self.read(ptr, 4) {
            Ok(bytes) => Ok(be_u32(bytes)),
            Err(kind) => Err(kind),
        }
    }

    /// The big-endian doubleword that `ptr` points to.
    pub open spec fn read_u64(self, ptr: VarPointer) -> Result<u64, ErrorKind> {
        match self.read(ptr, 8) {
            Ok(bytes) => Ok(be_u64(bytes)),
            Err(kind) => Err(kind),
        }
    }

    /// The bytes from where `ptr` points to the end of its variable.
    pub open spec fn var_tail(self, ptr: VarPointer) -> Result<Seq<u8>, ErrorKind> {
        match self.check(ptr, 0) {
            Ok(start) => Ok(
                self.segment(ptr.tag()).data.subrange(
                    start,
                    start + self.segment(ptr.tag()).vars[ptr.var() - 1].len - ptr.off(),
                ),
            ),
            Err(kind) => Err(kind),
        }
    }

    /// Copying `len` bytes from where `ptr` points onto the operand stack.
    pub open spec fn push_stack_bytes_from(self, ptr: VarPointer, len: int) -> (
        MemoryView,
        Result<(), ErrorKind>,
    ) {
        match self.read(ptr, len) {
            Ok(bytes) => self.push(bytes),
            Err(kind) => (self, Err(kind)),
        }
    }

    /// Moving the top `len` bytes of the operand stack to where `ptr`
    /// points.
    pub open spec fn pop_stack_bytes_into(self, ptr: VarPointer, len: int) -> (
        MemoryView,
        Result<(), ErrorKind>,
    ) {
        if len > self.temp_len() {
            (self, Err(ErrorKind::StackUnderflow))
        } else {
            match self.check(ptr, len) {
                Ok(start) => (self.popped(len).with_written(ptr.tag(), start, self.top(len)), Ok(())),
                Err(kind) => (self, Err(kind)),
            }
        }
    }

    /// Whether two memories agree on where execution stands: on the program
    /// counter, the frame pointer and the call stack.
    pub open spec fn same_control(self, other: MemoryView) -> bool {
        self.pc == other.pc && self.fp == other.fp && self.callstack == other.callstack
    }

    /// The memory with the program counter at `target`.
    pub open spec fn jump(self, target: u32) -> MemoryView {
        MemoryView { pc: target, ..self }
    }

    /// Entering a function: the frame pointer and the program counter after
    /// the call go onto the call stack, the new frame begins above the last
    /// stack variable, and control goes to `new_pc`.
    pub open spec fn call(self, new_pc: u32, name: u32, loc: CodeLoc) -> (
        MemoryView,
        Result<(), ErrorKind>,
    ) {
        if self.stack.vars.len() >= STACK_VAR_LIMIT || self.callstack.len() >= CALL_DEPTH_LIMIT {
            (self, Err(ErrorKind::StackOverflow))
        } else {
            (
                MemoryView {
                    callstack: self.callstack.push(
                        CallFrame { name, loc, fp: self.fp, pc: (self.pc + 1) as u32 },
                    ),
                    fp: (self.stack.vars.len() + 1) as u16,
                    pc: new_pc,
                    ..self
                },
                Ok(()),
            )
        }
    }

    /// The stack segment without the variables of the current frame and
    /// without what lies above the start of the first of them.
    pub open spec fn stack_below_frame(self) -> BufferView {
        if self.frame_has_var() {
            BufferView {
                data: self.stack.data.take(self.stack.vars[self.fp - 1].idx as int),
                vars: self.stack.vars.take(self.fp - 1),
            }
        } else {
            self.stack
        }
    }

    /// Leaving a function: the variables of the current frame go, and the
    /// frame pointer and program counter come back from the call stack.
    pub open spec fn ret(self) -> (MemoryView, Result<(), ErrorKind>) {
        if self.callstack.len() == 0 {
            (self, Err(ErrorKind::StackUnderflow))
        } else {
            (
                MemoryView {
                    stack: self.stack_below_frame(),
                    callstack: self.callstack.drop_last(),
                    fp: self.callstack.last().fp,
                    pc: self.callstack.last().pc,
                    ..self
                },
                Ok(()),
            )
        }
    }

    /// The memory with one more entry on the call stack that records the
    /// current position under `loc`; a full call stack stays as it is.
    pub open spec fn push_callstack(self, loc: CodeLoc) -> MemoryView {
        if self.callstack.len() >= CALL_DEPTH_LIMIT {
            self
        } else {
            MemoryView {
                callstack: self.callstack.push(
                    CallFrame { name: META_NO_SYMBOL, loc, fp: self.fp, pc: self.pc },
                ),
                ..self
            }
        }
    }
}

/// The memory of the machine: three segments, the call stack, the frame
/// pointer, the program counter, and the output that the guest has written
/// and the host has not yet taken.
#[derive(Debug, Clone)]
pub struct Memory {
    pub stack: VarBuffer,
    pub heap: VarBuffer,
    pub binary: VarBuffer,
    pub callstack: Vec<CallFrame>,
    pub fp: u16,
    pub pc: u32,
    pub output: Vec<u8>,
}

impl View for Memory {
    type V = MemoryView;

    open spec fn view(&self) -> MemoryView {
        MemoryView {
            stack: self.stack@,
            heap: self.heap@,
            binary: self.binary@,
            callstack: self.callstack@,
            fp: self.fp,
            pc: self.pc,
            output: self.output@,
        }
    }
}

impl Memory {
    /// The memory is well formed when what it holds is.
    pub open spec fn wf(&self) -> bool {
        self@.wf()
    }

    /// The memory of a machine that has not run yet, over the given static
    /// segment.
    pub fn new_with_binary(binary: VarBuffer) -> (m: Memory)
        requires
            binary@.wf(),
        ensures
            m@ == MemoryView::initial(binary@),
            m.wf(),
    {
        Memory {
            stack: VarBuffer::new(),
            heap: VarBuffer::new(),
            binary,
            callstack: Vec::new(),
            fp: 1,
            pc: 0,
            output: Vec::new(),
        }
    }

    /// The number of stack variables, which is the id of the last of them.
    pub fn stack_length(&self) -> (n: u16)
        requires
            self.wf(),
        ensures
            n == self@.stack.vars.len(),
    {
        self.stack.vars.len() as u16
    }

    /// The number of bytes on the operand stack.
    pub fn temp_len(&self) -> (n: usize)
        requires
            self.wf(),
        ensures
            n == self@.temp_len(),
            n <= self.stack.data.len(),
    {
        let count: usize = self.stack.vars.len();
        if count == 0 {
            self.stack.data.len()
        } else {
            let last: Var = self.stack.vars[count - 1];
            self.stack.data.len() - (last.idx + last.len as usize)
        }
    }

    /// The id of the stack variable that the frame-relative index `var`
    /// names.
    pub fn fp_offset(&self, var: i16) -> (id: u16)
        ensures
            id == local_id(self.fp, var),
    {
        let sum: i32 = self.fp as i32 + var as i32;
        if 0 <= sum && sum <= 0xFFFF {
            sum as u16
        } else {
            0
        }
    }

    /// Pushes `bytes` onto the operand stack.
    pub fn push_bytes(&mut self, bytes: &Vec<u8>) -> (r: Result<(), IError>)
        requires
            old(self).wf(),
        ensures
            final(self).wf(),
            final(self)@ == old(self)@.push(bytes@).0,
            agrees(r, old(self)@.push(bytes@).1),
    {
        if bytes.len() > POOL_LIMIT - self.stack.data.len() {
            return Err(IError::of_kind(ErrorKind::StackOverflow));
        }
        let mut i: usize = 0;
        while i < bytes.len()
            invariant
                i <= bytes.len(),
                self.stack.data@ == old(self).stack.data@ + bytes@.subrange(0, i as int),
                self@ == old(self)@.with_stack_data(self.stack.data@),
            decreases bytes.len() - i,
        {
            self.stack.data.push(bytes[i]);
            i = i + 1;
            assert(self.stack.data@ =~= old(self).stack.data@ + bytes@.subrange(0, i as int));
        }
        assert(bytes@.subrange(0, bytes.len() as int) =~= bytes@);
        Ok(())
    }

    /// Pushes one byte onto the operand stack.
    pub fn push_u8(&mut self, value: u8) -> (r: Result<(), IError>)
        requires
            old(self).wf(),
        ensures
            final(self).wf(),
            final(self)@ == old(self)@.push(seq![value]).0,
            agrees(r, old(self)@.push(seq![value]).1),
    {
        let mut bytes: Vec<u8> = Vec::new();
        bytes.push(value);
        assert(bytes@ =~= seq![value]);
        self.push_bytes(&bytes)
    }

    /// Pushes a halfword onto the operand stack, most significant byte
    /// first.
    pub fn push_u16(&mut self, value: u16) -> (r: Result<(), IError>)
        requires
            old(self).wf(),
        ensures
            final(self).wf(),
            final(self)@ == old(self)@.push(u16_be(value)).0,
            agrees(r, old(self)@.push(u16_be(value)).1),
    {
        let mut bytes: Vec<u8> = Vec::new();
        push_u16_be(&mut bytes, value);
        assert(bytes@ =~= u16_be(value));
        self.push_bytes(&bytes)
    }

    /// Pushes a word onto the operand stack, most significant byte first.
    pub fn push_u32(&mut self, value: u32) -> (r: Result<(), IError>)
        requires
            old(self).wf(),
        ensures
            final(self).wf(),
            final(self)@ == old(self)@.push(u32_be(value)).0,
            agrees(r, old(self)@.push(u32_be(value)).1),
    {
        let mut bytes: Vec<u8> = Vec::new();
        push_u32_be(&mut bytes, value);
        assert(bytes@ =~= u32_be(value));
        self.push_bytes(&bytes)
    }

    /// Pushes a doubleword onto the operand stack, most significant byte
    /// first.
    pub fn push_u64(&mut self, value: u64) -> (r: Result<(), IError>)
        requires
            old(self).wf(),
        ensures
            final(self).wf(),
            final(self)@ == old(self)@.push(u64_be(value)).0,
            agrees(r, old(self)@.push(u64_be(value)).1),
    {
        let mut bytes: Vec<u8> = Vec::new();
        push_u64_be(&mut bytes, value);
        assert(bytes@ =~= u64_be(value));
        self.push_bytes(&bytes)
    }

    /// Pops `n` bytes off the operand stack and returns them.
    pub fn pop_vec(&mut self, n: u32) -> (r: Result<Vec<u8>, IError>)
        requires
            old(self).wf(),
        ensures
            final(self).wf(),
            final(self)@ == old(self)@.pop(n as int).0,
            match old(self)@.pop(n as int).1 {
                Ok(bytes) => r is Ok && r->Ok_0@ == bytes,
                Err(kind) => r is Err && r->Err_0.is_kind(kind),
            },
    {
        if n as usize > self.temp_len() {
            return Err(IError::of_kind(ErrorKind::StackUnderflow));
        }
        let len: usize = self.stack.data.len();
        let bytes: Vec<u8> = self.stack.read(len - n as usize, n as usize);
        self.stack.data.truncate(len - n as usize);
        Ok(bytes)
    }

    /// Pops `n` bytes off the operand stack.
    pub fn pop_bytes(&mut self, n: u32) -> (r: Result<(), IError>)
        requires
            old(self).wf(),
        ensures
            final(self).wf(),
            final(self)@ == old(self)@.pop(n as int).0,
            agrees(r, dropped(old(self)@.pop(n as int).1)),
    {
        if n as usize > self.temp_len() {
            return Err(IError::of_kind(ErrorKind::StackUnderflow));
        }
        let len: usize = self.stack.data.len();
        self.stack.data.truncate(len - n as usize);
        Ok(())
    }

    /// Pops one byte off the operand stack.
    pub fn pop_u8(&mut self) -> (r: Result<u8, IError>)
        requires
            old(self).wf(),
        ensures
            final(self).wf(),
            final(self)@ == old(self)@.pop_u8().0,
            agrees(r, old(self)@.pop_u8().1),
    {
        if self.temp_len() < 1 {
            return Err(IError::of_kind(ErrorKind::StackUnderflow));
        }
        let len: usize = self.stack.data.len();
        let value: u8 = self.stack.data[len - 1];
        self.stack.data.truncate(len - 1);
        Ok(value)
    }

    /// Pops a big-endian halfword off the operand stack.
    pub fn pop_u16(&mut self) -> (r: Result<u16, IError>)
        requires
            old(self).wf(),
        ensures
            final(self).wf(),
            final(self)@ == old(self)@.pop_u16().0,
            agrees(r, old(self)@.pop_u16().1),
    {
        if self.temp_len() < 2 {
            return Err(IError::of_kind(ErrorKind::StackUnderflow));
        }
        let len: usize = self.stack.data.len();
        let value: u16 = read_u16_be(&self.stack.data, len - 2);
        self.stack.data.truncate(len - 2);
        Ok(value)
    }

    /// Pops a big-endian word off the operand stack.
    pub fn pop_u32(&mut self) -> (r: Result<u32, IError>)
        requires
            old(self).wf(),
        ensures
            final(self).wf(),
            final(self)@ == old(self)@.pop_u32().0,
            agrees(r, old(self)@.pop_u32().1),
    {
        if self.temp_len() < 4 {
            return Err(IError::of_kind(ErrorKind::StackUnderflow));
        }
        let len: usize = self.stack.data.len();
        let value: u32 = read_u32_be(&self.stack.data, len - 4);
        self.stack.data.truncate(len - 4);
        Ok(value)
    }

    /// Pops a big-endian doubleword off the operand stack.
    pub fn pop_u64(&mut self) -> (r: Result<u64, IError>)
        requires
            old(self).wf(),
        ensures
            final(self).wf(),
            final(self)@ == old(self)@.pop_u64().0,
            agrees(r, old(self)@.pop_u64().1),
    {
        if self.temp_len() < 8 {
            return Err(IError::of_kind(ErrorKind::StackUnderflow));
        }
        let len: usize = self.stack.data.len();
        let value: u64 = read_u64_be(&self.stack.data, len - 8);
        self.stack.data.truncate(len - 8);
        Ok(value)
    }

    /// Pushes a copy of the top `n` bytes of the operand stack.
    pub fn dup_top_stack_bytes(&mut self, n: u32) -> (r: Result<(), IError>)
        requires
            old(self).wf(),
        ensures
            final(self).wf(),
            final(self)@ == old(self)@.dup(n as int).0,
            agrees(r, old(self)@.dup(n as int).1),
    {
        if n as usize > self.temp_len() {
            return Err(IError::of_kind(ErrorKind::StackUnderflow));
        }
        let len: usize = self.stack.data.len();
        let bytes: Vec<u8> = self.stack.read(len - n as usize, n as usize);
        self.push_bytes(&bytes)
    }

    /// Drops the `drop` bytes that lie under the top `keep` bytes of the
    /// operand stack.
    pub fn pop_keep_bytes(&mut self, keep: u32, drop: u32) -> (r: Result<(), IError>)
        requires
            old(self).wf(),
        ensures
            final(self).wf(),
            final(self)@ == old(self)@.pop_keep(keep as int, drop as int).0,
            agrees(r, old(self)@.pop_keep(keep as int, drop as int).1),
    {
        let temp: usize = self.temp_len();
        if keep as u64 + drop as u64 > temp as u64 {
            return Err(IError::of_kind(ErrorKind::StackUnderflow));
        }
        let len: usize = self.stack.data.len();
        let kept: Vec<u8> = self.stack.read(len - keep as usize, keep as usize);
        self.stack.data.truncate(len - keep as usize - drop as usize);
        let pushed = self.push_bytes(&kept);
        assert(pushed is Ok);
        Ok(())
    }

    /// Exchanges the top `top` bytes of the operand stack with the `bottom`
    /// bytes under them.
    pub fn swap_bytes(&mut self, top: u32, bottom: u32) -> (r: Result<(), IError>)
        requires
            old(self).wf(),
        ensures
            final(self).wf(),
            final(self)@ == old(self)@.swap(top as int, bottom as int).0,
            agrees(r, old(self)@.swap(top as int, bottom as int).1),
    {
        let temp: usize = self.temp_len();
        if top as u64 + bottom as u64 > temp as u64 {
            return Err(IError::of_kind(ErrorKind::StackUnderflow));
        }
        let len: usize = self.stack.data.len();
        let upper: Vec<u8> = self.stack.read(len - top as usize, top as usize);
        let lower: Vec<u8> = self.stack.read(
            len - top as usize - bottom as usize,
            bottom as usize,
        );
        self.stack.data.truncate(len - top as usize - bottom as usize);
        let first = self.push_bytes(&upper);
        assert(first is Ok);
        let second = self.push_bytes(&lower);
        assert(second is Ok);
        assert(lower@ =~= old(self)@.popped(top as int).top(bottom as int));
        Ok(())
    }

    /// Adds a stack variable of `len` zero bytes above all that the stack
    /// pool holds, and returns a pointer to it.
    pub fn add_stack_var(&mut self, len: u32, meta: u32) -> (r: Result<VarPointer, IError>)
        requires
            old(self).wf(),
        ensures
            final(self).wf(),
            final(self)@ == old(self)@.add_stack_var(len, meta).0,
            agrees(r, old(self)@.add_stack_var(len, meta).1),
    {
        if self.stack.vars.len() >= STACK_VAR_LIMIT {
            return Err(IError::of_kind(ErrorKind::StackOverflow));
        }
        match self.stack.add_var(len, meta) {
            Some(id) => Ok(VarPointer::new_stack(id as u16, 0)),
            None => Err(IError::of_kind(ErrorKind::StackOverflow)),
        }
    }

    /// Adds a heap variable of `len` zero bytes and returns a pointer to
    /// it.
    pub fn add_heap_var(&mut self, len: u32) -> (r: Result<VarPointer, IError>)
        requires
            old(self).wf(),
        ensures
            final(self).wf(),
            final(self)@ == old(self)@.add_heap_var(len).0,
            agrees(r, old(self)@.add_heap_var(len).1),
    {
        match self.heap.add_var(len, META_NO_SYMBOL) {
            Some(id) => Ok(VarPointer::new_heap(id, 0)),
            None => Err(IError::of_kind(ErrorKind::OutOfMemory)),
        }
    }

    /// Drops the last stack variable of the current frame, with all that
    /// lies above its start.
    pub fn pop_stack_var(&mut self) -> (r: Result<Var, IError>)
        requires
            old(self).wf(),
        ensures
            final(self).wf(),
            final(self)@ == old(self)@.pop_stack_var().0,
            agrees(r, old(self)@.pop_stack_var().1),
    {
        let count: usize = self.stack.vars.len();
        if count < self.fp as usize {
            return Err(IError::of_kind(ErrorKind::StackUnderflow));
        }
        let var: Var = self.stack.vars[count - 1];
        self.stack.vars.truncate(count - 1);
        self.stack.data.truncate(var.idx);
        assert(self.stack.vars@ =~= old(self).stack.vars@.drop_last());
        Ok(var)
    }

    /// Turns the last stack variable of the current frame into operand
    /// bytes.
    pub fn pop_stack_var_onto_stack(&mut self) -> (r: Result<(), IError>)
        requires
            old(self).wf(),
        ensures
            final(self).wf(),
            final(self)@ == old(self)@.pop_stack_var_onto_stack().0,
            agrees(r, old(self)@.pop_stack_var_onto_stack().1),
    {
        let count: usize = self.stack.vars.len();
        if count < self.fp as usize {
            return Err(IError::of_kind(ErrorKind::StackUnderflow));
        }
        let var: Var = self.stack.vars[count - 1];
        self.stack.vars.truncate(count - 1);
        self.stack.data.truncate(var.idx + var.len as usize);
        assert(self.stack.vars@ =~= old(self).stack.vars@.drop_last());
        Ok(())
    }

    /// Checks an access to `len` bytes through `ptr` and returns the pool
    /// index where the bytes begin.
    pub fn check(&self, ptr: VarPointer, len: u32) -> (r: Result<usize, ErrorKind>)
        requires
            self.wf(),
        ensures
            match r {
                Ok(start) => self@.check(ptr, len as int) == Ok::<int, ErrorKind>(start as int)
                    && start + len <= self@.segment(ptr.tag()).data.len(),
                Err(kind) => self@.check(ptr, len as int) == Err::<int, ErrorKind>(kind),
            },
    {
        proof {
            ptr.lemma_made_of_parts();
        }
        if ptr.is_stack() {
            self.stack.check(ptr.var_idx(), ptr.offset(), len)
        } else if ptr.is_heap() {
            self.heap.check(ptr.var_idx(), ptr.offset(), len)
        } else if ptr.is_binary() {
            self.binary.check(ptr.var_idx(), ptr.offset(), len)
        } else {
            Err(ErrorKind::InvalidPointer)
        }
    }

    /// Reads `len` bytes through `ptr`.
    pub fn read_bytes(&self, ptr: VarPointer, len: u32) -> (r: Result<Vec<u8>, IError>)
        requires
            self.wf(),
        ensures
            match self@.read(ptr, len as int) {
                Ok(bytes) => r is Ok && r->Ok_0@ == bytes && bytes.len() == len,
                Err(kind) => r is Err && r->Err_0.is_kind(kind),
            },
    {
        proof {
            ptr.lemma_made_of_parts();
        }
        match self.check(ptr, len) {
            Ok(start) => {
                if ptr.is_stack() {
                    Ok(self.stack.read(start, len as usize))
                } else if ptr.is_heap() {
                    Ok(self.heap.read(start, len as usize))
                } else {
                    Ok(self.binary.read(start, len as usize))
                }
            },
            Err(kind) => Err(IError::of_kind(kind)),
        }
    }

    /// Writes `bytes` through `ptr`.
    pub fn write_bytes(&mut self, ptr: VarPointer, bytes: &Vec<u8>) -> (r: Result<(), IError>)
        requires
            old(self).wf(),
            bytes.len() <= u32::MAX,
        ensures
            final(self).wf(),
            final(self)@ == old(self)@.write(ptr, bytes@).0,
            agrees(r, old(self)@.write(ptr, bytes@).1),
    {
        proof {
            ptr.lemma_made_of_parts();
        }
        match self.check(ptr, bytes.len() as u32) {
            Ok(start) => {
                if ptr.is_stack() {
                    self.stack.write(start, bytes);
                } else if ptr.is_heap() {
                    self.heap.write(start, bytes);
                } else {
                    self.binary.write(start, bytes);
                }
                Ok(())
            },
            Err(kind) => Err(IError::of_kind(kind)),
        }
    }

    /// Reads the byte that `ptr` points to.
    pub fn get_u8(&self, ptr: VarPointer) -> (r: Result<u8, IError>)
        requires
            self.wf(),
        ensures
            agrees(r, self@.read_u8(ptr)),
    {
        match self.read_bytes(ptr, 1) {
            Ok(bytes) => Ok(bytes[0]),
            Err(e) => Err(e),
        }
    }

    /// Reads the big-endian word that `ptr` points to.
    pub fn get_u32(&self, ptr: VarPointer) -> (r: Result<u32, IError>)
        requires
            self.wf(),
        ensures
            agrees(r, self@.read_u32(ptr)),
    {
        match self.read_bytes(ptr, 4) {
            Ok(bytes) => {
                assert(bytes@.subrange(0, 4) =~= bytes@);
                Ok(read_u32_be(&bytes, 0))
            },
            Err(e) => Err(e),
        }
    }

    /// Reads the big-endian doubleword that `ptr` points to.
    pub fn get_u64(&self, ptr: VarPointer) -> (r: Result<u64, IError>)
        requires
            self.wf(),
        ensures
            agrees(r, self@.read_u64(ptr)),
    {
        match self.read_bytes(ptr, 8) {
            Ok(bytes) => {
                assert(bytes@.subrange(0, 8) =~= bytes@);
                Ok(read_u64_be(&bytes, 0))
            },
            Err(e) => Err(e),
        }
    }

    /// Writes a word to where `ptr` points, most significant byte first.
    pub fn set_u32(&mut self, ptr: VarPointer, value: u32) -> (r: Result<(), IError>)
        requires
            old(self).wf(),
        ensures
            final(self).wf(),
            final(self)@ == old(self)@.write(ptr, u32_be(value)).0,
            agrees(r, old(self)@.write(ptr, u32_be(value)).1),
    {
        let mut bytes: Vec<u8> = Vec::new();
        push_u32_be(&mut bytes, value);
        assert(bytes@ =~= u32_be(value));
        self.write_bytes(ptr, &bytes)
    }

    /// Writes a doubleword to where `ptr` points, most significant byte
    /// first.
    pub fn set_u64(&mut self, ptr: VarPointer, value: u64) -> (r: Result<(), IError>)
        requires
            old(self).wf(),
        ensures
            final(self).wf(),
            final(self)@ == old(self)@.write(ptr, u64_be(value)).0,
            agrees(r, old(self)@.write(ptr, u64_be(value)).1),
    {
        let mut bytes: Vec<u8> = Vec::new();
        push_u64_be(&mut bytes, value);
        assert(bytes@ =~= u64_be(value));
        self.write_bytes(ptr, &bytes)
    }

    /// Reads the bytes from where `ptr` points to the end of its variable.
    pub fn get_var_slice(&self, ptr: VarPointer) -> (r: Result<Vec<u8>, IError>)
        requires
            self.wf(),
        ensures
            match self@.var_tail(ptr) {
                Ok(bytes) => r is Ok && r->Ok_0@ == bytes,
                Err(kind) => r is Err && r->Err_0.is_kind(kind),
            },
    {
        proof {
            ptr.lemma_made_of_parts();
        }
        match self.check(ptr, 0) {
            Ok(start) => {
                let id: usize = ptr.var_idx() as usize;
                if ptr.is_stack() {
                    let len: u32 = self.stack.vars[id - 1].len - ptr.offset();
                    Ok(self.stack.read(start, len as usize))
                } else if ptr.is_heap() {
                    let len: u32 = self.heap.vars[id - 1].len - ptr.offset();
                    Ok(self.heap.read(start, len as usize))
                } else {
                    let len: u32 = self.binary.vars[id - 1].len - ptr.offset();
                    Ok(self.binary.read(start, len as usize))
                }
            },
            Err(kind) => Err(IError::of_kind(kind)),
        }
    }

    /// Copies `len` bytes from where `ptr` points onto the operand stack.
    pub fn push_stack_bytes_from(&mut self, ptr: VarPointer, len: u32) -> (r: Result<(), IError>)
        requires
            old(self).wf(),
        ensures
            final(self).wf(),
            final(self)@ == old(self)@.push_stack_bytes_from(ptr, len as int).0,
            agrees(r, old(self)@.push_stack_bytes_from(ptr, len as int).1),
    {
        match self.read_bytes(ptr, len) {
            Ok(bytes) => self.push_bytes(&bytes),
            Err(e) => Err(e),
        }
    }

    /// Moves the top `len` bytes of the operand stack to where `ptr`
    /// points.
    pub fn pop_stack_bytes_into(&mut self, ptr: VarPointer, len: u32) -> (r: Result<(), IError>)
        requires
            old(self).wf(),
        ensures
            final(self).wf(),
            final(self)@ == old(self)@.pop_stack_bytes_into(ptr, len as int).0,
            agrees(r, old(self)@.pop_stack_bytes_into(ptr, len as int).1),
    {
        proof {
            ptr.lemma_made_of_parts();
        }
        if len as usize > self.temp_len() {
            return Err(IError::of_kind(ErrorKind::StackUnderflow));
        }
        match self.check(ptr, len) {
            Ok(start) => {
                let size: usize = self.stack.data.len();
                let bytes: Vec<u8> = self.stack.read(size - len as usize, len as usize);
                self.stack.data.truncate(size - len as usize);
                if ptr.is_stack() {
                    self.stack.write(start, &bytes);
                } else if ptr.is_heap() {
                    self.heap.write(start, &bytes);
                } else {
                    self.binary.write(start, &bytes);
                }
                Ok(())
            },
            Err(kind) => Err(IError::of_kind(kind)),
        }
    }

    /// Sets the program counter to `target`.
    pub fn jump(&mut self, target: u32)
        ensures
            final(self)@ == old(self)@.jump(target),
    {
        self.pc = target;
    }

    /// Moves the program counter to the next opcode.
    pub fn increment_pc(&mut self)
        requires
            old(self).pc < u32::MAX,
        ensures
            final(self)@ == old(self)@.jump((old(self).pc + 1) as u32),
    {
        self.pc = self.pc + 1;
    }

    /// Enters the function `name` at `new_pc`, called from `loc`.
    pub fn call(&mut self, new_pc: u32, name: u32, loc: CodeLoc) -> (r: Result<(), IError>)
        requires
            old(self).wf(),
            old(self).pc < u32::MAX,
        ensures
            final(self).wf(),
            final(self)@ == old(self)@.call(new_pc, name, loc).0,
            agrees(r, old(self)@.call(new_pc, name, loc).1),
    {
        if self.stack.vars.len() >= STACK_VAR_LIMIT || self.callstack.len() >= CALL_DEPTH_LIMIT {
            return Err(IError::of_kind(ErrorKind::StackOverflow));
        }
        self.callstack.push(CallFrame { name, loc, fp: self.fp, pc: self.pc + 1 });
        self.fp = (self.stack.vars.len() + 1) as u16;
        self.pc = new_pc;
        Ok(())
    }

    /// Leaves the current function.
    pub fn ret(&mut self) -> (r: Result<(), IError>)
        requires
            old(self).wf(),
        ensures
            final(self).wf(),
            final(self)@ == old(self)@.ret().0,
            agrees(r, old(self)@.ret().1),
    {
        let depth: usize = self.callstack.len();
        if depth == 0 {
            return Err(IError::of_kind(ErrorKind::StackUnderflow));
        }
        let frame: CallFrame = self.callstack[depth - 1];
        self.callstack.truncate(depth - 1);
        let base: usize = self.fp as usize - 1;
        if self.stack.vars.len() > base {
            let first: Var = self.stack.vars[base];
            self.stack.vars.truncate(base);
            self.stack.data.truncate(first.idx);
        }
        self.fp = frame.fp;
        self.pc = frame.pc;
        assert(self.callstack@ =~= old(self).callstack@.drop_last());
        Ok(())
    }

    /// Records the current position on the call stack under `loc`.
    pub fn push_callstack(&mut self, loc: CodeLoc)
        requires
            old(self).wf(),
        ensures
            final(self).wf(),
            final(self)@ == old(self)@.push_callstack(loc),
    {
        if self.callstack.len() < CALL_DEPTH_LIMIT {
            self.callstack.push(CallFrame { name: META_NO_SYMBOL, loc, fp: self.fp, pc: self.pc });
        }
    }

    /// Appends `bytes` to the output that the host has not yet taken.
    pub fn write_stdout(&mut self, bytes: &Vec<u8>)
        ensures
            final(self)@ == (MemoryView { output: old(self)@.output + bytes@, ..old(self)@ }),
    {
        let mut i: usize = 0;
        while i < bytes.len()
            invariant
                i <= bytes.len(),
                self@ == (MemoryView {
                    output: old(self)@.output + bytes@.subrange(0, i as int),
                    ..old(self)@
                }),
            decreases bytes.len() - i,
        {
            self.output.push(bytes[i]);
            i = i + 1;
            assert(self.output@ =~= old(self)@.output + bytes@.subrange(0, i as int));
        }
        assert(bytes@.subrange(0, bytes.len() as int) =~= bytes@);
    }

    /// Takes the output that the guest has written since the last call.
    pub fn events(&mut self) -> (bytes: Vec<u8>)
        ensures
            bytes@ == old(self)@.output,
            final(self)@ == (MemoryView { output: Seq::empty(), ..old(self)@ }),
    {
        let mut bytes: Vec<u8> = Vec::new();
        bytes.append(&mut self.output);
        assert(bytes@ =~= old(self)@.output);
        bytes
    }
}

/// A call that is followed at once by the matching return restores the
/// frame pointer, leaves the call stack, the stack and its variables as they
/// were, and goes on at the opcode after the call.
pub proof fn lemma_call_then_ret(m: MemoryView, new_pc: u32, name: u32, loc: CodeLoc)
    requires
        m.wf(),
        m.pc < u32::MAX,
        m.call(new_pc, name, loc).1 is Ok,
    ensures
        m.call(new_pc, name, loc).0.ret().1 is Ok,
        m.call(new_pc, name, loc).0.ret().0 == m.jump((m.pc + 1) as u32),
        m.call(new_pc, name, loc).0.ret().0.fp == m.fp,
        m.call(new_pc, name, loc).0.ret().0.stack.vars.len() == m.stack.vars.len(),
{
    let called = m.call(new_pc, name, loc).0;
    assert(!called.frame_has_var());
    assert(called.callstack.drop_last() =~= m.callstack);
}

/// Within one frame, allocating a stack variable and freeing it again
/// leaves the stack and the number of its variables as they were.
pub proof fn lemma_alloc_then_dealloc(m: MemoryView, len: u32, meta: u32)
    requires
        m.wf(),
        m.fp <= m.stack.vars.len() + 1,
        m.add_stack_var(len, meta).1 is Ok,
    ensures
        m.add_stack_var(len, meta).0.pop_stack_var().1 is Ok,
        m.add_stack_var(len, meta).0.pop_stack_var().0 == m,
        m.add_stack_var(len, meta).0.stack.vars.len() == m.stack.vars.len() + 1,
{
    let grown = m.add_stack_var(len, meta).0;
    let back = grown.pop_stack_var().0;
    assert(back.stack.vars =~= m.stack.vars);
    assert(back.stack.data =~= m.stack.data);
}

/// Bytes that are pushed come back when they are popped, and the memory
/// is as it was before the push.
pub proof fn lemma_push_then_pop(m: MemoryView, bytes: Seq<u8>)
    requires
        m.wf(),
        m.push(bytes).1 is Ok,
    ensures
        m.push(bytes).0.pop(bytes.len() as int) == (m, Ok::<Seq<u8>, ErrorKind>(bytes)),
        m.push(bytes).0.temp_len() == m.temp_len() + bytes.len(),
{
    let pushed = m.push(bytes).0;
    assert(pushed.top(bytes.len() as int) =~= bytes);
    assert(pushed.popped(bytes.len() as int).stack.data =~= m.stack.data);
    if m.stack.vars.len() > 0 {
        assert(m.stack.vars.last() == m.stack.vars[m.stack.vars.len() - 1]);
    }
}

} // verus!
