//! The formatter behind the guest's `printf`.
//!
//! A conversion has the form `%[flags][width][.precision][length]conv`.
//! Flags, width and precision are read and have no effect on the output; a
//! width or precision of `*` takes one argument.

use vstd::prelude::*;
use crate::encoding::{bits_i32, bits_i64, i32_from_bits, i64_from_bits, u32_be};
use crate::library::{arg_pointer, arg_ptr};
use crate::interpreter::Runtime;
use crate::lossy::{
    fitting, lemma_ascii_is_well_formed, lemma_join_well_formed, lemma_lossy_is_well_formed, lossy,
    valid_end, well_formed, write_utf8_lossy,
};
use crate::runtime::{agrees, ErrorKind, IError, Memory, MemoryView, VarPointer, TAG_STACK};
use crate::util::StringWriter;

verus! {

/// The byte `%`.
pub const PERCENT: u8 = 0x25;

/// The decimal digits of `n`, as ASCII bytes.
pub open spec fn decimal(n: nat) -> Seq<u8>
    decreases n,
{
    if n < 10 {
        seq![(0x30 + n) as u8]
    } else {
        decimal(n / 10).push((0x30 + n % 10) as u8)
    }
}

/// The decimal form of `v`, with a minus sign where `v` is negative.
pub open spec fn signed_decimal(v: int) -> Seq<u8> {
    if v < 0 {
        seq![0x2Du8] + decimal((-v) as nat)
    } else {
        decimal(v as nat)
    }
}

/// The UTF-8 bytes of the character whose code is `b`.
pub open spec fn char_bytes(b: u8) -> Seq<u8> {
    if b < 0x80 {
        seq![b]
    } else {
        seq![(0xC0 + b / 0x40) as u8, (0x80 + b % 0x40) as u8]
    }
}

/// The index of the first zero byte of `s` at or after `i`, or the length
/// of `s` where there is none.
pub open spec fn zero_at(s: Seq<u8>, i: int) -> int
    decreases s.len() - i,
{
    if i < 0 || i >= s.len() {
        s.len() as int
    } else if s[i] == 0 {
        i
    } else {
        zero_at(s, i + 1)
    }
}

/// The string that begins where `ptr` points: the bytes up to the first
/// zero byte of the variable. A variable without a zero byte from there on
/// holds no string.
pub open spec fn c_string_at(m: MemoryView, ptr: VarPointer) -> Result<Seq<u8>, ErrorKind> {
    match m.var_tail(ptr) {
        Err(kind) => Err(kind),
        Ok(tail) => if zero_at(tail, 0) >= tail.len() {
            Err(ErrorKind::MissingNullTerminator)
        } else {
            Ok(tail.subrange(0, zero_at(tail, 0)))
        },
    }
}

/// Whether `b` is one of the flags `0`, `-`, `+`, space and `#`.
pub open spec fn is_flag(b: u8) -> bool {
    b == 0x30 || b == 0x2D || b == 0x2B || b == 0x20 || b == 0x23
}

/// Whether `b` is a decimal digit.
pub open spec fn is_digit(b: u8) -> bool {
    0x30 <= b <= 0x39
}

/// The index of the first byte at or after `i` that is no flag.
pub open spec fn skip_flags(f: Seq<u8>, i: int) -> int
    decreases f.len() - i,
{
    if 0 <= i < f.len() && is_flag(f[i]) {
        skip_flags(f, i + 1)
    } else {
        i
    }
}

/// The index of the first byte at or after `i` that is no digit.
pub open spec fn skip_digits(f: Seq<u8>, i: int) -> int
    decreases f.len() - i,
{
    if 0 <= i < f.len() && is_digit(f[i]) {
        skip_digits(f, i + 1)
    } else {
        i
    }
}

/// The index of the first `%` at or after `i`, or the length of `f` where
/// there is none.
pub open spec fn text_end(f: Seq<u8>, i: int) -> int
    decreases f.len() - i,
{
    if i < 0 || i >= f.len() {
        f.len() as int
    } else if f[i] == PERCENT {
        i
    } else {
        text_end(f, i + 1)
    }
}

/// The pointer to the stack variable that holds the argument with id `id`.
pub open spec fn arg_at(id: u16) -> VarPointer {
    VarPointer::make(TAG_STACK as int, id as int, 0)
}

/// The id of the argument after the one with id `id`.
pub open spec fn next_arg(id: u16) -> u16 {
    if id == 0xFFFF {
        0
    } else {
        (id + 1) as u16
    }
}

/// Reading a width or a precision at `i`: digits are passed over, `*`
/// takes one 32-bit argument, and anything else is no width. The result is
/// the index and the argument id to go on with.
pub open spec fn number_field(m: MemoryView, f: Seq<u8>, i: int, arg: u16) -> Result<
    (int, u16),
    ErrorKind,
> {
    if 0 <= i < f.len() && is_digit(f[i]) {
        Ok((skip_digits(f, i), arg))
    } else if 0 <= i < f.len() && f[i] == 0x2A {
        match m.read_u32(arg_at(arg)) {
            Ok(_) => Ok((i + 1, next_arg(arg))),
            Err(kind) => Err(kind),
        }
    } else {
        Ok((i, arg))
    }
}

/// Reading a precision at `i`: a `.` and what follows it as a number.
pub open spec fn precision_field(m: MemoryView, f: Seq<u8>, i: int, arg: u16) -> Result<
    (int, u16),
    ErrorKind,
> {
    if 0 <= i < f.len() && f[i] == 0x2E {
        number_field(m, f, i + 1, arg)
    } else {
        Ok((i, arg))
    }
}

/// Reading a length at `i`: `l` or `ll`, both of which ask for 64-bit
/// arguments. The result is the index to go on with and whether a length
/// was there.
pub open spec fn length_field(f: Seq<u8>, i: int) -> (int, bool) {
    if 0 <= i < f.len() && f[i] == 0x6C {
        if i + 1 < f.len() && f[i + 1] == 0x6C {
            (i + 2, true)
        } else {
            (i + 1, true)
        }
    } else {
        (i, false)
    }
}

/// What one conversion gives: the bytes that it prints, and the index and
/// the argument id to go on with.
pub struct Directive {
    pub bytes: Seq<u8>,
    pub next: int,
    pub arg: u16,
}

/// The conversion character at `i`, applied to the argument with id `arg`:
/// `u` prints unsigned decimal, `i` and `d` signed decimal, `c` one
/// character, `s` a string with ill-formed UTF-8 replaced, and `%` a `%`.
/// Anything else, and the end of the format, is an invalid format string.
pub open spec fn conversion(m: MemoryView, f: Seq<u8>, i: int, arg: u16, long: bool) -> Result<
    Directive,
    ErrorKind,
> {
    if i < 0 || i >= f.len() {
        Err(ErrorKind::CutOffConversion)
    } else if f[i] == 0x75 {
        if long {
            match m.read_u64(arg_at(arg)) {
                Ok(v) => Ok(Directive { bytes: decimal(v as nat), next: i + 1, arg: next_arg(arg) }),
                Err(kind) => Err(kind),
            }
        } else {
            match m.read_u32(arg_at(arg)) {
                Ok(v) => Ok(Directive { bytes: decimal(v as nat), next: i + 1, arg: next_arg(arg) }),
                Err(kind) => Err(kind),
            }
        }
    } else if f[i] == 0x69 || f[i] == 0x64 {
        if long {
            match m.read_u64(arg_at(arg)) {
                Ok(v) => Ok(
                    Directive {
                        bytes: signed_decimal(bits_i64(v) as int),
                        next: i + 1,
                        arg: next_arg(arg),
                    },
                ),
                Err(kind) => Err(kind),
            }
        } else {
            match m.read_u32(arg_at(arg)) {
                Ok(v) => Ok(
                    Directive {
                        bytes: signed_decimal(bits_i32(v) as int),
                        next: i + 1,
                        arg: next_arg(arg),
                    },
                ),
                Err(kind) => Err(kind),
            }
        }
    } else if f[i] == 0x63 {
        match m.read_u8(arg_at(arg)) {
            Ok(v) => Ok(Directive { bytes: char_bytes(v), next: i + 1, arg: next_arg(arg) }),
            Err(kind) => Err(kind),
        }
    } else if f[i] == PERCENT {
        Ok(Directive { bytes: seq![PERCENT], next: i + 1, arg })
    } else if f[i] == 0x73 {
        match m.read_u64(arg_at(arg)) {
            Ok(v) => match c_string_at(m, VarPointer { value: v }) {
                Ok(string) => Ok(
                    Directive { bytes: lossy(string), next: i + 1, arg: next_arg(arg) },
                ),
                Err(kind) => Err(kind),
            },
            Err(kind) => Err(kind),
        }
    } else {
        Err(ErrorKind::InvalidFormatString(f[i]))
    }
}

/// The conversion whose first byte after the `%` is at `start`: flags, a
/// width, a precision, a length and the conversion character. A format
/// that ends with the `%` holds none.
#[verifier::opaque]
pub open spec fn directive(m: MemoryView, f: Seq<u8>, start: int, arg: u16) -> Result<
    Directive,
    ErrorKind,
> {
    if start >= f.len() {
        Err(ErrorKind::LonePercent)
    } else {
        match number_field(m, f, skip_flags(f, start), arg) {
            Err(kind) => Err(kind),
            Ok((i2, a2)) => match precision_field(m, f, i2, a2) {
                Err(kind) => Err(kind),
                Ok((i3, a3)) => conversion(m, f, length_field(f, i3).0, a3, length_field(f, i3).1),
            },
        }
    }
}

/// The scans go forward.
pub proof fn lemma_scans_forward(f: Seq<u8>, i: int)
    requires
        0 <= i <= f.len(),
    ensures
        i <= skip_flags(f, i) <= f.len(),
        i <= skip_digits(f, i) <= f.len(),
        i <= text_end(f, i) <= f.len(),
        text_end(f, i) < f.len() ==> f[text_end(f, i)] == PERCENT,
    decreases f.len() - i,
{
    if i < f.len() {
        lemma_scans_forward(f, i + 1);
    }
}

/// A conversion ends after the byte at which it begins.
pub proof fn lemma_directive_forward(m: MemoryView, f: Seq<u8>, start: int, arg: u16)
    requires
        0 <= start <= f.len(),
    ensures
        directive(m, f, start, arg) matches Ok(d) ==> start < d.next <= f.len(),
{
    reveal(directive);
    lemma_scans_forward(f, start);
    let i1 = skip_flags(f, start);
    if i1 < f.len() {
        lemma_scans_forward(f, i1);
    }
    match number_field(m, f, i1, arg) {
        Err(_) => {},
        Ok((i2, a2)) => {
            if i2 < f.len() {
                lemma_scans_forward(f, i2 + 1);
            }
        },
    }
}

/// What the format `f` prints from index `i` on, with the arguments from
/// the one with id `arg` on: the bytes, and the fault that ended the
/// printing early, if any. Text between conversions is printed with
/// ill-formed UTF-8 replaced.
pub open spec fn format(m: MemoryView, f: Seq<u8>, i: int, arg: u16) -> (
    Seq<u8>,
    Result<(), ErrorKind>,
)
    decreases f.len() - i,
    via format_decreases
{
    if i < 0 || i >= f.len() {
        (Seq::empty(), Ok(()))
    } else if text_end(f, i) >= f.len() {
        (lossy(f.subrange(i, f.len() as int)), Ok(()))
    } else {
        match directive(m, f, text_end(f, i) + 1, arg) {
            Err(kind) => (lossy(f.subrange(i, text_end(f, i))), Err(kind)),
            Ok(d) => (
                lossy(f.subrange(i, text_end(f, i))) + d.bytes + format(m, f, d.next, d.arg).0,
                format(m, f, d.next, d.arg).1,
            ),
        }
    }
}

#[via_fn]
proof fn format_decreases(m: MemoryView, f: Seq<u8>, i: int, arg: u16) {
    if 0 <= i < f.len() {
        lemma_scans_forward(f, i);
        if text_end(f, i) < f.len() {
            lemma_directive_forward(m, f, text_end(f, i) + 1, arg);
        }
    }
}

/// What formatting prints where the format string is found through the
/// pointer that the stack variable at `format_ptr` holds.
pub open spec fn printf_output(m: MemoryView, format_ptr: VarPointer, arg: u16) -> (
    Seq<u8>,
    Result<(), ErrorKind>,
) {
    match m.read_u64(format_ptr) {
        Err(kind) => (Seq::empty(), Err(kind)),
        Ok(v) => match c_string_at(m, VarPointer { value: v }) {
            Err(kind) => (Seq::empty(), Err(kind)),
            Ok(f) => format(m, f, 0, arg),
        },
    }
}

/// Writes the decimal digits of `v`.
pub fn write_decimal(out: &mut StringWriter, v: u64)
    ensures
        final(out)@ == old(out)@ + decimal(v as nat),
    decreases v,
{
    if v >= 10 {
        write_decimal(out, v / 10);
    }
    out.append_byte(0x30 + (v % 10) as u8);
    assert(out@ =~= old(out)@ + decimal(v as nat));
}

/// Writes the decimal form of `v`.
pub fn write_signed_decimal(out: &mut StringWriter, v: i64)
    ensures
        final(out)@ == old(out)@ + signed_decimal(v as int),
{
    if v < 0 {
        out.append_byte(0x2D);
        let magnitude: u64 = if v == i64::MIN {
            0x8000_0000_0000_0000
        } else {
            (-v) as u64
        };
        write_decimal(out, magnitude);
        assert(out@ =~= old(out)@ + signed_decimal(v as int));
    } else {
        write_decimal(out, v as u64);
    }
}

/// Writes the character whose code is `b`.
pub fn write_char(out: &mut StringWriter, b: u8)
    ensures
        final(out)@ == old(out)@ + char_bytes(b),
{
    if b < 0x80 {
        out.append_byte(b);
    } else {
        out.append_byte(0xC0 + b / 0x40);
        out.append_byte(0x80 + b % 0x40);
    }
    assert(out@ =~= old(out)@ + char_bytes(b));
}

impl Runtime {
    /// The string that begins where `ptr` points, without its terminator.
    pub fn cstring_bytes(&self, ptr: VarPointer) -> (r: Result<Vec<u8>, IError>)
        requires
            self.memory.wf(),
        ensures
            match c_string_at(self.memory@, ptr) {
                Ok(bytes) => r is Ok && r->Ok_0@ == bytes,
                Err(kind) => r is Err && r->Err_0.is_kind(kind),
            },
    {
        let mut str_bytes: Vec<u8> = match self.memory.get_var_slice(ptr) {
            Ok(bytes) => bytes,
            Err(e) => {
                return Err(e);
            },
        };
        let ghost tail = str_bytes@;
        let mut idx: usize = 0;
        while idx < str_bytes.len()
            invariant
                idx <= str_bytes.len(),
                str_bytes@ == tail,
                self.memory@.var_tail(ptr) == Ok::<Seq<u8>, ErrorKind>(tail),
                zero_at(tail, 0) == zero_at(tail, idx as int),
            decreases str_bytes.len() - idx,
        {
            if str_bytes[idx] == 0 {
                str_bytes.truncate(idx);
                return Ok(str_bytes);
            }
            idx = idx + 1;
        }
        Err(IError::of_kind(ErrorKind::MissingNullTerminator))
    }
}

/// The index of the first `%` at or after `i`.
fn scan_text(f: &Vec<u8>, i: usize) -> (j: usize)
    requires
        i <= f@.len(),
    ensures
        j == text_end(f@, i as int),
        i <= j <= f@.len(),
{
    let mut j: usize = i;
    while j < f.len() && f[j] != PERCENT
        invariant
            i <= j <= f@.len(),
            text_end(f@, i as int) == text_end(f@, j as int),
        decreases f@.len() - j,
    {
        j = j + 1;
    }
    j
}

/// The index of the first byte at or after `i` that is no flag.
fn scan_flags(f: &Vec<u8>, i: usize) -> (j: usize)
    requires
        i <= f@.len(),
    ensures
        j == skip_flags(f@, i as int),
        i <= j <= f@.len(),
{
    let mut j: usize = i;
    while j < f.len() && (f[j] == 0x30 || f[j] == 0x2D || f[j] == 0x2B || f[j] == 0x20 || f[j]
        == 0x23)
        invariant
            i <= j <= f@.len(),
            skip_flags(f@, i as int) == skip_flags(f@, j as int),
        decreases f@.len() - j,
    {
        j = j + 1;
    }
    j
}

/// The index of the first byte at or after `i` that is no digit.
fn scan_digits(f: &Vec<u8>, i: usize) -> (j: usize)
    requires
        i <= f@.len(),
    ensures
        j == skip_digits(f@, i as int),
        i <= j <= f@.len(),
{
    let mut j: usize = i;
    while j < f.len() && 0x30 <= f[j] && f[j] <= 0x39
        invariant
            i <= j <= f@.len(),
            skip_digits(f@, i as int) == skip_digits(f@, j as int),
        decreases f@.len() - j,
    {
        j = j + 1;
    }
    j
}

/// The id of the argument after the one with id `id`.
fn following_arg(id: u16) -> (next: u16)
    ensures
        next == next_arg(id),
{
    if id == 0xFFFF {
        0
    } else {
        id + 1
    }
}

/// Reads a width or a precision at `i`.
fn read_number_field(memory: &Memory, f: &Vec<u8>, i: usize, arg: u16) -> (r: Result<
    (usize, u16),
    IError,
>)
    requires
        memory.wf(),
        i <= f@.len(),
    ensures
        match number_field(memory@, f@, i as int, arg) {
            Ok((j, a)) => r is Ok && r->Ok_0.0 == j && r->Ok_0.1 == a && i <= j <= f@.len(),
            Err(kind) => r is Err && r->Err_0.is_kind(kind),
        },
{
    if i < f.len() && 0x30 <= f[i] && f[i] <= 0x39 {
        Ok((scan_digits(f, i), arg))
    } else if i < f.len() && f[i] == 0x2A {
        match memory.get_u32(VarPointer::new_stack(arg, 0)) {
            Ok(_) => Ok((i + 1, following_arg(arg))),
            Err(e) => Err(e),
        }
    } else {
        Ok((i, arg))
    }
}

/// Reads a precision at `i`.
fn read_precision_field(memory: &Memory, f: &Vec<u8>, i: usize, arg: u16) -> (r: Result<
    (usize, u16),
    IError,
>)
    requires
        memory.wf(),
        i <= f@.len(),
    ensures
        match precision_field(memory@, f@, i as int, arg) {
            Ok((j, a)) => r is Ok && r->Ok_0.0 == j && r->Ok_0.1 == a && i <= j <= f@.len(),
            Err(kind) => r is Err && r->Err_0.is_kind(kind),
        },
{
    if i < f.len() && f[i] == 0x2E {
        read_number_field(memory, f, i + 1, arg)
    } else {
        Ok((i, arg))
    }
}

/// Reads a length at `i`.
fn read_length_field(f: &Vec<u8>, i: usize) -> (r: (usize, bool))
    requires
        i <= f@.len(),
    ensures
        r.0 == length_field(f@, i as int).0,
        r.1 == length_field(f@, i as int).1,
        i <= r.0 <= f@.len(),
{
    if i < f.len() && f[i] == 0x6C {
        if i + 1 < f.len() && f[i + 1] == 0x6C {
            (i + 2, true)
        } else {
            (i + 1, true)
        }
    } else {
        (i, false)
    }
}

/// Prints the conversion whose conversion character is at `i`.
fn convert(sel: &Runtime, f: &Vec<u8>, i: usize, arg: u16, long: bool, out: &mut StringWriter) -> (r:
    Result<(usize, u16), IError>)
    requires
        sel.memory.wf(),
        i <= f@.len(),
    ensures
        match conversion(sel.memory@, f@, i as int, arg, long) {
            Ok(d) => r is Ok && r->Ok_0.0 == d.next && r->Ok_0.1 == d.arg && final(out)@ == old(
                out,
            )@ + d.bytes && i < d.next <= f@.len(),
            Err(kind) => r is Err && r->Err_0.is_kind(kind) && final(out)@ == old(out)@,
        },
{
    if i >= f.len() {
        return Err(IError::of_kind(ErrorKind::CutOffConversion));
    }
    let conv: u8 = f[i];
    let ptr = VarPointer::new_stack(arg, 0);
    if conv == 0x75 {
        let value: u64 = if long {
            match sel.memory.get_u64(ptr) {
                Ok(v) => v,
                Err(e) => {
                    return Err(e);
                },
            }
        } else {
            match sel.memory.get_u32(ptr) {
                Ok(v) => v as u64,
                Err(e) => {
                    return Err(e);
                },
            }
        };
        write_decimal(out, value);
        Ok((i + 1, following_arg(arg)))
    } else if conv == 0x69 || conv == 0x64 {
        let value: i64 = if long {
            match sel.memory.get_u64(ptr) {
                Ok(v) => i64_from_bits(v),
                Err(e) => {
                    return Err(e);
                },
            }
        } else {
            match sel.memory.get_u32(ptr) {
                Ok(v) => i32_from_bits(v) as i64,
                Err(e) => {
                    return Err(e);
                },
            }
        };
        write_signed_decimal(out, value);
        Ok((i + 1, following_arg(arg)))
    } else if conv == 0x63 {
        match sel.memory.get_u8(ptr) {
            Ok(v) => {
                write_char(out, v);
                Ok((i + 1, following_arg(arg)))
            },
            Err(e) => Err(e),
        }
    } else if conv == PERCENT {
        out.append_byte(PERCENT);
        assert(out@ =~= old(out)@ + seq![PERCENT]);
        Ok((i + 1, arg))
    } else if conv == 0x73 {
        let char_ptr = match sel.memory.get_u64(ptr) {
            Ok(value) => VarPointer { value },
            Err(e) => {
                return Err(e);
            },
        };
        match sel.cstring_bytes(char_ptr) {
            Ok(string) => {
                write_utf8_lossy(out, string.as_slice());
                Ok((i + 1, following_arg(arg)))
            },
            Err(e) => Err(e),
        }
    } else {
        Err(IError::of_kind(ErrorKind::InvalidFormatString(conv)))
    }
}

/// Prints the conversion whose first byte after the `%` is at `start`.
fn print_directive(sel: &Runtime, f: &Vec<u8>, start: usize, arg: u16, out: &mut StringWriter) -> (r:
    Result<(usize, u16), IError>)
    requires
        sel.memory.wf(),
        start <= f@.len(),
    ensures
        match directive(sel.memory@, f@, start as int, arg) {
            Ok(d) => r is Ok && r->Ok_0.0 == d.next && r->Ok_0.1 == d.arg && final(out)@ == old(
                out,
            )@ + d.bytes && start < d.next <= f@.len(),
            Err(kind) => r is Err && r->Err_0.is_kind(kind) && final(out)@ == old(out)@,
        },
{
    proof {
        reveal(directive);
    }
    if start >= f.len() {
        return Err(IError::of_kind(ErrorKind::LonePercent));
    }
    let after_flags: usize = scan_flags(f, start);
    let (after_width, arg) = match read_number_field(&sel.memory, f, after_flags, arg) {
        Ok(pair) => pair,
        Err(e) => {
            return Err(e);
        },
    };
    let (after_precision, arg) = match read_precision_field(&sel.memory, f, after_width, arg) {
        Ok(pair) => pair,
        Err(e) => {
            return Err(e);
        },
    };
    let (at, long) = read_length_field(f, after_precision);
    convert(sel, f, at, arg, long, out)
}

/// Prints the format `f` with the arguments from the one with id `first`
/// on.
fn print_format(sel: &Runtime, f: &Vec<u8>, first: u16, out: &mut StringWriter) -> (r: Result<
    (),
    IError,
>)
    requires
        sel.memory.wf(),
    ensures
        final(out)@ == old(out)@ + format(sel.memory@, f@, 0, first).0,
        agrees(r, format(sel.memory@, f@, 0, first).1),
{
    let ghost m = sel.memory@;
    let ghost whole = format(m, f@, 0, first);
    let mut idx: usize = 0;
    let mut arg: u16 = first;
    assert(out@ + whole.0 =~= old(out)@ + whole.0);
    while idx < f.len()
        invariant
            idx <= f@.len(),
            sel.memory.wf(),
            sel.memory@ == m,
            whole == format(m, f@, 0, first),
            old(out)@ + whole.0 == out@ + format(m, f@, idx as int, arg).0,
            whole.1 == format(m, f@, idx as int, arg).1,
        decreases f@.len() - idx,
    {
        let ghost before = out@;
        let stop: usize = scan_text(f, idx);
        write_utf8_lossy(out, vstd::slice::slice_subrange(f.as_slice(), idx, stop));
        if stop == f.len() {
            assert(format(m, f@, idx as int, arg).0 == lossy(
                f@.subrange(idx as int, f@.len() as int),
            ));
            assert(format(m, f@, idx as int, arg).1 is Ok);
            return Ok(());
        }
        match print_directive(sel, f, stop + 1, arg, out) {
            Ok((next, next_arg)) => {
                proof {
                    let d = directive(m, f@, stop + 1, arg)->Ok_0;
                    let rest = format(m, f@, d.next, d.arg).0;
                    assert(before + (lossy(f@.subrange(idx as int, stop as int)) + d.bytes + rest)
                        =~= out@ + rest);
                }
                idx = next;
                arg = next_arg;
            },
            Err(e) => {
                return Err(e);
            },
        }
    }
    assert(out@ + Seq::<u8>::empty() =~= out@);
    Ok(())
}

/// Formats the string that the stack variable at `format_ptr` points to,
/// with the arguments from the stack variable with id `current_offset` on,
/// and writes the result to `out`. What was printed before a fault stays
/// in `out`.
pub fn printf_internal(
    sel: &mut Runtime,
    format_ptr: VarPointer,
    current_offset: u16,
    out: &mut StringWriter,
) -> (r: Result<(), IError>)
    requires
        old(sel).memory.wf(),
    ensures
        *final(sel) == *old(sel),
        final(out)@ == old(out)@ + printf_output(old(sel).memory@, format_ptr, current_offset).0,
        agrees(r, printf_output(old(sel).memory@, format_ptr, current_offset).1),
{
    let format_str: Vec<u8> = match sel.memory.get_u64(format_ptr) {
        Ok(value) => match sel.cstring_bytes(VarPointer { value }) {
            Ok(bytes) => bytes,
            Err(e) => {
                assert(out@ =~= old(out)@ + Seq::<u8>::empty());
                return Err(e);
            },
        },
        Err(e) => {
            assert(out@ =~= old(out)@ + Seq::<u8>::empty());
            return Err(e);
        },
    };
    print_format(&*sel, &format_str, current_offset, out)
}

/// The argument id that `x` wraps to.
pub open spec fn wrap16(x: int) -> u16 {
    (x % 0x1_0000) as u16
}

/// The 32-bit pattern that a length wraps to.
pub open spec fn wrap32(x: int) -> u32 {
    (x % 0x1_0000_0000) as u32
}

/// What `printf` does. The last stack variable holds the number of
/// arguments, the format pointer lies that many variables below it, the
/// other arguments between the two, and the return slot below the format
/// pointer. The formatted text goes to the output, also where a fault ends
/// it early, and its length in bytes goes to the return slot.
pub open spec fn printf_step(m: MemoryView) -> (MemoryView, Result<Option<i32>, ErrorKind>) {
    match m.read_u32(arg_ptr(m, 0)) {
        Err(kind) => (m, Err(kind)),
        Ok(count) => printf_with(m, wrap16(m.stack.vars.len() - bits_i32(count))),
    }
}

/// What `printf` does once it knows the id `format_id` of the stack
/// variable that holds the format pointer.
#[verifier::opaque]
pub open spec fn printf_with(m: MemoryView, format_id: u16) -> (
    MemoryView,
    Result<Option<i32>, ErrorKind>,
) {
    let printed = printf_output(m, arg_at(format_id), wrap16(format_id + 1));
    let after = MemoryView { output: m.output + printed.0, ..m };
    match printed.1 {
        Err(kind) => (after, Err(kind)),
        Ok(_) => match after.write(
            arg_at(wrap16(format_id - 1)),
            u32_be(wrap32(printed.0.len() as int)),
        ).1 {
            Err(kind) => (after, Err(kind)),
            Ok(_) => (
                after.write(arg_at(wrap16(format_id - 1)), u32_be(wrap32(printed.0.len() as int))).0,
                Ok(None),
            ),
        },
    }
}

/// The id of the stack variable that lies `count` variables below the one
/// with id `top`.
fn format_slot(top: u16, count: i32) -> (id: u16)
    ensures
        id == wrap16(top - count),
{
    ((top as i64 - count as i64 + 0x1_0000_0000) as u64 % 0x1_0000) as u16
}

/// Prints for the guest, with the format pointer in the stack variable with
/// id `format_id`.
fn printf_at(sel: &mut Runtime, format_id: u16) -> (r: Result<Option<i32>, IError>)
    requires
        old(sel).wf(),
    ensures
        final(sel).wf(),
        final(sel).same_setup(old(sel)),
        final(sel).memory@.same_control(old(sel).memory@),
        final(sel).memory@ == printf_with(old(sel).memory@, format_id).0,
        agrees(r, printf_with(old(sel).memory@, format_id).1),
{
    proof {
        reveal(printf_with);
    }
    let return_offset: u16 = format_slot(format_id, 1);
    let first_arg: u16 = format_slot(format_id, -1);
    let format_ptr = VarPointer::new_stack(format_id, 0);
    let mut out = StringWriter::new();
    let result = printf_internal(sel, format_ptr, first_arg, &mut out);
    let len: u32 = (out.len() as u64 % 0x1_0000_0000) as u32;
    assert(out@ =~= printf_output(old(sel).memory@, format_ptr, first_arg).0);
    sel.memory.write_stdout(out.as_bytes());
    match result {
        Ok(_) => {},
        Err(e) => {
            return Err(e);
        },
    }
    let return_ptr = VarPointer::new_stack(return_offset, 0);
    match sel.memory.set_u32(return_ptr, len) {
        Ok(_) => Ok(None),
        Err(e) => Err(e),
    }
}

/// Prints formatted text for the guest.
pub fn printf(sel: &mut Runtime) -> (r: Result<Option<i32>, IError>)
    requires
        old(sel).wf(),
    ensures
        final(sel).wf(),
        final(sel).same_setup(old(sel)),
        final(sel).memory@.same_control(old(sel).memory@),
        final(sel).memory@ == printf_step(old(sel).memory@).0,
        agrees(r, printf_step(old(sel).memory@).1),
{
    let top_ptr_offset: u16 = sel.memory.stack_length();
    let top_ptr = arg_pointer(&sel.memory, 0);
    let param_len: i32 = match sel.memory.get_u32(top_ptr) {
        Ok(count) => i32_from_bits(count),
        Err(e) => {
            return Err(e);
        },
    };
    printf_at(sel, format_slot(top_ptr_offset, param_len))
}

/// Decimal digits are bytes below 128.
pub proof fn lemma_decimal_is_ascii(n: nat)
    ensures
        forall|k: int| 0 <= k < decimal(n).len() ==> #[trigger] decimal(n)[k] < 0x80,
    decreases n,
{
    if n >= 10 {
        lemma_decimal_is_ascii(n / 10);
        let front = decimal(n / 10);
        assert forall|k: int| 0 <= k < decimal(n).len() implies #[trigger] decimal(n)[k]
            < 0x80 by {
            if k < front.len() {
                assert(decimal(n)[k] == front[k]);
            }
        }
    }
}

/// What a conversion prints is well-formed UTF-8.
pub proof fn lemma_conversion_is_well_formed(
    m: MemoryView,
    f: Seq<u8>,
    i: int,
    arg: u16,
    long: bool,
)
    ensures
        conversion(m, f, i, arg, long) matches Ok(d) ==> well_formed(d.bytes),
{
    match conversion(m, f, i, arg, long) {
        Ok(d) => {
            if f[i] == 0x75 {
                let v = if long {
                    m.read_u64(arg_at(arg))->Ok_0 as nat
                } else {
                    m.read_u32(arg_at(arg))->Ok_0 as nat
                };
                lemma_decimal_is_ascii(v);
                lemma_ascii_is_well_formed(decimal(v), 0);
            } else if f[i] == 0x69 || f[i] == 0x64 {
                let v = if long {
                    bits_i64(m.read_u64(arg_at(arg))->Ok_0) as int
                } else {
                    bits_i32(m.read_u32(arg_at(arg))->Ok_0) as int
                };
                if v < 0 {
                    lemma_decimal_is_ascii((-v) as nat);
                } else {
                    lemma_decimal_is_ascii(v as nat);
                }
                lemma_ascii_is_well_formed(signed_decimal(v), 0);
            } else if f[i] == 0x63 {
                let bytes = d.bytes;
                if bytes.len() == 2 {
                    assert(fitting(bytes, 0) == 2);
                    assert(valid_end(bytes, 2) == 2);
                } else {
                    assert(valid_end(bytes, 1) == 1);
                }
            } else if f[i] == PERCENT {
                assert(valid_end(d.bytes, 1) == 1);
            } else {
                let string = c_string_at(
                    m,
                    VarPointer { value: m.read_u64(arg_at(arg))->Ok_0 },
                )->Ok_0;
                lemma_lossy_is_well_formed(string);
            }
        },
        Err(_) => {},
    }
}

/// What formatting prints is well-formed UTF-8, whatever bytes the format
/// and its arguments hold, and also where a fault ends the printing early.
pub proof fn lemma_format_is_well_formed(m: MemoryView, f: Seq<u8>, i: int, arg: u16)
    ensures
        well_formed(format(m, f, i, arg).0),
    decreases f.len() - i,
{
    if 0 <= i < f.len() {
        lemma_scans_forward(f, i);
        let stop = text_end(f, i);
        let text = lossy(f.subrange(i, stop));
        lemma_lossy_is_well_formed(f.subrange(i, stop));
        if stop < f.len() {
            reveal(directive);
            match directive(m, f, stop + 1, arg) {
                Err(_) => {},
                Ok(d) => {
                    lemma_directive_forward(m, f, stop + 1, arg);
                    let after_flags = skip_flags(f, stop + 1);
                    let (i2, a2) = number_field(m, f, after_flags, arg)->Ok_0;
                    let (i3, a3) = precision_field(m, f, i2, a2)->Ok_0;
                    lemma_conversion_is_well_formed(
                        m,
                        f,
                        length_field(f, i3).0,
                        a3,
                        length_field(f, i3).1,
                    );
                    lemma_format_is_well_formed(m, f, d.next, d.arg);
                    let rest = format(m, f, d.next, d.arg).0;
                    lemma_join_well_formed(d.bytes, rest, 0);
                    lemma_join_well_formed(text, d.bytes + rest, 0);
                    assert(text + d.bytes + rest =~= text + (d.bytes + rest));
                },
            }
        }
    }
}

/// What `printf` prints is well-formed UTF-8.
pub proof fn lemma_printf_output_is_well_formed(m: MemoryView, format_ptr: VarPointer, arg: u16)
    ensures
        well_formed(printf_output(m, format_ptr, arg).0),
{
    match m.read_u64(format_ptr) {
        Ok(v) => match c_string_at(m, VarPointer { value: v }) {
            Ok(f) => {
                lemma_format_is_well_formed(m, f, 0, arg);
            },
            Err(_) => {},
        },
        Err(_) => {},
    }
}

} // verus!
