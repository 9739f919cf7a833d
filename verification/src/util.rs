//! Source locations, compile-time errors and small arithmetic helpers.

use vstd::prelude::*;
use vstd::string::StringSliceAdditionalSpecFns;
use vstd::utf8::{encode_utf8, valid_utf8};
use crate::lossy::{lemma_well_formed_is_valid_utf8, replacement, well_formed, Utf8Lossy};
use crate::runtime::{ErrorKind, IError};

verus! {

/// File id carried by locations that belong to no source file.
pub const NO_FILE_ID: u32 = 0xFFFF_FFFF;

/// A span of bytes `start..end` in the source file `file`.
#[derive(Debug, Clone, Copy, Hash, PartialEq, Eq, Structural)]
pub struct CodeLoc {
    pub start: u32,
    pub end: u32,
    pub file: u32,
}

impl CodeLoc {
    /// A location is well formed when its span is not reversed.
    pub open spec fn wf(self) -> bool {
        self.start <= self.end
    }
}

/// The empty location that belongs to no file.
pub fn no_file() -> (loc: CodeLoc)
    ensures
        loc == (CodeLoc { start: 0, end: 0, file: NO_FILE_ID }),
        loc.wf(),
{
    CodeLoc { start: 0, end: 0, file: NO_FILE_ID }
}

/// Builds the location `start..end` in `file`.
pub fn l(start: u32, end: u32, file: u32) -> (loc: CodeLoc)
    requires
        start <= end,
    ensures
        loc == (CodeLoc { start, end, file }),
        loc.wf(),
{
    CodeLoc { start, end, file }
}

/// The span that begins where `loc1` begins and ends where `loc2` ends.
pub fn l_from(loc1: CodeLoc, loc2: CodeLoc) -> (loc: CodeLoc)
    requires
        loc1.file == loc2.file,
        loc1.start <= loc2.end,
    ensures
        loc == (CodeLoc { start: loc1.start, end: loc2.end, file: loc1.file }),
        loc.wf(),
{
    l(loc1.start, loc2.end, loc1.file)
}

/// The least multiple of `align` that is at least `size`, as a number.
pub open spec fn aligned(size: int, align: int) -> int
    recommends
        align > 0,
        size >= 0,
{
    if size == 0 {
        0
    } else {
        ((size - 1) / align) * align + align
    }
}

/// `aligned(size, align)` is a multiple of `align`, is at least `size`, and
/// overshoots it by less than `align`: it is the least such multiple.
pub proof fn lemma_aligned_is_least_multiple(size: int, align: int)
    requires
        size >= 0,
        align > 0,
    ensures
        aligned(size, align) % align == 0,
        size <= aligned(size, align) < size + align,
{
    if size > 0 {
        let q = (size - 1) / align;
        vstd::arithmetic::div_mod::lemma_fundamental_div_mod(size - 1, align);
        vstd::arithmetic::div_mod::lemma_mod_bound(size - 1, align);
        assert(q * align + align == (q + 1) * align) by (nonlinear_arith);
        vstd::arithmetic::div_mod::lemma_mod_multiples_basic(q + 1, align);
        assert(aligned(size, align) == (q + 1) * align);
        assert(size - 1 == align * q + (size - 1) % align);
        assert(align * q == q * align) by (nonlinear_arith);
    } else {
        vstd::arithmetic::div_mod::lemma_small_mod(0, align as nat);
    }
}

/// Rounds `size` up to a multiple of `align`.
pub fn align_usize(size: usize, align: usize) -> (r: usize)
    requires
        align > 0,
        aligned(size as int, align as int) <= usize::MAX,
    ensures
        r == aligned(size as int, align as int),
        r % align == 0,
        size <= r < size + align,
{
    proof {
        lemma_aligned_is_least_multiple(size as int, align as int);
    }
    if size == 0 {
        return 0;
    }
    let q: usize = (size - 1) / align;
    assert(q * align <= aligned(size as int, align as int)) by (nonlinear_arith)
        requires
            q == (size - 1) / (align as int),
            size > 0,
            align > 0,
    ;
    q * align + align
}

/// Rounds `size` up to a multiple of `align`.
pub fn align_u32(size: u32, align: u32) -> (r: u32)
    requires
        align > 0,
        aligned(size as int, align as int) <= u32::MAX,
    ensures
        r == aligned(size as int, align as int),
        r % align == 0,
        size <= r < size + align,
{
    proof {
        lemma_aligned_is_least_multiple(size as int, align as int);
    }
    if size == 0 {
        return 0;
    }
    let q: u32 = (size - 1) / align;
    assert(q * align <= aligned(size as int, align as int)) by (nonlinear_arith)
        requires
            q == (size - 1) / (align as int),
            size > 0,
            align > 0,
    ;
    q * align + align
}

/// Splits a word into its upper half and the word itself.
pub fn u32_to_u32_tup(value: u32) -> (r: (u32, u32))
    ensures
        r.0 == value / 0x1_0000,
        r.1 == value,
{
    assert(value >> 16 == value / 0x1_0000) by (bit_vector);
    (value >> 16, value)
}

/// One part of a compile-time error: a place in the source and what to say
/// about it.
#[derive(Debug)]
pub struct ErrorSection {
    pub location: CodeLoc,
    pub message: String,
}

/// A compile-time error: a message and the places in the source that it
/// is about.
#[derive(Debug)]
pub struct Error {
    pub message: String,
    pub sections: Vec<ErrorSection>,
}

impl Error {
    /// An error with the given message and sections.
    pub fn new(message: &str, sections: Vec<ErrorSection>) -> (e: Error)
        ensures
            e.message@ == message@,
            e.sections == sections,
    {
        Error { message: message.to_owned(), sections }
    }

    /// The places in the source that the error is about, in order.
    pub open spec fn places(&self) -> Seq<CodeLoc> {
        Seq::new(self.sections@.len(), |i: int| self.sections@[i].location)
    }

    /// What the error says about each of its places, in order.
    pub open spec fn notes(&self) -> Seq<Seq<char>> {
        Seq::new(self.sections@.len(), |i: int| self.sections@[i].message@)
    }
}

/// A growable array of strings, held as their UTF-8 bytes.
#[derive(Debug)]
pub struct StringArray {
    strings: Vec<Vec<u8>>,
}

impl View for StringArray {
    type V = Seq<Seq<u8>>;

    /// The UTF-8 bytes of each string, in the order in which they were
    /// pushed.
    closed spec fn view(&self) -> Seq<Seq<u8>> {
        Seq::new(self.strings@.len(), |i: int| self.strings@[i]@)
    }
}

impl StringArray {
    /// The array without strings.
    pub fn new() -> (a: StringArray)
        ensures
            a@ == Seq::<Seq<u8>>::empty(),
    {
        let a = StringArray { strings: Vec::new() };
        assert(a@ =~= Seq::<Seq<u8>>::empty());
        a
    }

    /// The number of strings.
    pub fn len(&self) -> (n: usize)
        ensures
            n == self@.len(),
    {
        self.strings.len()
    }

    /// Appends `string`.
    pub fn push(&mut self, string: &str)
        ensures
            final(self)@ == old(self)@.push(string.spec_bytes()),
    {
        let source: &[u8] = string.as_bytes();
        let mut bytes: Vec<u8> = Vec::new();
        let mut i: usize = 0;
        while i < source.len()
            invariant
                i <= source.len(),
                bytes@ == source@.subrange(0, i as int),
            decreases source.len() - i,
        {
            bytes.push(source[i]);
            i = i + 1;
            assert(bytes@ =~= source@.subrange(0, i as int));
        }
        assert(source@.subrange(0, source@.len() as int) =~= source@);
        self.strings.push(bytes);
        assert(self@ =~= old(self)@.push(string.spec_bytes()));
    }

    /// The bytes of the string at `idx`.
    pub fn get(&self, idx: usize) -> (bytes: &Vec<u8>)
        requires
            idx < self@.len(),
        ensures
            bytes@ == self@[idx as int],
    {
        &self.strings[idx]
    }
}

/// A growing buffer of text, held as UTF-8 bytes.
#[derive(Debug)]
pub struct StringWriter {
    buf: Vec<u8>,
}

impl View for StringWriter {
    type V = Seq<u8>;

    /// The bytes written so far.
    closed spec fn view(&self) -> Seq<u8> {
        self.buf@
    }
}

/// The characters that the standard library decodes `bytes` to, with
/// U+FFFD in place of what is no UTF-8.
pub uninterp spec fn decoded(bytes: Seq<u8>) -> Seq<char>;

/// The text that `bytes` hold.
///
/// Trusted: `String::from_utf8_lossy` of the standard library, whose result
/// depends on the bytes alone. The contract gives that result its name, and
/// claims of it what the documentation says: bytes that are valid UTF-8 are
/// the bytes of the text.
#[verifier::external_body]
pub(crate) fn text_of(bytes: &[u8]) -> (s: String)
    ensures
        s@ == decoded(bytes@),
        valid_utf8(bytes@) ==> encode_utf8(s@) == bytes@,
{
    String::from_utf8_lossy(bytes).into_owned()
}

/// Trusted: `String::push` of the standard library appends the character to
/// the end of the string.
pub assume_specification[ String::push ](s: &mut String, ch: char)
    ensures
        final(s)@ == old(s)@.push(ch),
;

impl StringWriter {
    /// The empty buffer.
    pub fn new() -> (w: StringWriter)
        ensures
            w@ == Seq::<u8>::empty(),
    {
        StringWriter { buf: Vec::new() }
    }

    /// The number of bytes written so far.
    pub fn len(&self) -> (n: usize)
        ensures
            n == self@.len(),
    {
        self.buf.len()
    }

    /// Appends `bytes` as they are.
    pub(crate) fn append(&mut self, bytes: &[u8])
        ensures
            final(self)@ == old(self)@ + bytes@,
    {
        let mut i: usize = 0;
        while i < bytes.len()
            invariant
                i <= bytes.len(),
                self.buf@ == old(self).buf@ + bytes@.subrange(0, i as int),
            decreases bytes.len() - i,
        {
            self.buf.push(bytes[i]);
            i = i + 1;
            assert(self.buf@ =~= old(self).buf@ + bytes@.subrange(0, i as int));
        }
        assert(bytes@.subrange(0, bytes@.len() as int) =~= bytes@);
    }

    /// Appends one byte as it is.
    pub(crate) fn append_byte(&mut self, byte: u8)
        ensures
            final(self)@ == old(self)@.push(byte),
    {
        self.buf.push(byte);
    }

    /// Appends the replacement character.
    pub(crate) fn append_replacement(&mut self)
        ensures
            final(self)@ == old(self)@ + replacement(),
    {
        self.buf.push(0xEFu8);
        self.buf.push(0xBFu8);
        self.buf.push(0xBDu8);
        assert(self.buf@ =~= old(self).buf@ + replacement());
    }

    /// Appends `buf` where it is well-formed UTF-8 and returns its length;
    /// refuses it, and appends nothing, where it is not.
    pub fn write(&mut self, buf: &[u8]) -> (r: Result<usize, IError>)
        ensures
            match r {
                Ok(n) => well_formed(buf@) && n == buf@.len() && final(self)@ == old(self)@ + buf@,
                Err(e) => !well_formed(buf@) && e.is_kind(ErrorKind::WriteFailed) && final(self)@
                    == old(self)@,
            },
    {
        let mut iter = Utf8Lossy::from_bytes(buf).chunks();
        let chunk = iter.next();
        if chunk.broken.len() != 0 {
            return Err(IError::of_kind(ErrorKind::WriteFailed));
        }
        self.append(buf);
        Ok(buf.len())
    }

    /// The bytes written so far.
    pub fn as_bytes(&self) -> (bytes: &Vec<u8>)
        ensures
            bytes@ == self@,
    {
        &self.buf
    }

    /// The text written so far; the buffer is used up. Where the bytes are
    /// well-formed UTF-8, they are the bytes of the text.
    pub fn into_string(self) -> (s: String)
        ensures
            s@ == decoded(self@),
            well_formed(self@) ==> encode_utf8(s@) == self@,
    {
        proof {
            lemma_well_formed_is_valid_utf8(self@);
        }
        text_of(self.buf.as_slice())
    }

    /// The text written so far. Where the bytes are well-formed UTF-8,
    /// they are the bytes of the text.
    pub fn to_string(&self) -> (s: String)
        ensures
            s@ == decoded(self@),
            well_formed(self@) ==> encode_utf8(s@) == self@,
    {
        proof {
            lemma_well_formed_is_valid_utf8(self@);
        }
        text_of(self.buf.as_slice())
    }

    /// The text written so far; the buffer is empty afterwards. Where the
    /// bytes are well-formed UTF-8, they are the bytes of the text.
    pub fn flush_string(&mut self) -> (s: String)
        ensures
            s@ == decoded(old(self)@),
            well_formed(old(self)@) ==> encode_utf8(s@) == old(self)@,
            final(self)@ == Seq::<u8>::empty(),
    {
        proof {
            lemma_well_formed_is_valid_utf8(self@);
        }
        let ret_val = text_of(self.buf.as_slice());
        self.buf.clear();
        ret_val
    }
}

/// A writer that keeps a copy of the text that passes through it. The
/// host forwards to `writer` what `record` has accepted.
#[derive(Debug)]
pub struct RecordingWriter<W> {
    pub string: StringWriter,
    pub writer: W,
}

impl<W> RecordingWriter<W> {
    /// A recording writer around `writer` that has recorded nothing yet.
    pub fn new(writer: W) -> (r: RecordingWriter<W>)
        ensures
            r.string@ == Seq::<u8>::empty(),
            r.writer == writer,
    {
        RecordingWriter { string: StringWriter::new(), writer }
    }

    /// Records `buf` where it is well-formed UTF-8, as `StringWriter::write`
    /// does.
    pub fn record(&mut self, buf: &[u8]) -> (r: Result<usize, IError>)
        ensures
            final(self).writer == old(self).writer,
            match r {
                Ok(n) => well_formed(buf@) && n == buf@.len() && final(self).string@ == old(
                    self,
                ).string@ + buf@,
                Err(e) => {
                    &&& !well_formed(buf@)
                    &&& e.is_kind(ErrorKind::WriteFailed)
                    &&& final(self).string@ == old(self).string@
                },
            },
    {
        self.string.write(buf)
    }
}

/// A writer that counts what an inner writer has taken.
#[derive(Debug)]
pub struct Cursor<IO> {
    pub io: IO,
    pub len: usize,
}

impl<IO> Cursor<IO> {
    /// A cursor around `io` that has counted nothing yet.
    pub fn new(io: IO) -> (c: Cursor<IO>)
        ensures
            c.io == io,
            c.len == 0,
    {
        Cursor { io, len: 0 }
    }
}

/// A writer that takes everything and keeps nothing.
#[derive(Debug)]
pub struct Void {
    unused: (),
}

impl Void {
    /// The writer.
    pub fn new() -> Void {
        Void { unused: () }
    }

    /// Takes all of `buf` and returns its length.
    pub fn write(&mut self, buf: &[u8]) -> (n: usize)
        ensures
            n == buf@.len(),
    {
        buf.len()
    }
}

/// The data of the null value of `n32`.
pub const N32_NULL: u32 = 0xFFFF_FFFF;

/// A 32-bit number that is not null: every value but the largest.
#[allow(non_camel_case_types)]
#[derive(Debug, Clone, Copy, PartialEq, Eq, Structural)]
pub struct n32 {
    pub data: u32,
}

impl n32 {
    /// The number `data`.
    pub fn new(data: u32) -> (n: n32)
        requires
            data != N32_NULL,
        ensures
            n.data == data,
    {
        n32 { data }
    }

    /// The null value, which stands for no number.
    pub fn null() -> (n: n32)
        ensures
            n.data == N32_NULL,
    {
        n32 { data: N32_NULL }
    }

    /// Whether the value is null.
    pub fn is_null(self) -> (b: bool)
        ensures
            b == (self.data == N32_NULL),
    {
        self.data == N32_NULL
    }

    /// The number as a plain integer.
    pub fn into_u32(self) -> (data: u32)
        requires
            self.data != N32_NULL,
        ensures
            data == self.data,
    {
        self.data
    }

    /// The number `rhs` further on.
    pub fn plus(self, rhs: u32) -> (n: n32)
        requires
            self.data + rhs < N32_NULL,
        ensures
            n.data == self.data + rhs,
    {
        n32 { data: self.data + rhs }
    }
}

/// A slice with a 32-bit length and a word of metadata.
#[derive(Debug, Clone, Copy)]
pub struct ShortSlice<'a, T> {
    pub data: &'a [T],
    pub len: u32,
    pub meta: u32,
}

impl<'a, T> ShortSlice<'a, T> {
    /// The short slice over `data` with the metadata `meta`.
    pub fn new(data: &'a [T], meta: u32) -> (s: ShortSlice<'a, T>)
        requires
            data@.len() <= u32::MAX,
        ensures
            s.data@ == data@,
            s.len == data@.len(),
            s.meta == meta,
    {
        ShortSlice { data, len: data.len() as u32, meta }
    }

    /// The elements.
    pub fn as_slice(&self) -> (s: &'a [T])
        ensures
            s@ == self.data@,
    {
        self.data
    }
}

/// Whether `dst` is `src` with each pair of neighbours reduced to one
/// element by `f`, and the last element kept where it has no neighbour.
pub open spec fn halved<I, F: Fn(I, I) -> I>(f: F, src: Seq<I>, dst: Seq<I>) -> bool {
    &&& dst.len() == (src.len() + 1) / 2
    &&& forall|k: int|
        0 <= k && 2 * k + 1 < src.len() ==> call_ensures(
            f,
            (src[2 * k], src[2 * k + 1]),
            #[trigger] dst[k],
        )
    &&& src.len() % 2 == 1 ==> dst.last() == src.last()
}

/// Whether `levels` are the levels of a balanced reduction of `src` to
/// `out`: the first level is `src`, each level is the one before it halved,
/// and the last level is `out` alone.
pub open spec fn reduction<I, F: Fn(I, I) -> I>(f: F, levels: Seq<Seq<I>>, src: Seq<I>, out: I) -> bool {
    &&& levels.len() >= 1
    &&& levels[0] == src
    &&& levels.last() == seq![out]
    &&& forall|i: int|
        0 <= i < levels.len() - 1 ==> halved(f, #[trigger] levels[i], levels[i + 1])
}

/// Whether `out` is what is left when `src` is halved again and again
/// until one element remains.
pub open spec fn folds_to<I, F: Fn(I, I) -> I>(f: F, src: Seq<I>, out: I) -> bool {
    exists|levels: Seq<Seq<I>>| reduction(f, levels, src, out)
}

/// The items in the opposite order.
pub(crate) fn reversed<I>(items: Vec<I>) -> (r: Vec<I>)
    ensures
        r@ == items@.reverse(),
{
    let ghost all = items@;
    let mut rest = items;
    let mut r: Vec<I> = Vec::new();
    while rest.len() > 0
        invariant
            rest@.len() + r@.len() == all.len(),
            rest@ == all.subrange(0, rest@.len() as int),
            forall|k: int| 0 <= k < r@.len() ==> r@[k] == all[all.len() - 1 - k],
        decreases rest@.len(),
    {
        let item: I = rest.pop().unwrap();
        r.push(item);
    }
    assert(r@ =~= all.reverse());
    r
}

/// Reduces `src` by one level: neighbours are reduced in pairs.
fn halve<I, F: Fn(I, I) -> I>(src: Vec<I>, reducer: &F) -> (dst: Vec<I>)
    requires
        forall|a: I, b: I| call_requires(*reducer, (a, b)),
    ensures
        halved(*reducer, src@, dst@),
{
    let ghost all = src@;
    let total: usize = src.len();
    let mut dst: Vec<I> = Vec::new();
    let mut pending: Option<I> = None;
    let mut rest = reversed(src);
    let ghost reversed = rest@;
    let mut taken: usize = 0;
    while rest.len() > 0
        invariant
            forall|a: I, b: I| call_requires(*reducer, (a, b)),
            reversed == all.reverse(),
            total == all.len(),
            taken + rest@.len() == all.len(),
            rest@ == reversed.subrange(0, rest@.len() as int),
            dst@.len() == taken / 2,
            taken % 2 == 1 <==> pending is Some,
            pending matches Some(p) ==> p == all[taken - 1],
            forall|k: int|
                0 <= k && 2 * k + 1 < taken ==> call_ensures(
                    *reducer,
                    (all[2 * k], all[2 * k + 1]),
                    #[trigger] dst@[k],
                ),
        decreases rest@.len(),
    {
        let item: I = rest.pop().unwrap();
        assert(item == all[taken as int]);
        match pending {
            Some(first) => {
                let value: I = reducer(first, item);
                dst.push(value);
                pending = None;
            },
            None => {
                pending = Some(item);
            },
        }
        taken = taken + 1;
    }
    match pending {
        Some(last) => {
            dst.push(last);
        },
        None => {},
    }
    dst
}

/// Reduces the items to one by a balanced tree of reductions: neighbours
/// are reduced in pairs, level by level, until one item remains. Nothing
/// comes of no items.
pub fn fold_binary<I, F: Fn(I, I) -> I>(items: Vec<I>, reducer: F) -> (out: Option<I>)
    requires
        forall|a: I, b: I| call_requires(reducer, (a, b)),
    ensures
        out is None <==> items@.len() == 0,
        out matches Some(value) ==> folds_to(reducer, items@, value),
{
    if items.len() == 0 {
        return None;
    }
    let ghost mut levels: Seq<Seq<I>> = seq![items@];
    let mut source: Vec<I> = items;
    while source.len() > 1
        invariant
            forall|a: I, b: I| call_requires(reducer, (a, b)),
            source@.len() >= 1,
            levels.len() >= 1,
            levels[0] == items@,
            levels.last() == source@,
            forall|i: int|
                0 <= i < levels.len() - 1 ==> halved(reducer, #[trigger] levels[i], levels[i + 1]),
        decreases source@.len(),
    {
        let target: Vec<I> = halve(source, &reducer);
        proof {
            levels = levels.push(target@);
        }
        source = target;
    }
    let value: I = source.pop().unwrap();
    proof {
        assert(levels.last() =~= seq![value]);
        assert(reduction(reducer, levels, items@, value));
    }
    Some(value)
}

} // verus!
