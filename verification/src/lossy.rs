//! A lossy UTF-8 decoder: it splits bytes into runs of well-formed UTF-8
//! and the ill-formed sequences between them, and replaces each ill-formed
//! sequence by U+FFFD.

use vstd::prelude::*;
use vstd::slice::slice_subrange;
use vstd::string::StringSliceAdditionalSpecFns;
use vstd::string::StringExecFns;
use vstd::utf8::{
    codepoint_width_2, codepoint_width_3, codepoint_width_4, is_continuation_byte,
    not_overlong_encoding, not_surrogate, pop_first_scalar, valid_first_scalar, valid_utf8,
};
use crate::util::{decoded, StringWriter};

verus! {

/// The byte at `i`, or zero past the end.
pub open spec fn byte_at(s: Seq<u8>, i: int) -> u8 {
    if 0 <= i < s.len() {
        s[i]
    } else {
        0
    }
}

/// Whether `b` is a continuation byte.
pub open spec fn is_cont(b: u8) -> bool {
    0x80 <= b <= 0xBF
}

/// The number of bytes of the sequence that the lead byte `b` begins, or
/// zero where `b` begins none.
pub open spec fn lead_width(b: u8) -> int {
    if b < 0x80 {
        1
    } else if 0xC2 <= b <= 0xDF {
        2
    } else if 0xE0 <= b <= 0xEF {
        3
    } else if 0xF0 <= b <= 0xF4 {
        4
    } else {
        0
    }
}

/// Whether `second` can follow the lead byte `first` of a sequence of three
/// or four bytes: the pairs that would encode a surrogate, an overlong form
/// or a value past U+10FFFF are left out.
pub open spec fn second_fits(first: u8, second: u8) -> bool {
    if first == 0xE0 {
        0xA0 <= second <= 0xBF
    } else if first == 0xED {
        0x80 <= second <= 0x9F
    } else if first == 0xF0 {
        0x90 <= second <= 0xBF
    } else if first == 0xF4 {
        0x80 <= second <= 0x8F
    } else {
        is_cont(second)
    }
}

/// The number of leading bytes of the sequence at `i` that fit together:
/// the whole width of the sequence where it is well formed, fewer where it
/// breaks off, and zero where the byte at `i` begins no sequence.
pub open spec fn fitting(s: Seq<u8>, i: int) -> int {
    let w = lead_width(s[i]);
    if w <= 1 {
        w
    } else if w == 2 {
        if is_cont(byte_at(s, i + 1)) {
            2
        } else {
            1
        }
    } else if !second_fits(s[i], byte_at(s, i + 1)) {
        1
    } else if !is_cont(byte_at(s, i + 2)) {
        2
    } else if w == 3 {
        3
    } else if !is_cont(byte_at(s, i + 3)) {
        3
    } else {
        4
    }
}

/// Whether a well-formed sequence begins at `i`.
pub open spec fn unit_valid(s: Seq<u8>, i: int) -> bool {
    lead_width(s[i]) > 0 && fitting(s, i) == lead_width(s[i])
}

/// The length of the sequence at `i`: of the well-formed sequence, or of
/// the ill-formed one, which is the bytes that fit together and at least
/// one byte.
pub open spec fn unit_len(s: Seq<u8>, i: int) -> int {
    if fitting(s, i) == 0 {
        1
    } else {
        fitting(s, i)
    }
}

/// Where the run of well-formed sequences that begins at `i` ends: at the
/// end of the bytes, or where the first ill-formed sequence begins.
pub open spec fn valid_end(s: Seq<u8>, i: int) -> int
    decreases s.len() - i,
{
    if i < 0 || i >= s.len() {
        s.len() as int
    } else if unit_valid(s, i) {
        valid_end(s, i + unit_len(s, i))
    } else {
        i
    }
}

/// The length of the ill-formed sequence that ends the first run of `s`;
/// zero where the run goes to the end.
pub open spec fn broken_len(s: Seq<u8>) -> int {
    if valid_end(s, 0) < s.len() {
        unit_len(s, valid_end(s, 0))
    } else {
        0
    }
}

/// Whether `s` is well-formed UTF-8 throughout.
pub open spec fn well_formed(s: Seq<u8>) -> bool {
    valid_end(s, 0) == s.len()
}

/// The UTF-8 bytes of U+FFFD, the replacement character.
pub open spec fn replacement() -> Seq<u8> {
    seq![0xEFu8, 0xBFu8, 0xBDu8]
}

/// `s` with each ill-formed sequence replaced by U+FFFD.
pub open spec fn lossy(s: Seq<u8>) -> Seq<u8>
    decreases s.len(),
    via lossy_decreases
{
    if valid_end(s, 0) >= s.len() {
        s
    } else {
        s.subrange(0, valid_end(s, 0)) + replacement() + lossy(
            s.skip(valid_end(s, 0) + broken_len(s)),
        )
    }
}

#[via_fn]
proof fn lossy_decreases(s: Seq<u8>) {
    lemma_valid_end_bounds(s, 0);
}

/// The end of a run lies within the bytes, at or after the start of the
/// run, and the sequence at the end of a run that stops early is ill
/// formed and lies within the bytes.
pub proof fn lemma_valid_end_bounds(s: Seq<u8>, i: int)
    requires
        0 <= i <= s.len(),
    ensures
        i <= valid_end(s, i) <= s.len(),
        valid_end(s, i) < s.len() ==> !unit_valid(s, valid_end(s, i)) && valid_end(s, i) + unit_len(
            s,
            valid_end(s, i),
        ) <= s.len(),
    decreases s.len() - i,
{
    if i < s.len() && unit_valid(s, i) {
        lemma_valid_end_bounds(s, i + unit_len(s, i));
    }
}

/// Bytes that may be ill-formed UTF-8.
pub struct Utf8Lossy<'a> {
    bytes: &'a [u8],
}

/// Walks over bytes chunk by chunk.
pub struct Utf8LossyChunksIter<'a> {
    source: &'a [u8],
}

/// One chunk: a run of well-formed UTF-8 and the ill-formed sequence that
/// ends it.
pub struct Utf8LossyChunk<'a> {
    /// Well-formed UTF-8; it can be empty between two ill-formed sequences.
    pub valid: &'a [u8],
    /// One ill-formed sequence; it is empty in the last chunk and in no
    /// other.
    pub broken: &'a [u8],
}

impl<'a> View for Utf8Lossy<'a> {
    type V = Seq<u8>;

    closed spec fn view(&self) -> Seq<u8> {
        self.bytes@
    }
}

impl<'a> View for Utf8LossyChunksIter<'a> {
    type V = Seq<u8>;

    /// The bytes that the walk has not yet handed out.
    closed spec fn view(&self) -> Seq<u8> {
        self.source@
    }
}

impl<'a> Utf8Lossy<'a> {
    /// The bytes of a string.
    pub fn from_str(s: &'a str) -> (r: Utf8Lossy<'a>)
        ensures
            r@ == s.spec_bytes(),
    {
        Utf8Lossy::from_bytes(s.as_bytes())
    }

    /// The given bytes.
    pub fn from_bytes(bytes: &'a [u8]) -> (r: Utf8Lossy<'a>)
        ensures
            r@ == bytes@,
    {
        Utf8Lossy { bytes }
    }

    /// A walk over the bytes, from the first on.
    pub fn chunks(&self) -> (r: Utf8LossyChunksIter<'a>)
        ensures
            r@ == self@,
    {
        Utf8LossyChunksIter { source: self.bytes }
    }
}

/// The byte at `i`, or zero past the end.
fn safe_get(xs: &[u8], i: usize) -> (b: u8)
    ensures
        b == byte_at(xs@, i as int),
{
    if i < xs.len() {
        xs[i]
    } else {
        0
    }
}

/// The number of leading bytes of the sequence at `i` that fit together.
fn fitting_at(xs: &[u8], i: usize) -> (n: usize)
    requires
        i < xs@.len(),
    ensures
        n == fitting(xs@, i as int),
        n <= 4,
        i + n <= xs@.len(),
{
    let first: u8 = xs[i];
    if first < 0x80 {
        return 1;
    }
    if first < 0xC2 || first > 0xF4 {
        return 0;
    }
    if i + 1 >= xs.len() {
        return 1;
    }
    let second: u8 = safe_get(xs, i + 1);
    if first <= 0xDF {
        return if 0x80 <= second && second <= 0xBF { 2 } else { 1 };
    }
    let fits: bool = if first == 0xE0 {
        0xA0 <= second && second <= 0xBF
    } else if first == 0xED {
        0x80 <= second && second <= 0x9F
    } else if first == 0xF0 {
        0x90 <= second && second <= 0xBF
    } else if first == 0xF4 {
        0x80 <= second && second <= 0x8F
    } else {
        0x80 <= second && second <= 0xBF
    };
    if !fits {
        return 1;
    }
    if i + 2 >= xs.len() {
        return 2;
    }
    let third: u8 = safe_get(xs, i + 2);
    if !(0x80 <= third && third <= 0xBF) {
        return 2;
    }
    if first <= 0xEF {
        return 3;
    }
    if i + 3 >= xs.len() {
        return 3;
    }
    let fourth: u8 = safe_get(xs, i + 3);
    if 0x80 <= fourth && fourth <= 0xBF {
        4
    } else {
        3
    }
}

/// The width of the sequence that the lead byte `first` begins.
pub(crate) fn width_of(first: u8) -> (w: usize)
    ensures
        w == lead_width(first),
{
    if first < 0x80 {
        1
    } else if 0xC2 <= first && first <= 0xDF {
        2
    } else if 0xE0 <= first && first <= 0xEF {
        3
    } else if 0xF0 <= first && first <= 0xF4 {
        4
    } else {
        0
    }
}

/// A well-formed prefix stays well formed when the well-formed sequence
/// that follows it is added.
pub proof fn lemma_extend_run(s: Seq<u8>, j: int, i: int)
    requires
        0 <= j <= i < s.len(),
        valid_end(s.subrange(0, i), j) == i,
        unit_valid(s, i),
    ensures
        i + unit_len(s, i) <= s.len(),
        valid_end(s.subrange(0, i + unit_len(s, i)), j) == i + unit_len(s, i),
    decreases i - j,
{
    let n = unit_len(s, i);
    let p = s.subrange(0, i);
    let q = s.subrange(0, i + n);
    if j == i {
        assert(fitting(q, i) == fitting(s, i));
        assert(valid_end(q, i + n) == i + n);
    } else {
        let m = unit_len(p, j);
        assert(unit_valid(p, j));
        assert(j + m <= i);
        assert(fitting(q, j) == fitting(p, j));
        lemma_extend_run(s, j + m, i);
    }
}

impl<'a> Utf8LossyChunksIter<'a> {
    /// Hands out the next chunk: the longest run of well-formed UTF-8 at
    /// the start of the remaining bytes, and the ill-formed sequence that
    /// follows it, if any. The walk goes on behind the two.
    pub fn next(&mut self) -> (chunk: Utf8LossyChunk<'a>)
        ensures
            chunk.valid@ == old(self)@.subrange(0, valid_end(old(self)@, 0)),
            chunk.broken@ == old(self)@.subrange(
                valid_end(old(self)@, 0),
                valid_end(old(self)@, 0) + broken_len(old(self)@),
            ),
            final(self)@ == old(self)@.skip(valid_end(old(self)@, 0) + broken_len(old(self)@)),
            well_formed(chunk.valid@),
            chunk.broken@.len() == 0 <==> well_formed(old(self)@),
            chunk.broken@.len() == broken_len(old(self)@),
            0 <= valid_end(old(self)@, 0),
            valid_end(old(self)@, 0) + broken_len(old(self)@) <= old(self)@.len(),
    {
        proof {
            lemma_valid_end_bounds(self@, 0);
        }
        let source: &'a [u8] = self.source;
        let len: usize = source.len();
        let mut i: usize = 0;
        assert(source@.subrange(0, 0).len() == 0);
        while i < len
            invariant
                i <= len,
                len == source@.len(),
                source@ == old(self)@,
                valid_end(source@, 0) == valid_end(source@, i as int),
                valid_end(source@.subrange(0, i as int), 0) == i,
            decreases len - i,
        {
            let n: usize = fitting_at(source, i);
            let width: usize = width_of(source[i]);
            if width == 0 || n != width {
                let end: usize = if n == 0 { i + 1 } else { i + n };
                self.source = slice_subrange(source, end, len);
                return Utf8LossyChunk {
                    valid: slice_subrange(source, 0, i),
                    broken: slice_subrange(source, i, end),
                };
            }
            proof {
                lemma_extend_run(source@, 0, i as int);
            }
            i = i + n;
        }
        assert(source@.subrange(0, len as int) =~= source@);
        self.source = slice_subrange(source, len, len);
        Utf8LossyChunk { valid: source, broken: slice_subrange(source, len, len) }
    }
}

/// The replacement character is well-formed UTF-8.
pub proof fn lemma_replacement_well_formed()
    ensures
        well_formed(replacement()),
{
    let r = replacement();
    assert(r[0] == 0xEF && r[1] == 0xBF && r[2] == 0xBD);
    assert(fitting(r, 0) == 3);
    assert(valid_end(r, 3) == 3);
    assert(valid_end(r, 0) == valid_end(r, 3));
}

/// The run of well-formed sequences at the start of `s` is well formed on
/// its own.
pub proof fn lemma_run_is_well_formed(s: Seq<u8>, i: int)
    requires
        0 <= i <= s.len(),
        valid_end(s.subrange(0, i), 0) == i,
    ensures
        valid_end(s.subrange(0, valid_end(s, i)), 0) == valid_end(s, i),
    decreases s.len() - i,
{
    if i < s.len() && unit_valid(s, i) {
        lemma_extend_run(s, 0, i);
        lemma_run_is_well_formed(s, i + unit_len(s, i));
    }
}

/// A run in the second of two joined byte strings is the run in the second
/// string alone.
pub proof fn lemma_run_after(a: Seq<u8>, b: Seq<u8>, j: int)
    requires
        0 <= j <= b.len(),
    ensures
        valid_end(a + b, a.len() + j) == a.len() + valid_end(b, j),
    decreases b.len() - j,
{
    let ab = a + b;
    if j < b.len() {
        assert(ab[a.len() + j] == b[j]);
        assert(byte_at(ab, a.len() + j + 1) == byte_at(b, j + 1));
        assert(byte_at(ab, a.len() + j + 2) == byte_at(b, j + 2));
        assert(byte_at(ab, a.len() + j + 3) == byte_at(b, j + 3));
        assert(fitting(ab, a.len() + j) == fitting(b, j));
        if unit_valid(b, j) {
            lemma_valid_end_bounds(b, j);
            lemma_run_after(a, b, j + unit_len(b, j));
        }
    }
}

/// Two well-formed byte strings joined are well formed.
pub proof fn lemma_join_well_formed(a: Seq<u8>, b: Seq<u8>, i: int)
    requires
        0 <= i <= a.len(),
        valid_end(a, i) == a.len(),
        well_formed(b),
    ensures
        valid_end(a + b, i) == (a + b).len(),
    decreases a.len() - i,
{
    let ab = a + b;
    if i == a.len() {
        lemma_run_after(a, b, 0);
    } else {
        let n = unit_len(a, i);
        assert(unit_valid(a, i));
        assert(i + n <= a.len());
        assert(ab[i] == a[i]);
        assert(fitting(ab, i) == fitting(a, i));
        lemma_join_well_formed(a, b, i + n);
    }
}

/// For a sequence of two bytes, the table of well-formed sequences says
/// what the definition of UTF-8 says: the sequence is not overlong.
proof fn lemma_width_2(b1: u8, b2: u8)
    by (bit_vector)
    requires
        0xC0 <= b1 <= 0xDF,
        0x80 <= b2 <= 0xBF,
    ensures
        (0x80 <= codepoint_width_2(b1, b2)) <==> 0xC2 <= b1,
        codepoint_width_2(b1, b2) < 0x800,
{
}

/// For a sequence of three bytes, the table of well-formed sequences says
/// what the definition of UTF-8 says: the sequence is not overlong and
/// encodes no surrogate.
proof fn lemma_width_3(b1: u8, b2: u8, b3: u8)
    by (bit_vector)
    requires
        0xE0 <= b1 <= 0xEF,
        0x80 <= b2 <= 0xBF,
        0x80 <= b3 <= 0xBF,
    ensures
        (0x800 <= codepoint_width_3(b1, b2, b3) && !(0xD800 <= codepoint_width_3(b1, b2, b3)
            <= 0xDFFF)) <==> (if b1 == 0xE0 {
            0xA0 <= b2
        } else if b1 == 0xED {
            b2 <= 0x9F
        } else {
            true
        }),
{
}

/// For a sequence of four bytes, the table of well-formed sequences says
/// what the definition of UTF-8 says: the sequence is not overlong and
/// encodes no value past U+10FFFF.
proof fn lemma_width_4(b1: u8, b2: u8, b3: u8, b4: u8)
    by (bit_vector)
    requires
        0xF0 <= b1 <= 0xF7,
        0x80 <= b2 <= 0xBF,
        0x80 <= b3 <= 0xBF,
        0x80 <= b4 <= 0xBF,
    ensures
        (0x10000 <= codepoint_width_4(b1, b2, b3, b4) <= 0x10FFFF) <==> (if b1 == 0xF0 {
            0x90 <= b2
        } else if b1 == 0xF4 {
            b2 <= 0x8F
        } else {
            b1 <= 0xF3
        }),
        !(0xD800 <= codepoint_width_4(b1, b2, b3, b4) <= 0xDFFF) || codepoint_width_4(
            b1,
            b2,
            b3,
            b4,
        ) < 0x10000,
{
}

/// A sequence is well formed by the table exactly where it is the UTF-8
/// encoding of a Unicode scalar value, and then the two agree on its
/// length.
pub proof fn lemma_unit_is_scalar(s: Seq<u8>)
    requires
        s.len() > 0,
    ensures
        unit_valid(s, 0) <==> valid_first_scalar(s),
        unit_valid(s, 0) ==> pop_first_scalar(s) == s.skip(unit_len(s, 0)) && 1 <= unit_len(s, 0)
            <= s.len(),
{
    let b1 = s[0];
    if 0xC0 <= b1 <= 0xDF && s.len() >= 2 && is_continuation_byte(s[1]) {
        lemma_width_2(b1, s[1]);
    }
    if 0xE0 <= b1 <= 0xEF && s.len() >= 3 && is_continuation_byte(s[1]) && is_continuation_byte(
        s[2],
    ) {
        lemma_width_3(b1, s[1], s[2]);
    }
    if 0xF0 <= b1 <= 0xF7 && s.len() >= 4 && is_continuation_byte(s[1]) && is_continuation_byte(
        s[2],
    ) && is_continuation_byte(s[3]) {
        lemma_width_4(b1, s[1], s[2], s[3]);
    }
    if unit_valid(s, 0) {
        assert(pop_first_scalar(s) =~= s.skip(unit_len(s, 0)));
    }
}

/// The table of well-formed sequences defines UTF-8: bytes are well formed
/// throughout exactly where they are valid UTF-8.
pub proof fn lemma_well_formed_is_valid_utf8(s: Seq<u8>)
    ensures
        well_formed(s) <==> valid_utf8(s),
    decreases s.len(),
{
    if s.len() > 0 {
        lemma_unit_is_scalar(s);
        if unit_valid(s, 0) {
            let n = unit_len(s, 0);
            let rest = s.skip(n);
            lemma_well_formed_is_valid_utf8(rest);
            lemma_run_after(s.take(n), rest, 0);
            assert(s.take(n) + rest =~= s);
        }
    }
}

/// Bytes below 128 are well-formed UTF-8.
pub proof fn lemma_ascii_is_well_formed(s: Seq<u8>, i: int)
    requires
        0 <= i <= s.len(),
        forall|k: int| 0 <= k < s.len() ==> s[k] < 0x80,
    ensures
        valid_end(s, i) == s.len(),
    decreases s.len() - i,
{
    if i < s.len() {
        lemma_ascii_is_well_formed(s, i + 1);
    }
}

/// What the replacement of ill-formed sequences leaves is well formed.
pub proof fn lemma_lossy_is_well_formed(s: Seq<u8>)
    ensures
        well_formed(lossy(s)),
    decreases s.len(),
{
    lemma_valid_end_bounds(s, 0);
    let v = valid_end(s, 0);
    if v < s.len() {
        let rest = s.skip(v + broken_len(s));
        lemma_lossy_is_well_formed(rest);
        assert(s.subrange(0, 0) =~= Seq::<u8>::empty());
        lemma_run_is_well_formed(s, 0);
        lemma_replacement_well_formed();
        lemma_join_well_formed(replacement(), lossy(rest), 0);
        lemma_join_well_formed(s.subrange(0, v), replacement() + lossy(rest), 0);
        assert(lossy(s) =~= s.subrange(0, v) + (replacement() + lossy(rest)));
    }
}

/// Writes `bytes` to `write`, with each ill-formed sequence replaced by
/// U+FFFD, and returns the number of bytes written.
pub fn write_utf8_lossy(write: &mut StringWriter, bytes: &[u8]) -> (total: usize)
    ensures
        final(write)@ == old(write)@ + lossy(bytes@),
        total == lossy(bytes@).len(),
        well_formed(lossy(bytes@)),
{
    proof {
        lemma_lossy_is_well_formed(bytes@);
    }
    let before: usize = write.len();
    let mut iter = Utf8Lossy::from_bytes(bytes).chunks();
    assert(write@ + lossy(iter@) =~= old(write)@ + lossy(bytes@));
    loop
        invariant
            before == old(write)@.len(),
            well_formed(lossy(bytes@)),
            old(write)@ + lossy(bytes@) == write@ + lossy(iter@),
        decreases iter@.len(),
    {
        let ghost rest = iter@;
        let ghost sofar = write@;
        let chunk = iter.next();
        write.append(chunk.valid);
        if chunk.broken.len() == 0 {
            assert(lossy(rest) == rest);
            assert(chunk.valid@ =~= rest);
            return write.len() - before;
        }
        write.append_replacement();
        assert(write@ + lossy(iter@) =~= sofar + lossy(rest));
    }
}

/// Appends to `string` the text that `bytes` hold, with each ill-formed
/// sequence replaced by U+FFFD.
pub fn string_append_utf8_lossy(string: &mut String, bytes: &[u8])
    ensures
        final(string)@ == old(string)@ + decoded(lossy(bytes@)),
        vstd::utf8::encode_utf8(decoded(lossy(bytes@))) == lossy(bytes@),
{
    let mut writer = StringWriter::new();
    write_utf8_lossy(&mut writer, bytes);
    assert(writer@ =~= lossy(bytes@));
    let text: String = writer.into_string();
    string.append(text.as_str());
}

} // verus!
