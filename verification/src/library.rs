//! The library functions that guest code can call: they find their
//! arguments on the stack, below the top stack variable.

use vstd::prelude::*;
use crate::encoding::{bits_i32, i32_from_bits, lemma_be_round_trip, u64_be};
use crate::interpreter::Runtime;
use crate::runtime::{
    agrees, splice, ErrorKind, IError, Memory, MemoryView, VarPointer, TAG_HEAP, TAG_STACK,
};

verus! {

/// The pointer to the stack variable that lies `k` variables below the last
/// one; the pointer to no variable where the stack holds too few.
pub open spec fn arg_ptr(m: MemoryView, k: int) -> VarPointer {
    VarPointer::make(
        TAG_STACK as int,
        if m.stack.vars.len() >= k {
            m.stack.vars.len() - k
        } else {
            0
        },
        0,
    )
}

/// The pointer to the stack variable that lies `k` variables below the last
/// one.
pub fn arg_pointer(memory: &Memory, k: u16) -> (p: VarPointer)
    requires
        memory.wf(),
    ensures
        p == arg_ptr(memory@, k as int),
{
    let top: u16 = memory.stack_length();
    if top >= k {
        VarPointer::new_stack(top - k, 0)
    } else {
        VarPointer::new_stack(0, 0)
    }
}

/// The pointer one byte further on.
pub open spec fn next_byte(p: VarPointer) -> VarPointer {
    VarPointer::make(p.tag(), p.var(), p.off_plus(1))
}

/// Copying `n` bytes from `src` to `dest`, one byte at a time from the
/// first on. The copy stops at the first byte that cannot be read or
/// written, and what was copied before stays copied.
#[verifier::opaque]
pub open spec fn copy_bytes(m: MemoryView, dest: VarPointer, src: VarPointer, n: nat) -> (
    MemoryView,
    Result<(), ErrorKind>,
)
    decreases n,
{
    if n == 0 {
        (m, Ok(()))
    } else {
        match m.read_u8(src) {
            Err(kind) => (m, Err(kind)),
            Ok(byte) => match m.write(dest, seq![byte]).1 {
                Err(kind) => (m, Err(kind)),
                Ok(_) => copy_bytes(
                    m.write(dest, seq![byte]).0,
                    next_byte(dest),
                    next_byte(src),
                    (n - 1) as nat,
                ),
            },
        }
    }
}

/// Copies `n` bytes from `src` to `dest`.
pub fn copy(memory: &mut Memory, dest: VarPointer, src: VarPointer, n: u64) -> (r: Result<
    (),
    IError,
>)
    requires
        old(memory).wf(),
    ensures
        final(memory).wf(),
        final(memory)@ == copy_bytes(old(memory)@, dest, src, n as nat).0,
        final(memory)@.same_control(old(memory)@),
        agrees(r, copy_bytes(old(memory)@, dest, src, n as nat).1),
{
    let mut from: VarPointer = src;
    let mut to: VarPointer = dest;
    let mut left: u64 = n;
    proof {
        reveal(copy_bytes);
    }
    while left > 0
        invariant
            memory.wf(),
            memory@.same_control(old(memory)@),
            copy_bytes(old(memory)@, dest, src, n as nat) == copy_bytes(
                memory@,
                to,
                from,
                left as nat,
            ),
        decreases left,
    {
        proof {
            reveal(copy_bytes);
        }
        let byte: u8 = match memory.get_u8(from) {
            Ok(byte) => byte,
            Err(e) => {
                return Err(e);
            },
        };
        let mut bytes: Vec<u8> = Vec::new();
        bytes.push(byte);
        assert(bytes@ =~= seq![byte]);
        match memory.write_bytes(to, &bytes) {
            Ok(_) => {},
            Err(e) => {
                return Err(e);
            },
        }
        from = from.add(1);
        to = to.add(1);
        left = left - 1;
    }
    Ok(())
}

/// What `malloc` does: it reads the size from the last stack variable,
/// allocates a heap variable of that size, and writes a pointer to it into
/// the stack variable below.
pub open spec fn malloc_step(m: MemoryView) -> (MemoryView, Result<Option<i32>, ErrorKind>) {
    match m.read_u64(arg_ptr(m, 0)) {
        Err(kind) => (m, Err(kind)),
        Ok(size) => if size > u32::MAX {
            (m, Err(ErrorKind::OutOfMemory))
        } else {
            match m.add_heap_var(size as u32).1 {
                Err(kind) => (m, Err(kind)),
                Ok(ptr) => match m.add_heap_var(size as u32).0.write(
                    arg_ptr(m, 1),
                    u64_be(ptr.value),
                ).1 {
                    Err(kind) => (m.add_heap_var(size as u32).0, Err(kind)),
                    Ok(_) => (
                        m.add_heap_var(size as u32).0.write(arg_ptr(m, 1), u64_be(ptr.value)).0,
                        Ok(None),
                    ),
                },
            }
        },
    }
}

/// Allocates heap memory for the guest.
pub fn malloc(sel: &mut Runtime) -> (r: Result<Option<i32>, IError>)
    requires
        old(sel).wf(),
    ensures
        final(sel).wf(),
        final(sel).same_setup(old(sel)),
        final(sel).memory@.same_control(old(sel).memory@),
        final(sel).memory@ == malloc_step(old(sel).memory@).0,
        agrees(r, malloc_step(old(sel).memory@).1),
{
    let top_ptr = arg_pointer(&sel.memory, 0);
    let ret_ptr = arg_pointer(&sel.memory, 1);
    let size: u64 = match sel.memory.get_u64(top_ptr) {
        Ok(size) => size,
        Err(e) => {
            return Err(e);
        },
    };
    if size > u32::MAX as u64 {
        return Err(IError::of_kind(ErrorKind::OutOfMemory));
    }
    let var_pointer = match sel.memory.add_heap_var(size as u32) {
        Ok(ptr) => ptr,
        Err(e) => {
            return Err(e);
        },
    };
    match sel.memory.set_u64(ret_ptr, var_pointer.value) {
        Ok(_) => Ok(None),
        Err(e) => Err(e),
    }
}

/// What `realloc` does: it reads the size from the last stack variable and
/// the old pointer from the one below, allocates a heap variable of that
/// size, copies that many bytes from the old variable into it, and writes a
/// pointer to it into the stack variable below the two. The old pointer
/// must point to the first byte of a heap variable.
pub open spec fn realloc_step(m: MemoryView) -> (MemoryView, Result<Option<i32>, ErrorKind>) {
    match m.read_u64(arg_ptr(m, 1)) {
        Err(kind) => (m, Err(kind)),
        Ok(from) => if (VarPointer { value: from }).tag() != TAG_HEAP {
            (m, Err(ErrorKind::NotFromHeap))
        } else if (VarPointer { value: from }).off() != 0 {
            (m, Err(ErrorKind::OffAllocation((VarPointer { value: from }).off() as u32)))
        } else {
            match m.read_u64(arg_ptr(m, 0)) {
                Err(kind) => (m, Err(kind)),
                Ok(size) => if size > u32::MAX {
                    (m, Err(ErrorKind::OutOfMemory))
                } else {
                    match m.add_heap_var(size as u32).1 {
                        Err(kind) => (m, Err(kind)),
                        Ok(ptr) => realloc_fill(
                            m.add_heap_var(size as u32).0,
                            ptr,
                            VarPointer { value: from },
                            size,
                            arg_ptr(m, 2),
                        ),
                    }
                },
            }
        },
    }
}

/// The second half of `realloc`: the copy into the new variable, and the
/// write of the new pointer to `ret`.
pub open spec fn realloc_fill(
    m: MemoryView,
    fresh: VarPointer,
    src: VarPointer,
    size: u64,
    ret: VarPointer,
) -> (MemoryView, Result<Option<i32>, ErrorKind>) {
    match copy_bytes(m, fresh, src, size as nat).1 {
        Err(kind) => (copy_bytes(m, fresh, src, size as nat).0, Err(kind)),
        Ok(_) => match copy_bytes(m, fresh, src, size as nat).0.write(ret, u64_be(fresh.value)).1 {
            Err(kind) => (copy_bytes(m, fresh, src, size as nat).0, Err(kind)),
            Ok(_) => (
                copy_bytes(m, fresh, src, size as nat).0.write(ret, u64_be(fresh.value)).0,
                Ok(None),
            ),
        },
    }
}

/// Copies `size` bytes from `src` to `fresh` and writes `fresh` to `ret`.
fn fill(memory: &mut Memory, fresh: VarPointer, src: VarPointer, size: u64, ret: VarPointer) -> (r:
    Result<Option<i32>, IError>)
    requires
        old(memory).wf(),
    ensures
        final(memory).wf(),
        final(memory)@ == realloc_fill(old(memory)@, fresh, src, size, ret).0,
        final(memory)@.same_control(old(memory)@),
        agrees(r, realloc_fill(old(memory)@, fresh, src, size, ret).1),
{
    match copy(memory, fresh, src, size) {
        Ok(_) => {},
        Err(e) => {
            return Err(e);
        },
    }
    match memory.set_u64(ret, fresh.value) {
        Ok(_) => Ok(None),
        Err(e) => Err(e),
    }
}

/// Moves a heap variable of the guest into a new variable of another size.
pub fn realloc(sel: &mut Runtime) -> (r: Result<Option<i32>, IError>)
    requires
        old(sel).wf(),
    ensures
        final(sel).wf(),
        final(sel).same_setup(old(sel)),
        final(sel).memory@.same_control(old(sel).memory@),
        final(sel).memory@ == realloc_step(old(sel).memory@).0,
        agrees(r, realloc_step(old(sel).memory@).1),
{
    let size_ptr = arg_pointer(&sel.memory, 0);
    let to_free_ptr = arg_pointer(&sel.memory, 1);
    let ret_ptr = arg_pointer(&sel.memory, 2);
    let to_free = match sel.memory.get_u64(to_free_ptr) {
        Ok(value) => VarPointer { value },
        Err(e) => {
            return Err(e);
        },
    };
    if !to_free.is_heap() {
        return Err(IError::of_kind(ErrorKind::NotFromHeap));
    }
    if to_free.offset() != 0 {
        return Err(IError::of_kind(ErrorKind::OffAllocation(to_free.offset())));
    }
    let size: u64 = match sel.memory.get_u64(size_ptr) {
        Ok(size) => size,
        Err(e) => {
            return Err(e);
        },
    };
    if size > u32::MAX as u64 {
        return Err(IError::of_kind(ErrorKind::OutOfMemory));
    }
    let new_alloc_ptr = match sel.memory.add_heap_var(size as u32) {
        Ok(ptr) => ptr,
        Err(e) => {
            return Err(e);
        },
    };
    fill(&mut sel.memory, new_alloc_ptr, to_free, size, ret_ptr)
}

/// What `memcpy` does: it reads the size from the last stack variable, the
/// source from the one below and the destination from the one below that,
/// copies, and writes the destination into the stack variable below the
/// three.
pub open spec fn memcpy_step(m: MemoryView) -> (MemoryView, Result<Option<i32>, ErrorKind>) {
    match m.read_u64(arg_ptr(m, 0)) {
        Err(kind) => (m, Err(kind)),
        Ok(size) => match m.read_u64(arg_ptr(m, 1)) {
            Err(kind) => (m, Err(kind)),
            Ok(src) => match m.read_u64(arg_ptr(m, 2)) {
                Err(kind) => (m, Err(kind)),
                Ok(dest) => realloc_fill(
                    m,
                    VarPointer { value: dest },
                    VarPointer { value: src },
                    size,
                    arg_ptr(m, 3),
                ),
            },
        },
    }
}

/// Copies bytes for the guest.
pub fn memcpy(sel: &mut Runtime) -> (r: Result<Option<i32>, IError>)
    requires
        old(sel).wf(),
    ensures
        final(sel).wf(),
        final(sel).same_setup(old(sel)),
        final(sel).memory@.same_control(old(sel).memory@),
        final(sel).memory@ == memcpy_step(old(sel).memory@).0,
        agrees(r, memcpy_step(old(sel).memory@).1),
{
    let size_param_ptr = arg_pointer(&sel.memory, 0);
    let src_param_ptr = arg_pointer(&sel.memory, 1);
    let dest_param_ptr = arg_pointer(&sel.memory, 2);
    let ret_ptr = arg_pointer(&sel.memory, 3);
    let size: u64 = match sel.memory.get_u64(size_param_ptr) {
        Ok(size) => size,
        Err(e) => {
            return Err(e);
        },
    };
    let src = match sel.memory.get_u64(src_param_ptr) {
        Ok(value) => VarPointer { value },
        Err(e) => {
            return Err(e);
        },
    };
    let dest = match sel.memory.get_u64(dest_param_ptr) {
        Ok(value) => VarPointer { value },
        Err(e) => {
            return Err(e);
        },
    };
    fill(&mut sel.memory, dest, src, size, ret_ptr)
}

/// What `free` does: it reads the pointer from the last stack variable and
/// leaves the memory as it is. Heap variables live as long as the machine.
pub open spec fn free_step(m: MemoryView) -> (MemoryView, Result<Option<i32>, ErrorKind>) {
    match m.read_u64(arg_ptr(m, 0)) {
        Err(kind) => (m, Err(kind)),
        Ok(_) => (m, Ok(None)),
    }
}

/// Takes a pointer back from the guest.
pub fn free(sel: &mut Runtime) -> (r: Result<Option<i32>, IError>)
    requires
        old(sel).wf(),
    ensures
        final(sel).wf(),
        final(sel).same_setup(old(sel)),
        final(sel).memory@.same_control(old(sel).memory@),
        final(sel).memory@ == free_step(old(sel).memory@).0,
        agrees(r, free_step(old(sel).memory@).1),
{
    let top_ptr = arg_pointer(&sel.memory, 0);
    match sel.memory.get_u64(top_ptr) {
        Ok(_) => Ok(None),
        Err(e) => Err(e),
    }
}

/// What `exit` does: it reads the exit code from the last stack variable
/// and ends the program with it.
pub open spec fn exit_step(m: MemoryView) -> (MemoryView, Result<Option<i32>, ErrorKind>) {
    match m.read_u32(arg_ptr(m, 0)) {
        Err(kind) => (m, Err(kind)),
        Ok(code) => (m, Ok(Some(bits_i32(code)))),
    }
}

/// Ends the program with the exit code that the guest gives.
pub fn exit(sel: &mut Runtime) -> (r: Result<Option<i32>, IError>)
    requires
        old(sel).wf(),
    ensures
        final(sel).wf(),
        final(sel).same_setup(old(sel)),
        final(sel).memory@.same_control(old(sel).memory@),
        final(sel).memory@ == exit_step(old(sel).memory@).0,
        agrees(r, exit_step(old(sel).memory@).1),
{
    let top_ptr = arg_pointer(&sel.memory, 0);
    match sel.memory.get_u32(top_ptr) {
        Ok(code) => Ok(Some(i32_from_bits(code))),
        Err(e) => Err(e),
    }
}

/// Copying bytes onto themselves changes nothing: for every pointer and
/// every count, also where the copy ends early with a fault, the memory
/// after the copy is the memory before it.
pub proof fn lemma_copy_onto_itself(m: MemoryView, p: VarPointer, n: nat)
    requires
        m.wf(),
    ensures
        copy_bytes(m, p, p, n).0 == m,
    decreases n,
{
    reveal(copy_bytes);
    if n > 0 {
        match m.read_u8(p) {
            Err(_) => {},
            Ok(byte) => {
                p.lemma_made_of_parts();
                let start = m.check(p, 1)->Ok_0;
                let seg = m.segment(p.tag());
                let var = seg.vars[p.var() - 1];
                assert(var.idx + var.len <= seg.data.len());
                assert(seg.data.subrange(start, start + 1)[0] == seg.data[start]);
                assert(splice(seg.data, start, seq![byte]) =~= seg.data);
                assert(m.write(p, seq![byte]).0 == m);
                lemma_copy_onto_itself(m, next_byte(p), (n - 1) as nat);
            },
        }
    }
}

/// Copying `n` bytes between two different live variables of the heap,
/// within the bounds of both, succeeds, makes the destination hold the
/// bytes of the source, and changes nothing else.
pub proof fn lemma_copy_between_vars(m: MemoryView, dest: VarPointer, src: VarPointer, n: nat)
    requires
        m.wf(),
        dest.tag() == TAG_HEAP,
        src.tag() == TAG_HEAP,
        m.heap.live(dest.var()),
        m.heap.live(src.var()),
        dest.var() != src.var(),
        dest.off() + n <= m.heap.vars[dest.var() - 1].len,
        src.off() + n <= m.heap.vars[src.var() - 1].len,
    ensures
        copy_bytes(m, dest, src, n).1 is Ok,
        copy_bytes(m, dest, src, n).0 == m.with_written(
            TAG_HEAP as int,
            m.heap.vars[dest.var() - 1].idx + dest.off(),
            m.heap.data.subrange(
                m.heap.vars[src.var() - 1].idx + src.off(),
                m.heap.vars[src.var() - 1].idx + src.off() + n,
            ),
        ),
    decreases n,
{
    reveal(copy_bytes);
    dest.lemma_made_of_parts();
    src.lemma_made_of_parts();
    let dvar = m.heap.vars[dest.var() - 1];
    let svar = m.heap.vars[src.var() - 1];
    let dstart = dvar.idx + dest.off();
    let sstart = svar.idx + src.off();
    assert(dvar.idx + dvar.len <= m.heap.data.len());
    assert(svar.idx + svar.len <= m.heap.data.len());
    if dest.var() < src.var() {
        assert(dvar.idx + dvar.len <= svar.idx);
    } else {
        assert(svar.idx + svar.len <= dvar.idx);
    }
    if n == 0 {
        assert(splice(m.heap.data, dstart, m.heap.data.subrange(sstart, sstart)) =~= m.heap.data);
    } else {
        let byte = m.heap.data[sstart];
        assert(m.heap.data.subrange(sstart, sstart + 1)[0] == byte);
        assert(m.read_u8(src) == Ok::<u8, ErrorKind>(byte));
        let m1 = m.write(dest, seq![byte]).0;
        assert(m1 == m.with_written(TAG_HEAP as int, dstart, seq![byte]));
        let d1 = next_byte(dest);
        let s1 = next_byte(src);
        VarPointer::lemma_parts(dest.tag(), dest.var(), dest.off() + 1);
        VarPointer::lemma_parts(src.tag(), src.var(), src.off() + 1);
        assert(dest.off_plus(1) == dest.off() + 1);
        assert(src.off_plus(1) == src.off() + 1);
        lemma_copy_between_vars(m1, d1, s1, (n - 1) as nat);
        let whole = m.with_written(
            TAG_HEAP as int,
            dstart,
            m.heap.data.subrange(sstart, sstart + n),
        );
        let stepwise = m1.with_written(
            TAG_HEAP as int,
            dstart + 1,
            m1.heap.data.subrange(sstart + 1, sstart + n),
        );
        assert(stepwise.heap.data =~= whole.heap.data);
        assert(stepwise == whole);
    }
}

/// `realloc` keeps the bytes. Let the last stack variable hold a size, the
/// one below it a pointer to the first byte of a live heap variable of at
/// least that size, and let the one below that have room for a pointer.
/// Then, wherever the heap has room for a variable of that size, `realloc`
/// succeeds: the heap has one more variable, of that size, which holds from
/// its first byte on the first bytes of the old variable; the pointer to
/// its first byte is written below the two arguments; and the old variable
/// holds what it held.
pub proof fn lemma_realloc_keeps_bytes(m: MemoryView, old_ptr: VarPointer, size: u32)
    requires
        m.wf(),
        m.read_u64(arg_ptr(m, 0)) == Ok::<u64, ErrorKind>(size as u64),
        m.read_u64(arg_ptr(m, 1)) == Ok::<u64, ErrorKind>(old_ptr.value),
        m.check(arg_ptr(m, 2), 8) is Ok,
        old_ptr.tag() == TAG_HEAP,
        old_ptr.off() == 0,
        m.heap.live(old_ptr.var()),
        size <= m.heap.vars[old_ptr.var() - 1].len,
        m.heap.can_add(size as int),
    ensures
        realloc_step(m).1 == Ok::<Option<i32>, ErrorKind>(None),
        realloc_step(m).0.heap.vars.len() == m.heap.vars.len() + 1,
        realloc_step(m).0.heap.vars.last().len == size,
        realloc_step(m).0.read_u64(arg_ptr(m, 2)) == Ok::<u64, ErrorKind>(
            VarPointer::make(TAG_HEAP as int, (m.heap.vars.len() + 1) as int, 0).value,
        ),
        m.read(old_ptr, size as int) is Ok,
        realloc_step(m).0.read(
            VarPointer::make(TAG_HEAP as int, (m.heap.vars.len() + 1) as int, 0),
            size as int,
        ) == m.read(old_ptr, size as int),
        realloc_step(m).0.read(old_ptr, m.heap.vars[old_ptr.var() - 1].len as int) == m.read(
            old_ptr,
            m.heap.vars[old_ptr.var() - 1].len as int,
        ),
{
    let ret = arg_ptr(m, 2);
    let grown = m.add_heap_var(size).0;
    let fresh = VarPointer::make(TAG_HEAP as int, (m.heap.vars.len() + 1) as int, 0);
    old_ptr.lemma_made_of_parts();
    assert(old_ptr == VarPointer { value: old_ptr.value });
    VarPointer::lemma_parts(TAG_HEAP as int, (m.heap.vars.len() + 1) as int, 0);
    let svar = m.heap.vars[old_ptr.var() - 1];
    assert(grown.heap.vars[old_ptr.var() - 1] == svar);
    assert(svar.idx + svar.len <= m.heap.data.len());
    lemma_copy_between_vars(grown, fresh, old_ptr, size as nat);
    let copied = copy_bytes(grown, fresh, old_ptr, size as nat).0;
    ret.lemma_made_of_parts();
    VarPointer::lemma_parts(
        TAG_STACK as int,
        if m.stack.vars.len() >= 2 {
            m.stack.vars.len() - 2
        } else {
            0
        },
        0,
    );
    assert(copied.stack == m.stack);
    assert(copied.check(ret, 8) == m.check(ret, 8));
    lemma_be_round_trip(0, 0, fresh.value);
    let last = copied.write(ret, u64_be(fresh.value)).0;
    assert(realloc_step(m) == (last, Ok::<Option<i32>, ErrorKind>(None)));
    assert(last.heap == copied.heap);
    let start = m.check(ret, 8)->Ok_0;
    let slot = m.stack.vars[ret.var() - 1];
    assert(slot.idx + slot.len <= m.stack.data.len());
    assert(last.read(ret, 8)->Ok_0 =~= u64_be(fresh.value));
    assert(last.read(fresh, size as int) is Ok);
    assert(last.read(fresh, size as int)->Ok_0 =~= m.read(old_ptr, size as int)->Ok_0);
    assert(last.read(old_ptr, svar.len as int)->Ok_0 =~= m.read(old_ptr, svar.len as int)->Ok_0);
}

} // verus!
