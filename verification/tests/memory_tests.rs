use tci::runtime::{
    ErrorKind, IError, Memory, Var, VarBuffer, VarPointer, META_NO_SYMBOL, TAG_BINARY, TAG_HEAP,
    TAG_STACK,
};
use tci::util::l;

fn memory() -> Memory {
    Memory::new_with_binary(VarBuffer::new())
}

fn kind(result: Result<impl std::fmt::Debug, IError>) -> String {
    result.unwrap_err().short_name
}

#[test]
fn pointers_hold_tag_variable_and_offset() {
    let stack = VarPointer::new_stack(5, 7);
    assert_eq!(stack.value, 0x4000_0005_0000_0007);
    assert!(stack.is_stack() && !stack.is_heap() && !stack.is_binary());
    let heap = VarPointer::new_heap(0x3FFF_FFFF, 0xFFFF_FFFF);
    assert_eq!(heap.value, 0xBFFF_FFFF_FFFF_FFFF);
    assert!(heap.is_heap());
    assert_eq!(heap.var_idx(), 0x3FFF_FFFF);
    assert_eq!(heap.offset(), 0xFFFF_FFFF);
    let binary = VarPointer::new_binary(1, 2);
    assert_eq!(binary.value, 0xC000_0001_0000_0002);
    assert!(binary.is_binary());
    assert_eq!((TAG_STACK, TAG_HEAP, TAG_BINARY), (1, 2, 3));
    let null = VarPointer { value: 9 };
    assert!(!null.is_stack() && !null.is_heap() && !null.is_binary());
}

#[test]
fn pointer_offsets_wrap_within_32_bits() {
    let p = VarPointer::new_heap(3, 0xFFFF_FFFE);
    assert_eq!(p.add(1).offset(), 0xFFFF_FFFF);
    assert_eq!(p.add(2).offset(), 0);
    assert_eq!(p.add(2).var_idx(), 3);
    assert!(p.add(2).is_heap());
    assert_eq!(p.add(0x1_0000_0005).offset(), 3);
    assert_eq!(p.with_offset(12).value, VarPointer::new_heap(3, 12).value);
}

#[test]
fn variables_are_laid_out_in_order() {
    let mut buffer = VarBuffer::new();
    assert_eq!(buffer.add_var(3, 7), Some(1));
    assert_eq!(buffer.add_var(0, 8), Some(2));
    assert_eq!(buffer.add_var(2, 9), Some(3));
    assert_eq!(buffer.data, vec![0; 5]);
    assert_eq!(buffer.vars[2], Var { idx: 3, len: 2, meta: 9 });
    assert_eq!(buffer.check(1, 1, 2), Ok(1));
    assert_eq!(buffer.check(3, 0, 2), Ok(3));
    assert_eq!(buffer.check(2, 0, 0), Ok(3));
    assert_eq!(buffer.check(0, 0, 0), Err(ErrorKind::InvalidPointer));
    assert_eq!(buffer.check(4, 0, 0), Err(ErrorKind::InvalidPointer));
    assert_eq!(buffer.check(1, 2, 2), Err(ErrorKind::SegfaultOutOfBounds));
    assert_eq!(buffer.check(2, 0, 1), Err(ErrorKind::SegfaultOutOfBounds));
    buffer.write(1, &vec![5, 6]);
    assert_eq!(buffer.read(0, 5), vec![0, 5, 6, 0, 0]);
}

#[test]
fn the_operand_stack_is_last_in_first_out() {
    let mut m = memory();
    m.push_u8(0xAB).unwrap();
    m.push_u16(0x0102).unwrap();
    m.push_u32(0x0304_0506).unwrap();
    m.push_u64(0x0708_090A_0B0C_0D0E).unwrap();
    assert_eq!(m.temp_len(), 15);
    assert_eq!(m.stack.data, vec![0xAB, 1, 2, 3, 4, 5, 6, 7, 8, 9, 10, 11, 12, 13, 14]);
    assert_eq!(m.pop_u64().unwrap(), 0x0708_090A_0B0C_0D0E);
    assert_eq!(m.pop_u32().unwrap(), 0x0304_0506);
    assert_eq!(m.pop_u16().unwrap(), 0x0102);
    assert_eq!(m.pop_u8().unwrap(), 0xAB);
    assert_eq!(m.temp_len(), 0);
}

#[test]
fn popping_too_much_underflows_and_changes_nothing() {
    let mut m = memory();
    m.push_u16(0x0102).unwrap();
    assert_eq!(kind(m.pop_u32()), "StackUnderflow");
    assert_eq!(kind(m.pop_u64()), "StackUnderflow");
    assert_eq!(kind(m.pop_bytes(3)), "StackUnderflow");
    assert_eq!(kind(m.pop_vec(3)), "StackUnderflow");
    assert_eq!(kind(m.dup_top_stack_bytes(3)), "StackUnderflow");
    assert_eq!(kind(m.pop_keep_bytes(2, 1)), "StackUnderflow");
    assert_eq!(kind(m.swap_bytes(2, 1)), "StackUnderflow");
    assert_eq!(kind(m.pop_keep_bytes(u32::MAX, u32::MAX)), "StackUnderflow");
    assert_eq!(m.stack.data, vec![1, 2]);
    let mut empty = memory();
    assert_eq!(kind(empty.pop_u8()), "StackUnderflow");
    assert_eq!(kind(empty.pop_u16()), "StackUnderflow");
}

#[test]
fn operand_bytes_below_a_stack_variable_cannot_be_popped() {
    let mut m = memory();
    m.push_u32(7).unwrap();
    m.add_stack_var(2, META_NO_SYMBOL).unwrap();
    assert_eq!(m.temp_len(), 0);
    assert_eq!(kind(m.pop_u8()), "StackUnderflow");
    m.pop_stack_var().unwrap();
    assert_eq!(m.pop_u32().unwrap(), 7);
}

#[test]
fn bytes_are_duplicated_kept_and_swapped() {
    let mut m = memory();
    m.push_bytes(&vec![1, 2, 3, 4, 5]).unwrap();
    m.dup_top_stack_bytes(2).unwrap();
    assert_eq!(m.stack.data, vec![1, 2, 3, 4, 5, 4, 5]);
    m.pop_keep_bytes(2, 3).unwrap();
    assert_eq!(m.stack.data, vec![1, 2, 4, 5]);
    m.swap_bytes(1, 2).unwrap();
    assert_eq!(m.stack.data, vec![1, 5, 2, 4]);
    m.swap_bytes(0, 4).unwrap();
    assert_eq!(m.stack.data, vec![1, 5, 2, 4]);
    m.pop_keep_bytes(0, 4).unwrap();
    assert_eq!(m.stack.data, Vec::<u8>::new());
}

#[test]
fn stack_variables_are_allocated_and_freed_in_order() {
    let mut m = memory();
    let before = m.stack.vars.len();
    let first = m.add_stack_var(4, 11).unwrap();
    assert_eq!(first.value, VarPointer::new_stack(1, 0).value);
    let second = m.add_stack_var(2, 12).unwrap();
    assert_eq!(second.value, VarPointer::new_stack(2, 0).value);
    assert_eq!(m.stack_length(), 2);
    assert_eq!(m.pop_stack_var().unwrap(), Var { idx: 4, len: 2, meta: 12 });
    assert_eq!(m.pop_stack_var().unwrap(), Var { idx: 0, len: 4, meta: 11 });
    assert_eq!(m.stack.vars.len(), before);
    assert_eq!(m.stack.data.len(), 0);
    assert_eq!(kind(m.pop_stack_var()), "StackUnderflow");
    assert_eq!(kind(m.pop_stack_var_onto_stack()), "StackUnderflow");
}

#[test]
fn a_frame_cannot_free_the_variables_of_its_caller() {
    let mut m = memory();
    m.add_stack_var(4, META_NO_SYMBOL).unwrap();
    m.call(10, 3, l(0, 1, 0)).unwrap();
    assert_eq!(m.fp, 2);
    assert_eq!(kind(m.pop_stack_var()), "StackUnderflow");
    m.add_stack_var(1, META_NO_SYMBOL).unwrap();
    m.pop_stack_var().unwrap();
    assert_eq!(kind(m.pop_stack_var()), "StackUnderflow");
}

#[test]
fn a_stack_variable_becomes_operand_bytes() {
    let mut m = memory();
    let slot = m.add_stack_var(4, META_NO_SYMBOL).unwrap();
    m.set_u32(slot, 0xDEAD_BEEF).unwrap();
    m.pop_stack_var_onto_stack().unwrap();
    assert_eq!(m.stack_length(), 0);
    assert_eq!(m.pop_u32().unwrap(), 0xDEAD_BEEF);
}

#[test]
fn reads_and_writes_go_through_pointers() {
    let mut m = memory();
    let heap = m.add_heap_var(8).unwrap();
    assert!(heap.is_heap());
    assert_eq!(heap.var_idx(), 1);
    m.set_u64(heap, 0x0102_0304_0506_0708).unwrap();
    assert_eq!(m.get_u32(heap.add(4)).unwrap(), 0x0506_0708);
    assert_eq!(m.get_u8(heap.add(7)).unwrap(), 8);
    assert_eq!(m.read_bytes(heap.add(6), 2).unwrap(), vec![7, 8]);
    assert_eq!(m.get_var_slice(heap.add(5)).unwrap(), vec![6, 7, 8]);
    m.write_bytes(heap.add(1), &vec![9, 9]).unwrap();
    assert_eq!(m.heap.data, vec![1, 9, 9, 4, 5, 6, 7, 8]);
}

#[test]
fn invalid_pointers_and_accesses_out_of_bounds_are_told_apart() {
    let mut m = memory();
    let heap = m.add_heap_var(4).unwrap();
    assert_eq!(kind(m.get_u32(VarPointer { value: 0 })), "InvalidPointer");
    assert_eq!(kind(m.get_u32(VarPointer { value: 5 })), "InvalidPointer");
    assert_eq!(kind(m.get_u32(VarPointer::new_heap(2, 0))), "InvalidPointer");
    assert_eq!(kind(m.get_u32(VarPointer::new_heap(0, 0))), "InvalidPointer");
    assert_eq!(kind(m.get_u32(VarPointer::new_stack(1, 0))), "InvalidPointer");
    assert_eq!(kind(m.get_u32(VarPointer::new_binary(1, 0))), "InvalidPointer");
    assert_eq!(kind(m.get_u32(heap.add(1))), "SegfaultOutOfBounds");
    assert_eq!(kind(m.get_u64(heap)), "SegfaultOutOfBounds");
    assert_eq!(kind(m.set_u64(heap, 1)), "SegfaultOutOfBounds");
    assert_eq!(kind(m.get_var_slice(heap.add(5))), "SegfaultOutOfBounds");
    assert_eq!(m.get_var_slice(heap.add(4)).unwrap(), Vec::<u8>::new());
    assert_eq!(m.heap.data, vec![0; 4]);
}

#[test]
fn bytes_move_between_the_operand_stack_and_variables() {
    let mut m = memory();
    let slot = m.add_stack_var(4, META_NO_SYMBOL).unwrap();
    m.push_u32(0x0A0B_0C0D).unwrap();
    m.pop_stack_bytes_into(slot.add(1), 2).unwrap();
    assert_eq!(m.stack.data, vec![0, 0x0C, 0x0D, 0, 0x0A, 0x0B]);
    m.push_stack_bytes_from(slot, 4).unwrap();
    assert_eq!(m.stack.data, vec![0, 0x0C, 0x0D, 0, 0x0A, 0x0B, 0, 0x0C, 0x0D, 0]);
    assert_eq!(kind(m.pop_stack_bytes_into(slot, 9)), "StackUnderflow");
    assert_eq!(kind(m.pop_stack_bytes_into(slot.add(3), 2)), "SegfaultOutOfBounds");
    assert_eq!(kind(m.push_stack_bytes_from(slot, 5)), "SegfaultOutOfBounds");
    assert_eq!(m.temp_len(), 6);
}

#[test]
fn a_call_followed_by_a_return_restores_the_frame() {
    let mut m = memory();
    m.add_stack_var(4, META_NO_SYMBOL).unwrap();
    m.push_u8(1).unwrap();
    m.jump(41);
    let (fp, vars, data) = (m.fp, m.stack.vars.clone(), m.stack.data.clone());
    m.call(100, 7, l(2, 3, 0)).unwrap();
    assert_eq!((m.fp, m.pc), (2, 100));
    assert_eq!(m.callstack.len(), 1);
    assert_eq!((m.callstack[0].fp, m.callstack[0].pc, m.callstack[0].name), (fp, 42, 7));
    assert_eq!(m.callstack[0].loc, l(2, 3, 0));
    m.ret().unwrap();
    assert_eq!((m.fp, m.pc), (fp, 42));
    assert_eq!(m.stack.vars, vars);
    assert_eq!(m.stack.data, data);
    assert_eq!(m.callstack.len(), 0);
    assert_eq!(kind(m.ret()), "StackUnderflow");
}

#[test]
fn a_return_frees_the_variables_of_the_frame() {
    let mut m = memory();
    m.add_stack_var(4, META_NO_SYMBOL).unwrap();
    m.call(100, 7, l(2, 3, 0)).unwrap();
    m.add_stack_var(8, META_NO_SYMBOL).unwrap();
    m.add_stack_var(8, META_NO_SYMBOL).unwrap();
    m.push_u32(5).unwrap();
    m.ret().unwrap();
    assert_eq!(m.stack_length(), 1);
    assert_eq!(m.stack.data.len(), 4);
}

#[test]
fn local_indices_are_relative_to_the_frame_pointer() {
    let mut m = memory();
    m.add_stack_var(4, META_NO_SYMBOL).unwrap();
    m.add_stack_var(4, META_NO_SYMBOL).unwrap();
    m.call(100, 7, l(2, 3, 0)).unwrap();
    assert_eq!(m.fp, 3);
    assert_eq!(m.fp_offset(0), 3);
    assert_eq!(m.fp_offset(2), 5);
    assert_eq!(m.fp_offset(-1), 2);
    assert_eq!(m.fp_offset(-2), 1);
    assert_eq!(m.fp_offset(-3), 0);
    assert_eq!(m.fp_offset(-4), 0);
    assert_eq!(m.fp_offset(i16::MIN), 0);
}

#[test]
fn output_is_taken_once() {
    let mut m = memory();
    m.write_stdout(&b"ab".to_vec());
    m.write_stdout(&b"c".to_vec());
    assert_eq!(m.events(), b"abc".to_vec());
    assert_eq!(m.events(), Vec::<u8>::new());
}

#[test]
fn faults_carry_the_short_name_of_their_kind() {
    let all = [
        (ErrorKind::InvalidPointer, "InvalidPointer"),
        (ErrorKind::NotFromHeap, "InvalidPointer"),
        (ErrorKind::OffAllocation(3), "InvalidPointer"),
        (ErrorKind::SegfaultOutOfBounds, "SegfaultOutOfBounds"),
        (ErrorKind::StackUnderflow, "StackUnderflow"),
        (ErrorKind::StackOverflow, "StackOverflow"),
        (ErrorKind::OutOfMemory, "OutOfMemory"),
        (ErrorKind::DivisionByZero, "DivisionByZero"),
        (ErrorKind::InvalidLibraryFunction(6), "InvalidLibraryFunction"),
        (ErrorKind::InvalidEnviromentCall(3), "InvalidEnviromentCall"),
        (ErrorKind::InvalidArgumentIndex(2), "InvalidArgumentIndex"),
        (ErrorKind::MissingNullTerminator, "MissingNullTerminator"),
        (ErrorKind::LonePercent, "InvalidFormatString"),
        (ErrorKind::CutOffConversion, "InvalidFormatString"),
        (ErrorKind::InvalidFormatString(b'x'), "InvalidFormatString"),
        (ErrorKind::WriteFailed, "WriteFailed"),
    ];
    for (kind, name) in all {
        assert_eq!(kind.short_name(), name);
        assert_eq!(IError::of_kind(kind).short_name, name);
        assert!(!IError::of_kind(kind).message.is_empty());
    }
    let custom = IError::new("Custom", "text".to_string());
    assert_eq!((custom.short_name.as_str(), custom.message.as_str()), ("Custom", "text"));
}

#[test]
fn messages_hold_the_value_of_the_fault() {
    let message = |kind: ErrorKind| IError::of_kind(kind).message;
    assert_eq!(
        message(ErrorKind::InvalidLibraryFunction(999)),
        "library function symbol '999' is invalid (this is a problem with tci)"
    );
    assert_eq!(
        message(ErrorKind::InvalidArgumentIndex(u32::MAX)),
        "Argument index 4294967295 is invalid (this is a problem with tci)"
    );
    assert_eq!(message(ErrorKind::InvalidEnviromentCall(0)), "invalid ecall value of 0");
    assert_eq!(message(ErrorKind::InvalidEnviromentCall(10)), "invalid ecall value of 10");
    assert_eq!(
        message(ErrorKind::OffAllocation(12)),
        "called realloc on a pointer that was 12 bytes off of its allocation"
    );
    assert_eq!(
        message(ErrorKind::NotFromHeap),
        "called realloc on a pointer that was not from the heap"
    );
    assert_eq!(message(ErrorKind::InvalidFormatString(b'q')), "got byte 'q' after '%'");
    assert_eq!(message(ErrorKind::InvalidFormatString(0xE9)), "got byte '\u{E9}' after '%'");
    assert_eq!(
        message(ErrorKind::LonePercent),
        "format string ends with a single '%'; to print out a '%' use '%%'"
    );
    assert_eq!(message(ErrorKind::MissingNullTerminator), "string missing null terminator");
    for byte in 0..=255u8 {
        let text = format!("got byte '{}' after '%'", char::from(byte));
        assert_eq!(message(ErrorKind::InvalidFormatString(byte)), text);
        assert_eq!(ErrorKind::InvalidFormatString(byte).describe(), text);
    }
    for value in [0u32, 7, 9, 10, 11, 99, 100, 101, 65535, 1 << 31, u32::MAX - 1] {
        let text = format!("invalid ecall value of {}", value);
        assert_eq!(ErrorKind::InvalidEnviromentCall(value).describe(), text);
    }
}

#[test]
fn the_stack_holds_at_most_65535_variables() {
    let mut m = memory();
    for _ in 0..0xFFFF {
        m.add_stack_var(0, META_NO_SYMBOL).unwrap();
    }
    assert_eq!(kind(m.add_stack_var(0, META_NO_SYMBOL)), "StackOverflow");
    assert_eq!(kind(m.call(1, 2, l(0, 0, 0))), "StackOverflow");
    assert_eq!(m.stack_length(), 0xFFFF);
}

#[test]
fn buffers_are_checked_for_their_shape() {
    let mut buffer = VarBuffer::new();
    assert!(buffer.is_wf());
    buffer.add_var(3, 0);
    buffer.data.push(9);
    buffer.add_var(2, 0);
    assert!(buffer.is_wf());
    let with = |vars: Vec<Var>, bytes: usize| VarBuffer { data: vec![0; bytes], vars }.is_wf();
    let var = |idx, len| Var { idx, len, meta: 0 };
    assert!(with(vec![var(0, 0), var(0, 4), var(4, 0), var(6, 2)], 8));
    assert!(!with(vec![var(0, 5)], 4));
    assert!(!with(vec![var(5, 0)], 4));
    assert!(!with(vec![var(0, 3), var(2, 1)], 4));
    assert!(!with(vec![var(2, 1), var(0, 1)], 4));
    assert!(!with(vec![var(usize::MAX, 1)], 4));
    assert!(!with(vec![var(0, u32::MAX)], 4));
}
