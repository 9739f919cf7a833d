use tci::filedb::{
    FileDb, EXIT_SYMBOL, FREE_SYMBOL, MAIN_SYMBOL, MALLOC_SYMBOL, MEMCPY_SYMBOL, REALLOC_SYMBOL,
};
use tci::interpreter::{
    classify, divide_i32, divide_i64, op_is_in_range, OpClass, Opcode, Program, Runtime,
    RuntimeDiagnostic, TaggedOpcode, ECALL_ARGC, ECALL_ARGV, ECALL_EXIT,
};
use tci::runtime::{ErrorKind, IError, VarBuffer, VarPointer};
use tci::util::{l, no_file, CodeLoc, StringArray};

fn here(n: u32) -> CodeLoc {
    l(n, n + 2, 0)
}

/// A program that starts with the header of `main`, runs `body`, and ends
/// with `Ret`. The opcode at index `i` carries the location `here(i)`.
fn program(body: Vec<Opcode>) -> Program {
    let mut all = vec![Opcode::Func(MAIN_SYMBOL)];
    all.extend(body);
    all.push(Opcode::Ret);
    let ops = all
        .into_iter()
        .enumerate()
        .map(|(i, op)| TaggedOpcode { op, loc: here(i as u32) })
        .collect();
    let program = Program { files: FileDb::new(), ops, data: VarBuffer::new(), main_idx: 0 };
    assert!(program.check());
    program
}

fn machine(body: Vec<Opcode>) -> Runtime {
    Runtime::new(program(body), StringArray::new())
}

fn machine_with_args(body: Vec<Opcode>, args: &[&str]) -> Runtime {
    let mut array = StringArray::new();
    for arg in args {
        array.push(arg);
    }
    Runtime::new(program(body), array)
}

/// Runs the header and then `count` opcodes of the body.
fn after(body: Vec<Opcode>) -> Runtime {
    let count = body.len() as u32;
    let mut runtime = machine(body);
    assert_eq!(runtime.run_op_count(count + 1).unwrap(), None);
    runtime
}

fn fault(body: Vec<Opcode>) -> IError {
    let count = body.len() as u32;
    machine(body).run_op_count(count + 1).unwrap_err()
}

fn operands(runtime: &Runtime) -> Vec<u8> {
    let upper = runtime.memory.stack.data.len() - runtime.memory.temp_len();
    runtime.memory.stack.data[upper..].to_vec()
}

/// Runs `body` and then exits with the 32-bit value on top of the stack.
fn exit_code(mut body: Vec<Opcode>) -> i32 {
    body.push(Opcode::Ecall(ECALL_EXIT));
    machine(body).run_op_count(1000).unwrap().unwrap()
}

#[test]
fn a_machine_starts_in_the_frame_of_main() {
    let runtime = machine(vec![]);
    assert_eq!(
        runtime.diagnostic(),
        RuntimeDiagnostic { callstack: 1, fp: 2, pc: 0, loc: here(0) }
    );
    assert_eq!(runtime.memory.stack.vars.len(), 1);
    assert_eq!(runtime.memory.stack.vars[0].len, 4);
    assert_eq!(runtime.memory.callstack[0].loc, no_file());
    assert_eq!(runtime.memory.callstack[0].name, MAIN_SYMBOL);
    assert_eq!(runtime.memory.callstack[0].fp, 1);
}

#[test]
fn returning_from_main_ends_the_program_with_its_value() {
    let body = vec![
        Opcode::MakeTempI32(-3),
        Opcode::SetLocal { var: -1, offset: 0, bytes: 4 },
    ];
    assert_eq!(machine(body).run_op_count(10).unwrap(), Some(-3));
    assert_eq!(machine(vec![]).run_op_count(10).unwrap(), Some(0));
    assert_eq!(machine(vec![]).run_op_count(1).unwrap(), None);
}

#[test]
fn constants_are_pushed_most_significant_byte_first() {
    assert_eq!(operands(&after(vec![Opcode::MakeTempI8(-2)])), vec![0xFE]);
    assert_eq!(operands(&after(vec![Opcode::MakeTempI32(0x0102_0304)])), vec![1, 2, 3, 4]);
    assert_eq!(operands(&after(vec![Opcode::MakeTempI32(-2)])), vec![0xFF, 0xFF, 0xFF, 0xFE]);
    assert_eq!(
        operands(&after(vec![Opcode::MakeTempI64(-2)])),
        vec![0xFF, 0xFF, 0xFF, 0xFF, 0xFF, 0xFF, 0xFF, 0xFE]
    );
    assert_eq!(
        operands(&after(vec![Opcode::MakeTempU64(0x0102_0304_0506_0708)])),
        vec![1, 2, 3, 4, 5, 6, 7, 8]
    );
    assert_eq!(
        operands(&after(vec![Opcode::MakeTempF64(1.5f64.to_bits())])),
        1.5f64.to_be_bytes().to_vec()
    );
    assert_eq!(
        operands(&after(vec![Opcode::MakeTempBinaryPtr { var: 2, offset: 9 }])),
        0xC000_0002_0000_0009u64.to_be_bytes().to_vec()
    );
    assert_eq!(
        operands(&after(vec![Opcode::MakeTempLocalStackPtr { var: 1, offset: 9 }])),
        VarPointer::new_stack(3, 9).value.to_be_bytes().to_vec()
    );
    assert_eq!(operands(&after(vec![Opcode::PushUndef { bytes: 3 }])), vec![0, 0, 0]);
}

#[test]
fn a_pushed_word_comes_back_when_popped() {
    for v in [0, 1, -1, i32::MIN, i32::MAX, 0x1234_5678] {
        assert_eq!(exit_code(vec![Opcode::MakeTempI32(v)]), v);
    }
}

#[test]
fn sign_extension_keeps_the_value() {
    for v in [i8::MIN, -2, -1, 0, 1, 100, i8::MAX] {
        let widened = after(vec![Opcode::MakeTempI8(v), Opcode::SExtend8To32]);
        assert_eq!(operands(&widened), (v as i32).to_be_bytes().to_vec());
        let widened = after(vec![Opcode::MakeTempI8(v), Opcode::SExtend8To16]);
        assert_eq!(operands(&widened), (v as i16).to_be_bytes().to_vec());
        let widened = after(vec![Opcode::MakeTempI8(v), Opcode::SExtend8To64]);
        assert_eq!(operands(&widened), (v as i64).to_be_bytes().to_vec());
    }
    for v in [i32::MIN, -2, 0, 77, i32::MAX] {
        let widened = after(vec![Opcode::MakeTempI32(v), Opcode::SExtend32To64]);
        assert_eq!(operands(&widened), (v as i64).to_be_bytes().to_vec());
    }
    // 0xFF80 is -128 as a halfword when it is read most significant byte
    // first.
    let halfword = vec![Opcode::MakeTempI8(-1), Opcode::MakeTempI8(-128)];
    let mut to_word = halfword.clone();
    to_word.push(Opcode::SExtend16To32);
    assert_eq!(operands(&after(to_word)), (-128i32).to_be_bytes().to_vec());
    let mut to_long = halfword;
    to_long.push(Opcode::SExtend16To64);
    assert_eq!(operands(&after(to_long)), (-128i64).to_be_bytes().to_vec());
}

#[test]
fn zero_extension_keeps_the_magnitude() {
    for v in [0u8, 1, 127, 128, 200, 255] {
        let widened = after(vec![Opcode::MakeTempI8(v as i8), Opcode::ZExtend8To32]);
        assert_eq!(operands(&widened), (v as u32).to_be_bytes().to_vec());
        let widened = after(vec![Opcode::MakeTempI8(v as i8), Opcode::ZExtend8To16]);
        assert_eq!(operands(&widened), (v as u16).to_be_bytes().to_vec());
        let widened = after(vec![Opcode::MakeTempI8(v as i8), Opcode::ZExtend8To64]);
        assert_eq!(operands(&widened), (v as u64).to_be_bytes().to_vec());
    }
    let halfword = vec![Opcode::MakeTempI8(-1), Opcode::MakeTempI8(-128)];
    let mut to_word = halfword.clone();
    to_word.push(Opcode::ZExtend16To32);
    assert_eq!(operands(&after(to_word)), 0xFF80u32.to_be_bytes().to_vec());
    let mut to_long = halfword;
    to_long.push(Opcode::ZExtend16To64);
    assert_eq!(operands(&after(to_long)), 0xFF80u64.to_be_bytes().to_vec());
    let widened = after(vec![Opcode::MakeTempI32(-1), Opcode::ZExtend32To64]);
    assert_eq!(operands(&widened), 0xFFFF_FFFFu64.to_be_bytes().to_vec());
}

fn word_op(l: i32, r: i32, op: Opcode) -> Vec<u8> {
    operands(&after(vec![Opcode::MakeTempI32(l), Opcode::MakeTempI32(r), op]))
}

fn long_op(l: u64, r: u64, op: Opcode) -> Vec<u8> {
    operands(&after(vec![Opcode::MakeTempU64(l), Opcode::MakeTempU64(r), op]))
}

#[test]
fn arithmetic_wraps_around() {
    assert_eq!(word_op(2, 3, Opcode::AddU32), 5i32.to_be_bytes());
    assert_eq!(word_op(-1, 1, Opcode::AddU32), 0i32.to_be_bytes());
    assert_eq!(word_op(i32::MAX, 1, Opcode::AddU32), i32::MIN.to_be_bytes());
    assert_eq!(word_op(2, 3, Opcode::SubI32), (-1i32).to_be_bytes());
    assert_eq!(word_op(i32::MIN, 1, Opcode::SubI32), i32::MAX.to_be_bytes());
    assert_eq!(word_op(-4, 5, Opcode::MulI32), (-20i32).to_be_bytes());
    assert_eq!(word_op(i32::MAX, 2, Opcode::MulI32), (-2i32).to_be_bytes());
    assert_eq!(long_op(u64::MAX, 2, Opcode::AddU64), 1u64.to_be_bytes());
    assert_eq!(long_op(1, 2, Opcode::SubU64), u64::MAX.to_be_bytes());
    assert_eq!(long_op(1, 2, Opcode::SubI64), (-1i64).to_be_bytes());
    assert_eq!(long_op(u64::MAX, u64::MAX, Opcode::MulU64), 1u64.to_be_bytes());
    assert_eq!(long_op((-3i64) as u64, 4, Opcode::MulI64), (-12i64).to_be_bytes());
    assert_eq!(long_op(i64::MAX as u64, 2, Opcode::MulI64), (-2i64).to_be_bytes());
}

#[test]
fn division_rounds_towards_zero() {
    assert_eq!(word_op(7, 2, Opcode::DivI32), 3i32.to_be_bytes());
    assert_eq!(word_op(-7, 2, Opcode::DivI32), (-3i32).to_be_bytes());
    assert_eq!(word_op(7, -2, Opcode::DivI32), (-3i32).to_be_bytes());
    assert_eq!(word_op(-7, -2, Opcode::DivI32), 3i32.to_be_bytes());
    assert_eq!(word_op(0, -2, Opcode::DivI32), 0i32.to_be_bytes());
    assert_eq!(word_op(i32::MIN, -1, Opcode::DivI32), i32::MIN.to_be_bytes());
    assert_eq!(long_op((-7i64) as u64, 2, Opcode::DivI64), (-3i64).to_be_bytes());
    assert_eq!(long_op(i64::MIN as u64, u64::MAX, Opcode::DivI64), i64::MIN.to_be_bytes());
    assert_eq!(long_op(u64::MAX, 2, Opcode::DivU64), (u64::MAX / 2).to_be_bytes());
    assert_eq!(long_op(17, 5, Opcode::ModI64), 2u64.to_be_bytes());
    for (l, r) in [(9, 4), (-9, 4), (9, -4), (i32::MIN, -1), (i32::MIN, 1), (i32::MAX, -1)] {
        assert_eq!(divide_i32(l, r), Ok(l.wrapping_div(r)));
    }
    for (l, r) in [(9, 4), (-9, 4), (9, -4), (i64::MIN, -1), (i64::MIN, 1), (i64::MAX, -1)] {
        assert_eq!(divide_i64(l, r), Ok(l.wrapping_div(r)));
    }
}

#[test]
fn division_by_zero_is_trapped() {
    assert_eq!(divide_i32(5, 0), Err(ErrorKind::DivisionByZero));
    assert_eq!(divide_i64(5, 0), Err(ErrorKind::DivisionByZero));
    for op in [Opcode::DivI64, Opcode::DivU64, Opcode::ModI64] {
        let body = vec![Opcode::MakeTempU64(5), Opcode::MakeTempU64(0), op];
        assert_eq!(fault(body).short_name, "DivisionByZero");
    }
    let body = vec![Opcode::MakeTempI32(5), Opcode::MakeTempI32(0), Opcode::DivI32];
    let mut runtime = machine(body);
    assert_eq!(runtime.run_op_count(4).unwrap_err().short_name, "DivisionByZero");
    // Both operands are popped, and nothing is pushed.
    assert_eq!(runtime.memory.temp_len(), 0);
    assert_eq!(runtime.memory.pc, 3);
}

#[test]
fn comparisons_push_one_byte() {
    assert_eq!(word_op(-1, 1, Opcode::CompLtI32), [1]);
    assert_eq!(word_op(1, -1, Opcode::CompLtI32), [0]);
    assert_eq!(word_op(1, 1, Opcode::CompLtI32), [0]);
    assert_eq!(word_op(1, 1, Opcode::CompLeqI32), [1]);
    assert_eq!(word_op(2, 1, Opcode::CompLeqI32), [0]);
    assert_eq!(word_op(7, 7, Opcode::CompEq32), [1]);
    assert_eq!(word_op(7, 8, Opcode::CompEq32), [0]);
    assert_eq!(word_op(7, 8, Opcode::CompNeq32), [1]);
    assert_eq!(word_op(7, 7, Opcode::CompNeq32), [0]);
    assert_eq!(long_op(1, u64::MAX, Opcode::CompLtU64), [1]);
    assert_eq!(long_op(u64::MAX, 1, Opcode::CompLtU64), [0]);
    assert_eq!(long_op(3, 3, Opcode::CompLeqU64), [1]);
    assert_eq!(long_op(4, 3, Opcode::CompLeqU64), [0]);
    assert_eq!(long_op(3, 3, Opcode::CompEq64), [1]);
    assert_eq!(long_op(3, 1 << 40, Opcode::CompEq64), [0]);
}

#[test]
fn each_opcode_moves_its_count_of_operand_bytes() {
    let base = vec![Opcode::MakeTempU64(1), Opcode::MakeTempU64(2), Opcode::MakeTempU64(3)];
    let cases: Vec<(Opcode, i64)> = vec![
        (Opcode::MakeTempI8(1), 1),
        (Opcode::MakeTempI32(1), 4),
        (Opcode::MakeTempI64(1), 8),
        (Opcode::Pop { bytes: 5 }, -5),
        (Opcode::PopKeep { keep: 3, drop: 4 }, -4),
        (Opcode::PushUndef { bytes: 6 }, 6),
        (Opcode::PushDup { bytes: 9 }, 9),
        (Opcode::Swap { top: 2, bottom: 7 }, 0),
        (Opcode::SetLocal { var: -1, offset: 0, bytes: 4 }, -4),
        (Opcode::GetLocal { var: -1, offset: 1, bytes: 2 }, 2),
        (Opcode::PopIntoTopVar { offset: 2, bytes: 2 }, -2),
        (Opcode::SExtend8To32, 3),
        (Opcode::ZExtend16To64, 6),
        (Opcode::AddU32, -4),
        (Opcode::MulU64, -8),
        (Opcode::CompEq32, -7),
        (Opcode::CompLtU64, -15),
        (Opcode::Func(9), 0),
    ];
    for (opcode, net) in cases {
        let before = after(base.clone());
        let mut body = base.clone();
        body.push(opcode);
        let later = after(body);
        assert_eq!(later.memory.temp_len() as i64, before.memory.temp_len() as i64 + net);
        assert_eq!(later.memory.stack.vars, before.memory.stack.vars);
    }
}

#[test]
fn allocating_and_freeing_leaves_the_variable_count() {
    let body = vec![
        Opcode::StackAlloc { bytes: 12, symbol: 3 },
        Opcode::StackAlloc { bytes: 0, symbol: 3 },
        Opcode::StackDealloc,
        Opcode::StackDealloc,
    ];
    let before = machine(vec![]);
    let later = after(body);
    assert_eq!(later.memory.stack.vars, before.memory.stack.vars);
    assert_eq!(later.memory.stack.data, before.memory.stack.data);
    let grown = after(vec![Opcode::StackAlloc { bytes: 12, symbol: 3 }]);
    assert_eq!(grown.memory.stack.vars.len(), 2);
    assert_eq!(grown.memory.stack.vars[1].meta, 3);
    assert_eq!(fault(vec![Opcode::StackDealloc]).short_name, "StackUnderflow");
    assert_eq!(fault(vec![Opcode::StackAddToTemp]).short_name, "StackUnderflow");
}

#[test]
fn a_dynamic_allocation_takes_its_size_from_the_stack() {
    let grown = after(vec![Opcode::MakeTempI32(6), Opcode::StackAllocDyn { symbol: 4 }]);
    assert_eq!(grown.memory.stack.vars.len(), 2);
    assert_eq!(grown.memory.stack.vars[1].len, 6);
    assert_eq!(fault(vec![Opcode::StackAllocDyn { symbol: 4 }]).short_name, "StackUnderflow");
}

#[test]
fn locals_are_read_and_written() {
    let body = vec![
        Opcode::StackAlloc { bytes: 8, symbol: 1 },
        Opcode::MakeTempI32(0x0102_0304),
        Opcode::SetLocal { var: 0, offset: 2, bytes: 4 },
        Opcode::GetLocal { var: 0, offset: 0, bytes: 8 },
    ];
    assert_eq!(operands(&after(body)), vec![0, 0, 1, 2, 3, 4, 0, 0]);
    let body = vec![
        Opcode::StackAlloc { bytes: 8, symbol: 1 },
        Opcode::MakeTempI32(0x0102_0304),
        Opcode::PopIntoTopVar { offset: 4, bytes: 4 },
        Opcode::StackAddToTemp,
    ];
    assert_eq!(operands(&after(body)), vec![0, 0, 0, 0, 1, 2, 3, 4]);
    let missing = vec![Opcode::GetLocal { var: 0, offset: 0, bytes: 4 }];
    assert_eq!(fault(missing).short_name, "InvalidPointer");
    let below = vec![Opcode::GetLocal { var: -2, offset: 0, bytes: 4 }];
    assert_eq!(fault(below).short_name, "InvalidPointer");
    let past = vec![Opcode::GetLocal { var: -1, offset: 1, bytes: 4 }];
    assert_eq!(fault(past).short_name, "SegfaultOutOfBounds");
}

#[test]
fn pointers_are_followed_with_an_offset() {
    let body = vec![
        Opcode::StackAlloc { bytes: 8, symbol: 1 },
        Opcode::MakeTempI32(0x0102_0304),
        Opcode::MakeTempLocalStackPtr { var: 0, offset: 1 },
        Opcode::Store { offset: 2, bytes: 4 },
        Opcode::MakeTempLocalStackPtr { var: 0, offset: 0 },
        Opcode::Get { offset: 3, bytes: 5 },
    ];
    assert_eq!(operands(&after(body)), vec![1, 2, 3, 4, 0]);
    let null = vec![Opcode::MakeTempU64(0), Opcode::Get { offset: 0, bytes: 1 }];
    assert_eq!(fault(null).short_name, "InvalidPointer");
    let wrapped = vec![
        Opcode::StackAlloc { bytes: 8, symbol: 1 },
        Opcode::MakeTempLocalStackPtr { var: 0, offset: 0xFFFF_FFFF },
        Opcode::Get { offset: 2, bytes: 1 },
    ];
    assert_eq!(operands(&after(wrapped)), vec![0]);
    let short = vec![Opcode::MakeTempI32(0), Opcode::Get { offset: 0, bytes: 1 }];
    assert_eq!(fault(short).short_name, "StackUnderflow");
}

#[test]
fn jumps_go_to_their_target() {
    let skip = vec![Opcode::Jump(3), Opcode::MakeTempI32(1), Opcode::MakeTempI32(2)];
    let mut runtime = machine(skip);
    runtime.run_op_count(3).unwrap();
    assert_eq!(operands(&runtime), 2i32.to_be_bytes());

    let branches = [
        (Opcode::MakeTempI8(0), Opcode::JumpIfZero8(4), true),
        (Opcode::MakeTempI8(3), Opcode::JumpIfZero8(4), false),
        (Opcode::MakeTempI8(0), Opcode::JumpIfNotZero8(4), false),
        (Opcode::MakeTempI8(3), Opcode::JumpIfNotZero8(4), true),
        (Opcode::MakeTempI32(0), Opcode::JumpIfZero32(4), true),
        (Opcode::MakeTempI32(1 << 20), Opcode::JumpIfZero32(4), false),
        (Opcode::MakeTempI32(1 << 20), Opcode::JumpIfNotZero32(4), true),
        (Opcode::MakeTempI32(0), Opcode::JumpIfNotZero32(4), false),
        (Opcode::MakeTempU64(0), Opcode::JumpIfZero64(4), true),
        (Opcode::MakeTempU64(1 << 40), Opcode::JumpIfZero64(4), false),
        (Opcode::MakeTempU64(1 << 40), Opcode::JumpIfNotZero64(4), true),
        (Opcode::MakeTempU64(0), Opcode::JumpIfNotZero64(4), false),
    ];
    for (push, jump, taken) in branches {
        let mut runtime = machine(vec![push, jump, Opcode::Func(0), Opcode::Func(0)]);
        runtime.run_op_count(3).unwrap();
        assert_eq!(runtime.memory.pc, if taken { 4 } else { 3 });
        assert_eq!(runtime.memory.temp_len(), 0);
    }
    let halfword = |jump: Opcode| {
        let body = vec![Opcode::MakeTempI8(1), Opcode::MakeTempI8(0), jump, Opcode::Func(0)];
        let mut runtime = machine(body);
        runtime.run_op_count(4).unwrap();
        runtime.memory.pc
    };
    assert_eq!(halfword(Opcode::JumpIfZero16(5)), 4);
    assert_eq!(halfword(Opcode::JumpIfNotZero16(5)), 5);
    assert_eq!(fault(vec![Opcode::JumpIfZero32(1)]).short_name, "StackUnderflow");
}

#[test]
fn a_call_followed_by_ret_comes_back() {
    let body = vec![Opcode::Call(3), Opcode::Jump(5), Opcode::Func(77), Opcode::Ret];
    let mut runtime = machine(body);
    runtime.run_op_count(1).unwrap();
    let before = runtime.diagnostic();
    let (vars, data) = (runtime.memory.stack.vars.clone(), runtime.memory.stack.data.clone());
    runtime.run_op().unwrap();
    assert_eq!(
        runtime.diagnostic(),
        RuntimeDiagnostic { callstack: 2, fp: 2, pc: 4, loc: here(4) }
    );
    assert_eq!(runtime.memory.callstack[1].name, 77);
    assert_eq!(runtime.memory.callstack[1].loc, here(1));
    runtime.run_op().unwrap();
    assert_eq!(
        runtime.diagnostic(),
        RuntimeDiagnostic { callstack: before.callstack, fp: before.fp, pc: 2, loc: here(2) }
    );
    assert_eq!(runtime.memory.stack.vars, vars);
    assert_eq!(runtime.memory.stack.data, data);
}

#[test]
fn a_callee_reaches_its_parameters_and_its_return_slot() {
    // int add(int a, int b) { return a + b; }, called with 20 and 22.
    let body = vec![
        Opcode::StackAlloc { bytes: 4, symbol: 0 },
        Opcode::StackAlloc { bytes: 4, symbol: 0 },
        Opcode::MakeTempI32(20),
        Opcode::PopIntoTopVar { offset: 0, bytes: 4 },
        Opcode::StackAlloc { bytes: 4, symbol: 0 },
        Opcode::MakeTempI32(22),
        Opcode::PopIntoTopVar { offset: 0, bytes: 4 },
        Opcode::Call(13),
        Opcode::StackDealloc,
        Opcode::StackDealloc,
        Opcode::StackAddToTemp,
        Opcode::Ecall(ECALL_EXIT),
        Opcode::Func(21),
        Opcode::GetLocal { var: -2, offset: 0, bytes: 4 },
        Opcode::GetLocal { var: -1, offset: 0, bytes: 4 },
        Opcode::AddU32,
        Opcode::SetLocal { var: -3, offset: 0, bytes: 4 },
    ];
    assert_eq!(machine(body).run_op_count(100).unwrap(), Some(42));
}

#[test]
fn environment_calls_reach_the_arguments() {
    let argc = vec![Opcode::Ecall(ECALL_ARGC), Opcode::Ecall(ECALL_EXIT)];
    assert_eq!(machine_with_args(argc, &["a", "bc"]).run_op_count(9).unwrap(), Some(2));

    let argv = vec![Opcode::MakeTempI32(1), Opcode::Ecall(ECALL_ARGV)];
    let mut runtime = machine_with_args(argv, &["a", "bcd"]);
    runtime.run_op_count(3).unwrap();
    assert_eq!(operands(&runtime), VarPointer::new_heap(1, 0).value.to_be_bytes());
    assert_eq!(runtime.memory.heap.data, b"bcd\0".to_vec());
    assert_eq!(runtime.cstring_bytes(VarPointer::new_heap(1, 0)).unwrap(), b"bcd".to_vec());

    let past = vec![Opcode::MakeTempI32(2), Opcode::Ecall(ECALL_ARGV)];
    let error = machine_with_args(past, &["a", "bcd"]).run_op_count(3).unwrap_err();
    assert_eq!(error.short_name, "InvalidArgumentIndex");
    assert_eq!(error.message, "Argument index 2 is invalid (this is a problem with tci)");
    assert_eq!(fault(vec![Opcode::Ecall(3)]).short_name, "InvalidEnviromentCall");
    assert_eq!(fault(vec![Opcode::Ecall(3)]).message, "invalid ecall value of 3");
    assert_eq!(fault(vec![Opcode::Ecall(4096)]).message, "invalid ecall value of 4096");
    assert_eq!(fault(vec![Opcode::Ecall(ECALL_EXIT)]).short_name, "StackUnderflow");
    assert_eq!((ECALL_EXIT, ECALL_ARGC, ECALL_ARGV), (0, 1, 2));
}

#[test]
fn strings_end_at_their_terminator() {
    let argv = vec![Opcode::MakeTempI32(0), Opcode::Ecall(ECALL_ARGV)];
    let mut runtime = machine_with_args(argv, &["hello"]);
    runtime.run_op_count(3).unwrap();
    let start = VarPointer::new_heap(1, 0);
    assert_eq!(runtime.cstring_bytes(start.add(2)).unwrap(), b"llo".to_vec());
    assert_eq!(runtime.cstring_bytes(start.add(5)).unwrap(), Vec::<u8>::new());
    runtime.memory.write_bytes(start.add(5), &vec![b'!']).unwrap();
    let error = runtime.cstring_bytes(start).unwrap_err();
    assert_eq!(error.short_name, "MissingNullTerminator");
    assert_eq!(runtime.cstring_bytes(start.add(6)).unwrap_err().short_name, "MissingNullTerminator");
    assert_eq!(runtime.cstring_bytes(start.add(7)).unwrap_err().short_name, "SegfaultOutOfBounds");
    assert_eq!(runtime.cstring_bytes(VarPointer { value: 0 }).unwrap_err().short_name, "InvalidPointer");
}

fn push_arg(body: &mut Vec<Opcode>, value: Opcode, bytes: u32) {
    body.push(Opcode::StackAlloc { bytes, symbol: 0 });
    body.push(value);
    body.push(Opcode::PopIntoTopVar { offset: 0, bytes });
}

#[test]
fn the_library_function_exit_ends_the_program() {
    let mut body = Vec::new();
    push_arg(&mut body, Opcode::MakeTempI32(-9), 4);
    body.push(Opcode::LibCall(EXIT_SYMBOL));
    assert_eq!(machine(body).run_op_count(100).unwrap(), Some(-9));
}

#[test]
fn unknown_library_functions_are_faults() {
    assert_eq!(fault(vec![Opcode::LibCall(FREE_SYMBOL)]).short_name, "InvalidLibraryFunction");
    assert_eq!(fault(vec![Opcode::LibCall(999)]).short_name, "InvalidLibraryFunction");
    assert_eq!(
        fault(vec![Opcode::LibCall(999)]).message,
        "library function symbol '999' is invalid (this is a problem with tci)"
    );
    assert_eq!(
        fault(vec![Opcode::LibCall(FREE_SYMBOL)]).message,
        "library function symbol '6' is invalid (this is a problem with tci)"
    );
}

/// Calls `malloc(size)` and leaves the pointer in the stack variable with
/// id 2.
fn malloc_into_local(body: &mut Vec<Opcode>, size: u64) {
    body.push(Opcode::StackAlloc { bytes: 8, symbol: 0 });
    push_arg(body, Opcode::MakeTempU64(size), 8);
    body.push(Opcode::LibCall(MALLOC_SYMBOL));
    body.push(Opcode::StackDealloc);
}

#[test]
fn malloc_allocates_zeroed_heap_memory() {
    let mut body = Vec::new();
    malloc_into_local(&mut body, 6);
    body.push(Opcode::StackAddToTemp);
    let runtime = after(body);
    assert_eq!(operands(&runtime), VarPointer::new_heap(1, 0).value.to_be_bytes());
    assert_eq!(runtime.memory.heap.data, vec![0; 6]);
    assert_eq!(runtime.memory.heap.vars.len(), 1);

    let mut huge = Vec::new();
    malloc_into_local(&mut huge, 1 << 32);
    assert_eq!(fault(huge).short_name, "OutOfMemory");
    assert_eq!(fault(vec![Opcode::LibCall(MALLOC_SYMBOL)]).short_name, "SegfaultOutOfBounds");
}

/// Fills the heap variable behind the pointer in local 0 with 1, 2, 3, ...
fn fill(body: &mut Vec<Opcode>, count: u8) {
    for i in 0..count {
        body.push(Opcode::MakeTempI8(i as i8 + 1));
        body.push(Opcode::GetLocal { var: 0, offset: 0, bytes: 8 });
        body.push(Opcode::Store { offset: i as u32, bytes: 1 });
    }
}

#[test]
fn memcpy_copies_bytes_and_returns_the_destination() {
    let mut body = Vec::new();
    malloc_into_local(&mut body, 6);
    fill(&mut body, 6);
    // memcpy(p + 3, p, 2)
    body.push(Opcode::StackAlloc { bytes: 8, symbol: 0 });
    body.push(Opcode::StackAlloc { bytes: 8, symbol: 0 });
    body.push(Opcode::GetLocal { var: 0, offset: 0, bytes: 8 });
    body.push(Opcode::MakeTempU64(3));
    body.push(Opcode::AddU64);
    body.push(Opcode::PopIntoTopVar { offset: 0, bytes: 8 });
    push_arg(&mut body, Opcode::GetLocal { var: 0, offset: 0, bytes: 8 }, 8);
    push_arg(&mut body, Opcode::MakeTempU64(2), 8);
    body.push(Opcode::LibCall(MEMCPY_SYMBOL));
    body.extend([Opcode::StackDealloc, Opcode::StackDealloc, Opcode::StackDealloc]);
    body.push(Opcode::StackAddToTemp);
    let runtime = after(body);
    assert_eq!(runtime.memory.heap.data, vec![1, 2, 3, 1, 2, 6]);
    assert_eq!(operands(&runtime), VarPointer::new_heap(1, 3).value.to_be_bytes());
}

fn memcpy_onto_itself(size: u64, offset: u64) -> Runtime {
    let mut body = Vec::new();
    malloc_into_local(&mut body, 6);
    fill(&mut body, 6);
    body.push(Opcode::StackAlloc { bytes: 8, symbol: 0 });
    for _ in 0..2 {
        body.push(Opcode::StackAlloc { bytes: 8, symbol: 0 });
        body.push(Opcode::GetLocal { var: 0, offset: 0, bytes: 8 });
        body.push(Opcode::MakeTempU64(offset));
        body.push(Opcode::AddU64);
        body.push(Opcode::PopIntoTopVar { offset: 0, bytes: 8 });
    }
    push_arg(&mut body, Opcode::MakeTempU64(size), 8);
    body.push(Opcode::LibCall(MEMCPY_SYMBOL));
    let count = body.len() as u32;
    let mut runtime = machine(body);
    let _ = runtime.run_op_count(count + 1);
    runtime
}

#[test]
fn memcpy_onto_itself_changes_nothing() {
    for (size, offset) in [(0, 0), (6, 0), (3, 2), (1, 5), (9, 0), (2, 5), (4, 100)] {
        let runtime = memcpy_onto_itself(size, offset);
        assert_eq!(runtime.memory.heap.data, vec![1, 2, 3, 4, 5, 6]);
    }
    // Past the end of the variable the copy stops with a fault.
    let runtime = memcpy_onto_itself(9, 0);
    assert_eq!(runtime.memory.callstack.len(), 2);
}

fn realloc(old_size: u64, new_size: u64, offset: u64) -> (Runtime, Result<Option<i32>, IError>) {
    let mut body = Vec::new();
    malloc_into_local(&mut body, old_size);
    fill(&mut body, old_size as u8);
    body.push(Opcode::StackAlloc { bytes: 8, symbol: 0 });
    body.push(Opcode::StackAlloc { bytes: 8, symbol: 0 });
    body.push(Opcode::GetLocal { var: 0, offset: 0, bytes: 8 });
    body.push(Opcode::MakeTempU64(offset));
    body.push(Opcode::AddU64);
    body.push(Opcode::PopIntoTopVar { offset: 0, bytes: 8 });
    push_arg(&mut body, Opcode::MakeTempU64(new_size), 8);
    body.push(Opcode::LibCall(REALLOC_SYMBOL));
    body.extend([Opcode::StackDealloc, Opcode::StackDealloc, Opcode::StackAddToTemp]);
    let count = body.len() as u32;
    let mut runtime = machine(body);
    let result = runtime.run_op_count(count + 1);
    (runtime, result)
}

#[test]
fn realloc_keeps_the_first_bytes() {
    for (old_size, new_size) in [(6, 6), (6, 4), (6, 1), (6, 0), (1, 1)] {
        let (runtime, result) = realloc(old_size, new_size, 0);
        assert_eq!(result.unwrap(), None);
        let fresh = VarPointer::new_heap(2, 0);
        assert_eq!(operands(&runtime), fresh.value.to_be_bytes());
        let expected: Vec<u8> = (1..=new_size as u8).collect();
        assert_eq!(runtime.memory.read_bytes(fresh, new_size as u32).unwrap(), expected);
        assert_eq!(runtime.memory.heap.vars[1].len as u64, new_size);
        let original: Vec<u8> = (1..=old_size as u8).collect();
        let first = VarPointer::new_heap(1, 0);
        assert_eq!(runtime.memory.read_bytes(first, old_size as u32).unwrap(), original);
    }
}

#[test]
fn realloc_refuses_what_it_cannot_move() {
    let (_, grown) = realloc(4, 6, 0);
    assert_eq!(grown.unwrap_err().short_name, "SegfaultOutOfBounds");
    let (_, inside) = realloc(4, 2, 1);
    let inside = inside.unwrap_err();
    assert_eq!(inside.short_name, "InvalidPointer");
    assert_eq!(inside.message, "called realloc on a pointer that was 1 bytes off of its allocation");
    let (_, far) = realloc(4, 2, 300);
    assert_eq!(
        far.unwrap_err().message,
        "called realloc on a pointer that was 300 bytes off of its allocation"
    );
    let (_, huge) = realloc(4, 1 << 32, 0);
    assert_eq!(huge.unwrap_err().short_name, "OutOfMemory");

    let mut body = vec![Opcode::StackAlloc { bytes: 8, symbol: 0 }];
    push_arg(&mut body, Opcode::MakeTempLocalStackPtr { var: 0, offset: 0 }, 8);
    push_arg(&mut body, Opcode::MakeTempU64(1), 8);
    body.push(Opcode::LibCall(REALLOC_SYMBOL));
    let error = fault(body);
    assert_eq!(error.short_name, "InvalidPointer");
    assert_eq!(error.message, "called realloc on a pointer that was not from the heap");
}

#[test]
fn a_program_that_has_ended_stays_ended() {
    let body = vec![
        Opcode::StackAlloc { bytes: 2, symbol: 0 },
        Opcode::MakeTempI32(-77),
        Opcode::SetLocal { var: -1, offset: 0, bytes: 4 },
    ];
    let mut runtime = machine(body);
    assert_eq!(runtime.run_op_count(100).unwrap(), Some(-77));
    let ended = runtime.diagnostic();
    assert_eq!((ended.callstack, ended.fp, ended.pc), (1, 2, 4));
    assert_eq!(runtime.memory.stack.vars.len(), 2);
    for _ in 0..3 {
        assert_eq!(runtime.run_op().unwrap(), Some(-77));
        assert_eq!(runtime.run_op_count(5).unwrap(), Some(-77));
        assert_eq!(runtime.diagnostic(), ended);
        assert_eq!(runtime.memory.stack.vars.len(), 2);
    }
}

#[test]
fn a_call_and_its_return_leave_the_memory_as_it_was() {
    let body = vec![
        Opcode::StackAlloc { bytes: 4, symbol: 0 },
        Opcode::MakeTempI32(5),
        Opcode::Call(5),
        Opcode::Ecall(ECALL_EXIT),
        Opcode::Func(9),
    ];
    let mut runtime = machine(body);
    runtime.run_op_count(3).unwrap();
    let before = runtime.diagnostic();
    let stack = runtime.memory.stack.clone();
    assert_eq!(runtime.run_op_count(1).unwrap(), None);
    assert_eq!((runtime.memory.pc, runtime.memory.callstack.len()), (6, 2));
    assert_eq!(runtime.run_op_count(1).unwrap(), None);
    let back = runtime.diagnostic();
    assert_eq!((back.callstack, back.fp, back.pc), (before.callstack, before.fp, before.pc + 1));
    assert_eq!(runtime.memory.stack.vars, stack.vars);
    assert_eq!(runtime.memory.stack.data, stack.data);
    assert_eq!(runtime.run_op_count(1).unwrap(), Some(5));
}

#[test]
fn a_fault_is_recorded_on_the_call_stack() {
    let body = vec![Opcode::Func(5), Opcode::Pop { bytes: 1 }, Opcode::Func(6)];
    let mut runtime = machine(body);
    let error = runtime.run_op_count(10).unwrap_err();
    assert_eq!(error.short_name, "StackUnderflow");
    assert_eq!(runtime.memory.pc, 2);
    assert_eq!(runtime.memory.callstack.len(), 2);
    assert_eq!(runtime.memory.callstack[1].loc, here(2));
    assert_eq!(runtime.memory.callstack[1].pc, 2);

    let mut quiet = machine(vec![Opcode::Pop { bytes: 1 }]);
    quiet.run_op_internal().unwrap();
    assert_eq!(quiet.run_op_internal().unwrap_err().short_name, "StackUnderflow");
    assert_eq!(quiet.memory.callstack.len(), 1);
}

#[test]
fn bounded_runs_stop_where_they_are_told() {
    let body = vec![Opcode::Func(1), Opcode::Func(2), Opcode::Func(3), Opcode::Func(4)];
    let mut runtime = machine(body.clone());
    assert_eq!(runtime.run_op_count(0).unwrap(), None);
    assert_eq!(runtime.memory.pc, 0);
    assert_eq!(runtime.run_op_count(3).unwrap(), None);
    assert_eq!(runtime.memory.pc, 3);

    let mut runtime = machine(body.clone());
    assert_eq!(runtime.run_count_or_until(100, 2, 0).unwrap(), None);
    assert_eq!(runtime.memory.pc, 2);
    assert_eq!(runtime.run_count_or_until(100, 2, 0).unwrap(), None);
    assert_eq!(runtime.memory.pc, 2);
    assert_eq!(runtime.run_count_or_until(1, 9, 0).unwrap(), None);
    assert_eq!(runtime.memory.pc, 3);
    assert_eq!(runtime.run_count_or_until(100, 9, 2).unwrap(), None);
    assert_eq!(runtime.memory.pc, 3);
    assert_eq!(runtime.run_count_or_until(100, 9, 1).unwrap(), Some(0));

    let calls = vec![Opcode::Call(3), Opcode::Jump(5), Opcode::Func(7), Opcode::Func(8)];
    let mut runtime = machine(calls);
    runtime.run_op_count(2).unwrap();
    assert_eq!(runtime.memory.callstack.len(), 2);
    assert_eq!(runtime.run_count_or_until(100, 99, 2).unwrap(), None);
    assert_eq!(runtime.memory.callstack.len(), 1);
    assert_eq!(runtime.memory.pc, 2);
}

#[test]
fn programs_that_could_leave_their_opcodes_are_refused() {
    let check = |ops: Vec<Opcode>, main_idx: u32| {
        let ops = ops.into_iter().map(|op| TaggedOpcode { op, loc: no_file() }).collect();
        Program { files: FileDb::new(), ops, data: VarBuffer::new(), main_idx }.check()
    };
    assert!(check(vec![Opcode::Func(0), Opcode::Ret], 0));
    assert!(check(vec![Opcode::Func(0), Opcode::Jump(0)], 0));
    assert!(check(vec![Opcode::Ret, Opcode::Func(0), Opcode::Call(1), Opcode::Ret], 1));
    assert!(!check(vec![], 0));
    assert!(!check(vec![Opcode::Func(0), Opcode::Ret], 2));
    assert!(!check(vec![Opcode::Func(0), Opcode::Ret], 1));
    assert!(!check(vec![Opcode::Func(0)], 0));
    assert!(!check(vec![Opcode::Func(0), Opcode::Pop { bytes: 0 }], 0));
    assert!(!check(vec![Opcode::Func(0), Opcode::Jump(2)], 0));
    assert!(!check(vec![Opcode::Func(0), Opcode::JumpIfZero8(3), Opcode::Ret], 0));
    assert!(!check(vec![Opcode::Func(0), Opcode::JumpIfNotZero64(0)], 0));
    assert!(!check(vec![Opcode::Func(0), Opcode::Call(1), Opcode::Ret], 0));
    assert!(!check(vec![Opcode::Func(0), Opcode::Call(2), Opcode::Ret], 0));
    assert!(!check(vec![Opcode::Func(0), Opcode::Call(9), Opcode::Ret], 0));
    assert!(!check(vec![Opcode::Func(0), Opcode::Ecall(0)], 0));

    let ops = vec![
        TaggedOpcode { op: Opcode::Func(0), loc: no_file() },
        TaggedOpcode { op: Opcode::Ret, loc: no_file() },
    ];
    assert!(op_is_in_range(&ops, 0));
    assert!(op_is_in_range(&ops, 1));
}

#[test]
fn opcodes_fall_into_four_classes() {
    assert_eq!(classify(Opcode::Func(1)), OpClass::Stack);
    assert_eq!(classify(Opcode::Store { offset: 0, bytes: 1 }), OpClass::Stack);
    assert_eq!(classify(Opcode::StackAddToTemp), OpClass::Stack);
    assert_eq!(classify(Opcode::SExtend8To16), OpClass::Extend);
    assert_eq!(classify(Opcode::ZExtend32To64), OpClass::Extend);
    assert_eq!(classify(Opcode::AddU32), OpClass::Arith);
    assert_eq!(classify(Opcode::ModI64), OpClass::Arith);
    assert_eq!(classify(Opcode::CompEq64), OpClass::Arith);
    assert_eq!(classify(Opcode::Jump(0)), OpClass::Control);
    assert_eq!(classify(Opcode::JumpIfNotZero16(0)), OpClass::Control);
    assert_eq!(classify(Opcode::Ret), OpClass::Control);
    assert_eq!(classify(Opcode::Ecall(0)), OpClass::Control);
}

#[test]
fn programs_with_broken_static_data_are_refused() {
    let ops = vec![
        TaggedOpcode { op: Opcode::Func(0), loc: no_file() },
        TaggedOpcode { op: Opcode::Ret, loc: no_file() },
    ];
    let mut data = VarBuffer::new();
    data.add_var(4, 0);
    data.data.truncate(2);
    let program = Program { files: FileDb::new(), ops, data, main_idx: 0 };
    assert!(!program.check());
}
