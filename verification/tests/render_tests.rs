use tci::filedb::{FileDb, MAIN_SYMBOL};
use tci::interpreter::{Opcode, Program, Runtime, TaggedOpcode};
use tci::render::render_err;
use tci::runtime::{CallFrame, ErrorKind, IError, VarBuffer};
use tci::util::{l, no_file, StringArray};

fn program() -> Program {
    let mut files = FileDb::new();
    files.add("first.c".to_string(), "int main() {\n  return f(3);\n}\n".to_string());
    files.add("second.c".to_string(), "int f(int a) {\n  return *p;\n}\n".to_string());
    let ops = vec![
        TaggedOpcode { op: Opcode::Func(MAIN_SYMBOL), loc: l(0, 3, 0) },
        TaggedOpcode { op: Opcode::Pop { bytes: 1 }, loc: l(24, 26, 1) },
        TaggedOpcode { op: Opcode::Ret, loc: l(0, 3, 0) },
    ];
    Program { files, ops, data: VarBuffer::new(), main_idx: 0 }
}

fn frame(loc: tci::util::CodeLoc) -> CallFrame {
    CallFrame { name: 1, loc, fp: 1, pc: 0 }
}

#[test]
fn a_rendered_fault_opens_with_its_name_and_message() {
    let error = IError::new("InvalidPointer", "the pointer is invalid".to_string());
    assert_eq!(render_err(&error, &Vec::new(), &program()), "InvalidPointer: the pointer is invalid\n");
    let only_first = vec![frame(l(22, 26, 0))];
    assert_eq!(render_err(&error, &only_first, &program()), "InvalidPointer: the pointer is invalid\n");
}

#[test]
fn every_frame_but_the_first_shows_its_source() {
    let error = IError::of_kind(ErrorKind::StackUnderflow);
    let trace = vec![frame(no_file()), frame(l(22, 26, 0)), frame(l(24, 26, 1))];
    let text = render_err(&error, &trace, &program());
    let head = format!("StackUnderflow: {}\n", error.message);
    assert!(text.starts_with(&head));
    let first = text.find("first.c:2:10").expect("the call site is shown");
    let second = text.find("second.c:2:10").expect("the fault site is shown");
    assert!(first < second);
    assert!(text.contains("return f(3);"));
    assert!(text.contains("return *p;"));
    assert!(text.contains("^^^^"));
    assert_eq!(text.matches("┌─").count(), 2);
    // The text is more than the arguments: the renderer has drawn the source.
    assert!(text.len() > head.len() + "return f(3);return *p;".len());
}

#[test]
fn places_outside_the_files_show_nothing() {
    let error = IError::of_kind(ErrorKind::StackUnderflow);
    let head = format!("StackUnderflow: {}\n", error.message);
    let trace = vec![frame(no_file()), frame(no_file()), frame(l(0, 1, 2))];
    assert_eq!(render_err(&error, &trace, &program()), head);
    let reversed = vec![frame(no_file()), frame(tci::util::CodeLoc { start: 5, end: 4, file: 0 })];
    assert_eq!(render_err(&error, &reversed, &program()), head);
}

#[test]
fn the_call_stack_of_a_fault_renders() {
    let mut runtime = Runtime::new(program(), StringArray::new());
    let error = runtime.run_op_count(5).unwrap_err();
    let text = render_err(&error, &runtime.memory.callstack, &runtime.program);
    assert!(text.starts_with("StackUnderflow: "));
    assert!(text.contains("second.c:2:10"));
    assert!(!text.contains("first.c"));
}

#[test]
fn spans_past_the_end_of_the_text_do_not_stop_the_rendering() {
    let error = IError::of_kind(ErrorKind::StackUnderflow);
    let head = format!("StackUnderflow: {}\n", error.message);
    for (start, end) in [(1000, 1001), (0, 1000), (29, 29), (30, 31), (5, u32::MAX), (u32::MAX, u32::MAX)] {
        let trace = vec![frame(no_file()), frame(l(start, end, 0))];
        let text = render_err(&error, &trace, &program());
        assert!(text.starts_with(&head));
    }
    let mut files = FileDb::new();
    files.add("empty.c".to_string(), String::new());
    files.add("wide.c".to_string(), "é\tü\r\n\u{1F600}x".to_string());
    let program = Program { files, ..program() };
    for file in 0..2 {
        for start in 0..12 {
            for end in start..12 {
                let trace = vec![frame(no_file()), frame(l(start, end, file))];
                assert!(render_err(&error, &trace, &program).starts_with(&head));
            }
        }
    }
}
