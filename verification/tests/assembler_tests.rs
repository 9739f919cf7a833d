use tci::assembler::{
    cannot_lower, func_decl_mismatch, func_redef, lib_func, missing_main, ASMAssignKind, Assembler,
};
use tci::ast::{
    copy_func_type, func_types_match, TCAssignKind, TCAssignTarget, TCExpr, TCExprKind, TCFunc,
    TCFuncDefn, TCFuncParam, TCFuncType, TCStmt, TCStmtKind, TCType, TCTypeKind, TypedFuncs,
};
use tci::filedb::{
    FileDb, EXIT_SYMBOL, FREE_SYMBOL, MAIN_SYMBOL, MALLOC_SYMBOL, MEMCPY_SYMBOL, PRINTF_SYMBOL,
    REALLOC_SYMBOL,
};
use tci::interpreter::{Opcode, TaggedOpcode};
use tci::runtime::{Var, META_NO_SYMBOL};
use tci::util::{l, CodeLoc, Error};

const INT: TCType = TCType { kind: TCTypeKind::I32, pointer_count: 0 };
const CHAR: TCType = TCType { kind: TCTypeKind::Char, pointer_count: 0 };
const LONG: TCType = TCType { kind: TCTypeKind::U64, pointer_count: 0 };
const VOID: TCType = TCType { kind: TCTypeKind::Void, pointer_count: 0 };
const CHAR_PTR: TCType = TCType { kind: TCTypeKind::Char, pointer_count: 1 };
const PAIR: TCType = TCType { kind: TCTypeKind::Struct { ident: 40, size: 12 }, pointer_count: 0 };

fn expr(kind: TCExprKind, expr_type: TCType, at: u32) -> TCExpr {
    TCExpr { kind, expr_type, loc: l(at, at, 1) }
}

fn number(v: i32, at: u32) -> TCExpr {
    expr(TCExprKind::IntLiteral(v), INT, at)
}

fn local(var_offset: i16, expr_type: TCType, at: u32) -> TCExpr {
    expr(TCExprKind::LocalIdent { var_offset }, expr_type, at)
}

fn boxed(e: TCExpr) -> Box<TCExpr> {
    Box::new(e)
}

fn ops_of(code: &[TaggedOpcode]) -> Vec<Opcode> {
    code.iter().map(|op| op.op).collect()
}

fn locs_of(code: &[TaggedOpcode]) -> Vec<u32> {
    code.iter().map(|op| op.loc.start).collect()
}

fn lower(e: &TCExpr) -> Vec<TaggedOpcode> {
    Assembler::new().translate_expr(e).unwrap()
}

fn func_type(return_type: TCType, params: &[TCType], varargs: bool, at: u32) -> TCFuncType {
    let params = params
        .iter()
        .map(|t| TCFuncParam { decl_type: *t, ident: 9, loc: l(0, 0, 1) })
        .collect();
    TCFuncType { loc: l(at, at, 1), params, return_type, varargs }
}

fn declared(return_type: TCType, params: &[TCType], at: u32) -> TCFunc {
    TCFunc { func_type: func_type(return_type, params, false, at), defn: None }
}

fn defined(return_type: TCType, params: &[TCType], stmts: Vec<TCStmt>, at: u32) -> TCFunc {
    TCFunc {
        func_type: func_type(return_type, params, false, at),
        defn: Some(TCFuncDefn { loc: l(at + 1, at + 1, 1), stmts }),
    }
}

fn stmt(kind: TCStmtKind, at: u32) -> TCStmt {
    TCStmt { kind, loc: l(at, at, 1) }
}

fn places(error: &Error) -> Vec<CodeLoc> {
    error.sections.iter().map(|section| section.location).collect()
}

#[test]
fn types_have_sizes() {
    assert_eq!(INT.size(), 4);
    assert_eq!(CHAR.size(), 1);
    assert_eq!(LONG.size(), 8);
    assert_eq!(VOID.size(), 0);
    assert_eq!(PAIR.size(), 12);
    assert_eq!(CHAR_PTR.size(), 8);
    assert_eq!(TCType { kind: TCTypeKind::Void, pointer_count: 2 }.size(), 8);
}

#[test]
fn literals_and_locals_are_one_opcode() {
    assert_eq!(ops_of(&lower(&number(-7, 3))), vec![Opcode::MakeTempI32(-7)]);
    assert_eq!(locs_of(&lower(&number(-7, 3))), vec![3]);
    assert_eq!(
        ops_of(&lower(&expr(TCExprKind::LongLiteral(-1 << 40), LONG, 0))),
        vec![Opcode::MakeTempI64(-1 << 40)]
    );
    assert_eq!(
        ops_of(&lower(&expr(TCExprKind::ULongLiteral(u64::MAX), LONG, 0))),
        vec![Opcode::MakeTempU64(u64::MAX)]
    );
    assert_eq!(
        ops_of(&lower(&expr(TCExprKind::Uninit, PAIR, 0))),
        vec![Opcode::PushUndef { bytes: 12 }]
    );
    assert_eq!(
        ops_of(&lower(&local(-2, LONG, 0))),
        vec![Opcode::GetLocal { var: -2, offset: 0, bytes: 8 }]
    );
}

#[test]
fn operands_come_before_their_operator() {
    let make = |kind: fn(Box<TCExpr>, Box<TCExpr>) -> TCExprKind, t: TCType| {
        ops_of(&lower(&expr(kind(boxed(local(0, t, 1)), boxed(local(1, t, 2))), t, 3)))
    };
    let left = |bytes| Opcode::GetLocal { var: 0, offset: 0, bytes };
    let right = |bytes| Opcode::GetLocal { var: 1, offset: 0, bytes };
    assert_eq!(make(TCExprKind::AddI32, INT), vec![left(4), right(4), Opcode::AddU32]);
    assert_eq!(make(TCExprKind::AddU64, LONG), vec![left(8), right(8), Opcode::AddU64]);
    assert_eq!(make(TCExprKind::SubI32, INT), vec![left(4), right(4), Opcode::SubI32]);
    let sum = expr(TCExprKind::AddI32(boxed(number(1, 1)), boxed(number(2, 2))), INT, 3);
    assert_eq!(locs_of(&lower(&sum)), vec![1, 2, 3]);
}

#[test]
fn conversions_follow_their_operand() {
    let make = |kind: fn(Box<TCExpr>) -> TCExprKind, from: TCType, to: TCType| {
        ops_of(&lower(&expr(kind(boxed(local(0, from, 1))), to, 2)))[1]
    };
    assert_eq!(make(TCExprKind::SConv8To32, CHAR, INT), Opcode::SExtend8To32);
    assert_eq!(make(TCExprKind::SConv32To64, INT, LONG), Opcode::SExtend32To64);
    assert_eq!(make(TCExprKind::ZConv8To32, CHAR, INT), Opcode::ZExtend8To32);
    assert_eq!(make(TCExprKind::ZConv32To64, INT, LONG), Opcode::ZExtend32To64);
    assert_eq!(make(TCExprKind::Deref, CHAR_PTR, CHAR), Opcode::Get { offset: 0, bytes: 1 });
}

#[test]
fn members_are_cut_out_of_their_struct() {
    let member = |offset, t| expr(TCExprKind::Member { base: boxed(local(0, PAIR, 1)), offset }, t, 2);
    assert_eq!(
        ops_of(&lower(&member(4, INT))),
        vec![
            Opcode::GetLocal { var: 0, offset: 0, bytes: 12 },
            Opcode::Pop { bytes: 4 },
            Opcode::PopKeep { keep: 4, drop: 4 },
        ]
    );
    assert_eq!(
        ops_of(&lower(&member(11, CHAR)))[1..],
        [Opcode::Pop { bytes: 0 }, Opcode::PopKeep { keep: 1, drop: 11 }]
    );
    assert_eq!(
        ops_of(&lower(&member(0, PAIR)))[1..],
        [Opcode::Pop { bytes: 0 }, Opcode::PopKeep { keep: 12, drop: 0 }]
    );
    let error = Assembler::new().translate_expr(&member(9, INT)).unwrap_err();
    assert_eq!(error.message, "function cannot be lowered to opcodes");
    assert_eq!(places(&error), vec![l(2, 2, 1)]);
    let through = expr(TCExprKind::PtrMember { base: boxed(local(0, CHAR_PTR, 1)), offset: 8 }, INT, 2);
    assert_eq!(ops_of(&lower(&through))[1], Opcode::Get { offset: 8, bytes: 4 });
}

fn target(kind: TCAssignKind, target_type: TCType, offset: u32) -> TCAssignTarget {
    TCAssignTarget { kind, target_loc: l(5, 5, 1), target_type, offset }
}

#[test]
fn assignments_duplicate_the_value_and_write_the_copy() {
    let to_local = target(TCAssignKind::LocalIdent { var_offset: 2 }, INT, 8);
    let assign = expr(TCExprKind::Assign { target: to_local, value: boxed(number(1, 1)) }, INT, 2);
    assert_eq!(
        ops_of(&lower(&assign)),
        vec![
            Opcode::MakeTempI32(1),
            Opcode::PushDup { bytes: 4 },
            Opcode::SetLocal { var: 2, offset: 8, bytes: 4 },
        ]
    );
    assert_eq!(locs_of(&lower(&assign)), vec![1, 5, 5]);
    let through = target(TCAssignKind::Ptr(boxed(local(0, CHAR_PTR, 6))), CHAR, 0);
    let value = expr(TCExprKind::Uninit, CHAR, 1);
    let assign = expr(TCExprKind::Assign { target: through, value: boxed(value) }, CHAR, 2);
    assert_eq!(
        ops_of(&lower(&assign)),
        vec![
            Opcode::PushUndef { bytes: 1 },
            Opcode::PushDup { bytes: 1 },
            Opcode::GetLocal { var: 0, offset: 0, bytes: 8 },
            Opcode::Store { offset: 0, bytes: 1 },
        ]
    );
    let through = target(TCAssignKind::Ptr(boxed(local(0, CHAR_PTR, 6))), CHAR, 0);
    let code = Assembler::new().translate_assign(&through).unwrap();
    assert_eq!(ops_of(&code).len(), 3);
}

#[test]
fn addresses_are_taken() {
    let of_local = target(TCAssignKind::LocalIdent { var_offset: 3 }, INT, 0);
    assert_eq!(
        ops_of(&lower(&expr(TCExprKind::Ref(of_local), CHAR_PTR, 1))),
        vec![Opcode::MakeTempLocalStackPtr { var: 3, offset: 0 }]
    );
    let of_pointee = target(TCAssignKind::Ptr(boxed(local(0, CHAR_PTR, 6))), CHAR, 0);
    assert_eq!(
        ops_of(&lower(&expr(TCExprKind::Ref(of_pointee), CHAR_PTR, 1))),
        vec![Opcode::GetLocal { var: 0, offset: 0, bytes: 8 }]
    );
}

#[test]
fn targets_are_described() {
    let assembler = Assembler::new();
    let to_local = target(TCAssignKind::LocalIdent { var_offset: 2 }, LONG, 8);
    let seen = assembler.translate_lvalue(&to_local);
    assert!(matches!(seen.kind, ASMAssignKind::StackLocal { var: 2 }));
    assert_eq!((seen.offset, seen.bytes, seen.assign_type), (0, 8, LONG));
    let through = target(TCAssignKind::Ptr(boxed(number(5, 6))), CHAR, 0);
    let seen = assembler.translate_lvalue(&through);
    match seen.kind {
        ASMAssignKind::Ptr(pointer) => assert!(matches!(pointer.kind, TCExprKind::IntLiteral(5))),
        ASMAssignKind::StackLocal { .. } => panic!("the target is behind a pointer"),
    }
    assert_eq!((seen.offset, seen.bytes, seen.assign_type), (0, 1, CHAR));
}

#[test]
fn string_literals_go_to_the_static_data() {
    let mut assembler = Assembler::new();
    let hello = expr(TCExprKind::StringLiteral(b"hi".to_vec()), CHAR_PTR, 1);
    let empty = expr(TCExprKind::StringLiteral(Vec::new()), CHAR_PTR, 2);
    let both = expr(TCExprKind::AddU64(boxed(hello), boxed(empty)), LONG, 3);
    let code = assembler.translate_expr(&both).unwrap();
    assert_eq!(
        ops_of(&code),
        vec![
            Opcode::MakeTempBinaryPtr { var: 1, offset: 0 },
            Opcode::MakeTempBinaryPtr { var: 2, offset: 0 },
            Opcode::AddU64,
        ]
    );
    assert_eq!(assembler.data.data, b"hi\0\0".to_vec());
    assert_eq!(
        assembler.data.vars,
        vec![
            Var { idx: 0, len: 3, meta: META_NO_SYMBOL },
            Var { idx: 3, len: 1, meta: META_NO_SYMBOL },
        ]
    );
    let next = expr(TCExprKind::StringLiteral(b"x".to_vec()), CHAR_PTR, 1);
    assert_eq!(
        ops_of(&assembler.translate_expr(&next).unwrap()),
        vec![Opcode::MakeTempBinaryPtr { var: 3, offset: 0 }]
    );
    assert!(assembler.opcodes.is_empty());
}

fn with_functions(functions: Vec<(u32, TCFunc)>) -> Assembler {
    let mut assembler = Assembler::new();
    assembler.add_file(TypedFuncs { functions }).unwrap();
    assembler
}

#[test]
fn calls_lay_out_the_frame_of_the_callee() {
    let mut assembler = with_functions(vec![
        (60, declared(INT, &[CHAR, LONG], 0)),
        (61, declared(VOID, &[], 0)),
    ]);
    let params = vec![local(0, CHAR, 1), local(1, LONG, 2)];
    let call = expr(TCExprKind::Call { func: 60, params, varargs: false }, INT, 9);
    let code = assembler.translate_expr(&call).unwrap();
    let alloc = |bytes| Opcode::StackAlloc { bytes, symbol: META_NO_SYMBOL };
    assert_eq!(
        ops_of(&code),
        vec![
            alloc(4),
            alloc(1),
            Opcode::GetLocal { var: 0, offset: 0, bytes: 1 },
            Opcode::PopIntoTopVar { offset: 0, bytes: 1 },
            alloc(8),
            Opcode::GetLocal { var: 1, offset: 0, bytes: 8 },
            Opcode::PopIntoTopVar { offset: 0, bytes: 8 },
            Opcode::Call(60),
            Opcode::StackDealloc,
            Opcode::StackDealloc,
            Opcode::StackAddToTemp,
        ]
    );
    assert_eq!(locs_of(&code), vec![9, 9, 1, 9, 9, 2, 9, 9, 9, 9, 9]);

    let call = expr(TCExprKind::Call { func: 61, params: vec![], varargs: false }, VOID, 9);
    assert_eq!(
        ops_of(&assembler.translate_expr(&call).unwrap()),
        vec![alloc(0), Opcode::Call(61), Opcode::StackDealloc]
    );

    let params = vec![number(5, 1)];
    let call = expr(TCExprKind::Call { func: 61, params, varargs: true }, VOID, 9);
    assert_eq!(
        ops_of(&assembler.translate_expr(&call).unwrap()),
        vec![
            alloc(0),
            alloc(4),
            Opcode::MakeTempI32(5),
            Opcode::PopIntoTopVar { offset: 0, bytes: 4 },
            alloc(4),
            Opcode::MakeTempI32(1),
            Opcode::PopIntoTopVar { offset: 0, bytes: 4 },
            Opcode::Call(61),
            Opcode::StackDealloc,
            Opcode::StackDealloc,
            Opcode::StackDealloc,
        ]
    );
}

#[test]
fn calls_of_functions_that_were_never_declared_cannot_be_lowered() {
    let mut assembler = Assembler::new();
    let call = expr(TCExprKind::Call { func: 60, params: vec![], varargs: false }, INT, 9);
    let error = assembler.translate_expr(&call).unwrap_err();
    assert_eq!(error.message, "function cannot be lowered to opcodes");
    let sum = expr(TCExprKind::AddI32(boxed(number(1, 1)), boxed(call)), INT, 4);
    let error = assembler.translate_expr(&sum).unwrap_err();
    assert_eq!(places(&error), vec![l(4, 4, 1)]);

    let body = vec![stmt(TCStmtKind::Expr(sum), 5)];
    let text = expr(TCExprKind::StringLiteral(b"kept out".to_vec()), CHAR_PTR, 1);
    let body = vec![stmt(TCStmtKind::Expr(text), 4), body.into_iter().next().unwrap()];
    let error = assembler.add_function(70, defined(INT, &[], body, 6)).unwrap_err();
    assert_eq!(error.message, "function cannot be lowered to opcodes");
    assert_eq!(places(&error), vec![l(7, 7, 1)]);
    // The assembler is as it was: the string literal of the first
    // statement is gone again.
    assert!(assembler.data.data.is_empty() && assembler.data.vars.is_empty());
    assert!(assembler.opcodes.is_empty());
    assert!(assembler.functions.is_empty());
}

#[test]
fn statements_are_lowered() {
    let mut assembler = Assembler::new();
    let t = func_type(INT, &[INT, INT], false, 0);
    let lower = |assembler: &mut Assembler, kind: TCStmtKind, params: u32| {
        let code = assembler.translate_statement(&t, params, &stmt(kind, 8)).unwrap();
        (ops_of(&code), locs_of(&code))
    };
    assert_eq!(
        lower(&mut assembler, TCStmtKind::RetVal(number(1, 1)), 2),
        (
            vec![
                Opcode::MakeTempI32(1),
                Opcode::SetLocal { var: -3, offset: 0, bytes: 4 },
                Opcode::Ret,
            ],
            vec![1, 8, 8]
        )
    );
    assert_eq!(
        lower(&mut assembler, TCStmtKind::RetVal(local(0, LONG, 1)), 0).0[1],
        Opcode::SetLocal { var: -1, offset: 0, bytes: 8 }
    );
    assert_eq!(
        lower(&mut assembler, TCStmtKind::RetVal(number(1, 1)), 32767).0[1],
        Opcode::SetLocal { var: -32768, offset: 0, bytes: 4 }
    );
    assert_eq!(lower(&mut assembler, TCStmtKind::Ret, 2), (vec![Opcode::Ret], vec![8]));
    assert_eq!(
        lower(&mut assembler, TCStmtKind::Expr(local(0, LONG, 1)), 2).0,
        vec![Opcode::GetLocal { var: 0, offset: 0, bytes: 8 }, Opcode::Pop { bytes: 8 }]
    );
    assert_eq!(
        lower(&mut assembler, TCStmtKind::Decl { init: number(1, 1) }, 2).0,
        vec![
            Opcode::StackAlloc { bytes: 4, symbol: META_NO_SYMBOL },
            Opcode::MakeTempI32(1),
            Opcode::PopIntoTopVar { offset: 0, bytes: 4 },
        ]
    );
    let too_many = assembler.translate_statement(&t, 32768, &stmt(TCStmtKind::RetVal(number(1, 1)), 8));
    assert_eq!(places(&too_many.unwrap_err()), vec![l(8, 8, 1)]);
}

#[test]
fn a_definition_gets_a_header_and_a_closing_ret() {
    let body = vec![stmt(TCStmtKind::RetVal(number(3, 1)), 2)];
    let mut assembler = Assembler::new();
    assembler.add_function(70, defined(INT, &[INT], body, 6)).unwrap();
    assert_eq!(
        ops_of(&assembler.opcodes),
        vec![
            Opcode::Func(70),
            Opcode::MakeTempI32(3),
            Opcode::SetLocal { var: -2, offset: 0, bytes: 4 },
            Opcode::Ret,
            Opcode::Ret,
        ]
    );
    assert_eq!(locs_of(&assembler.opcodes), vec![7, 1, 2, 2, 7]);
    assert_eq!(assembler.functions[&70].func_header, Some((0, l(7, 7, 1))));
    assembler.add_function(71, defined(VOID, &[], vec![], 8)).unwrap();
    assert_eq!(ops_of(&assembler.opcodes)[5..], [Opcode::Func(71), Opcode::Ret]);
    assert_eq!(assembler.functions[&71].func_header, Some((5, l(9, 9, 1))));
}

#[test]
fn a_declaration_is_recorded_and_emits_nothing() {
    let mut assembler = Assembler::new();
    assembler.add_function(70, declared(INT, &[INT], 3)).unwrap();
    assert!(assembler.opcodes.is_empty());
    assert_eq!(assembler.functions[&70].func_header, None);
    assert_eq!(assembler.functions[&70].func_type.loc, l(3, 3, 1));
    // The same type again, at another place and with other names, is the
    // same declaration.
    assembler.add_function(70, declared(INT, &[INT], 4)).unwrap();
    assert_eq!(assembler.functions[&70].func_type.loc, l(3, 3, 1));
    assembler.add_function(70, defined(INT, &[INT], vec![], 5)).unwrap();
    assert_eq!(assembler.functions[&70].func_header, Some((0, l(6, 6, 1))));
    assert_eq!(assembler.functions[&70].func_type.loc, l(3, 3, 1));
    // A declaration after the definition leaves the definition in place.
    assembler.add_function(70, declared(INT, &[INT], 7)).unwrap();
    assert_eq!(assembler.functions[&70].func_header, Some((0, l(6, 6, 1))));
    assert_eq!(assembler.opcodes.len(), 2);
}

#[test]
fn another_type_is_a_declaration_mismatch() {
    for other in [
        declared(LONG, &[INT], 4),
        declared(INT, &[LONG], 4),
        declared(INT, &[], 4),
        declared(INT, &[INT, INT], 4),
        TCFunc { func_type: func_type(INT, &[INT], true, 4), defn: None },
        defined(INT, &[CHAR], vec![], 4),
    ] {
        let mut assembler = Assembler::new();
        assembler.add_function(70, declared(INT, &[INT], 3)).unwrap();
        let error = assembler.add_function(70, other).unwrap_err();
        assert_eq!(error.message, "function declaration type doesn't match previous declaration");
        assert_eq!(places(&error), vec![l(3, 3, 1), l(4, 4, 1)]);
        assert!(assembler.opcodes.is_empty());
    }
    let a = func_type(INT, &[INT, CHAR], false, 1);
    assert!(func_types_match(&a, &copy_func_type(&a)));
    assert!(func_types_match(&a, &func_type(INT, &[INT, CHAR], false, 2)));
    assert!(!func_types_match(&a, &func_type(INT, &[CHAR, INT], false, 1)));
}

#[test]
fn a_second_definition_is_a_redefinition() {
    let mut assembler = Assembler::new();
    assembler.add_function(70, defined(INT, &[], vec![], 3)).unwrap();
    let error = assembler.add_function(70, defined(INT, &[], vec![], 8)).unwrap_err();
    assert_eq!(error.message, "redefinition of function");
    assert_eq!(places(&error), vec![l(4, 4, 1), l(9, 9, 1)]);
    assert_eq!(assembler.opcodes.len(), 2);
}

#[test]
fn a_file_can_call_what_it_declares_later() {
    let call = expr(TCExprKind::Call { func: 71, params: vec![], varargs: false }, LONG, 9);
    let main = defined(INT, &[], vec![stmt(TCStmtKind::Expr(call), 2)], 3);
    let assembler = with_functions(vec![(MAIN_SYMBOL, main), (71, defined(LONG, &[], vec![], 5))]);
    assert_eq!(assembler.func_types[&71], 8);
    assert_eq!(assembler.func_types[&MAIN_SYMBOL], 4);
    assert_eq!(assembler.opcodes[1].op, Opcode::StackAlloc { bytes: 8, symbol: META_NO_SYMBOL });
    let program = assembler.assemble(FileDb::new()).unwrap();
    assert_eq!(program.main_idx, 0);
    assert_eq!(
        ops_of(&program.ops),
        vec![
            Opcode::Func(MAIN_SYMBOL),
            Opcode::StackAlloc { bytes: 8, symbol: META_NO_SYMBOL },
            Opcode::Call(6),
            Opcode::StackAddToTemp,
            Opcode::Pop { bytes: 8 },
            Opcode::Ret,
            Opcode::Func(71),
            Opcode::Ret,
        ]
    );
    assert!(program.check());
}

#[test]
fn the_first_error_ends_the_adding_of_a_file() {
    let mut assembler = Assembler::new();
    let functions = vec![
        (70, defined(INT, &[], vec![], 1)),
        (70, defined(INT, &[], vec![], 3)),
        (71, defined(INT, &[], vec![], 5)),
    ];
    let error = assembler.add_file(TypedFuncs { functions }).unwrap_err();
    assert_eq!(error.message, "redefinition of function");
    assert_eq!(assembler.opcodes.len(), 2);
    assert!(assembler.functions.contains_key(&70) && !assembler.functions.contains_key(&71));
    assert!(assembler.func_types.contains_key(&71));
}

#[test]
fn main_is_found_wherever_it_is_defined() {
    let assembler = with_functions(vec![
        (70, defined(VOID, &[], vec![], 1)),
        (MAIN_SYMBOL, defined(INT, &[], vec![], 3)),
    ]);
    let mut files = FileDb::new();
    files.add("a.c".to_string(), "int main() {}".to_string());
    let program = assembler.assemble(files).unwrap();
    assert_eq!(program.main_idx, 2);
    assert_eq!(program.files.files[0].name, "a.c");
    assert!(program.check());
}

#[test]
fn a_program_without_main_does_not_link() {
    let error = Assembler::new().assemble(FileDb::new()).unwrap_err();
    assert_eq!(error.message, "missing main function definition");
    assert!(error.sections.is_empty());
    let declared_only = with_functions(vec![(MAIN_SYMBOL, declared(INT, &[], 1))]);
    let error = declared_only.assemble(FileDb::new()).unwrap_err();
    assert_eq!(error.message, "missing main function definition");
    let elsewhere = with_functions(vec![(70, defined(INT, &[], vec![], 1))]);
    assert_eq!(elsewhere.assemble(FileDb::new()).unwrap_err().message, missing_main().message);
}

fn calling(func: u32, extra: Vec<(u32, TCFunc)>) -> Assembler {
    let call = expr(TCExprKind::Call { func, params: vec![], varargs: false }, INT, 9);
    let main = defined(INT, &[], vec![stmt(TCStmtKind::Expr(call), 2)], 3);
    let mut functions = extra;
    functions.push((MAIN_SYMBOL, main));
    with_functions(functions)
}

#[test]
fn calls_of_library_functions_become_library_calls() {
    for symbol in [PRINTF_SYMBOL, EXIT_SYMBOL, MALLOC_SYMBOL, REALLOC_SYMBOL, MEMCPY_SYMBOL] {
        assert!(lib_func(symbol));
        let program = calling(symbol, vec![(symbol, declared(INT, &[], 1))]);
        let program = program.assemble(FileDb::new()).unwrap();
        assert_eq!(program.ops[2].op, Opcode::LibCall(symbol));
        assert!(program.check());
    }
    assert!(!lib_func(FREE_SYMBOL) && !lib_func(MAIN_SYMBOL) && !lib_func(77));
    // A definition takes the place of the library function.
    let program = calling(EXIT_SYMBOL, vec![(EXIT_SYMBOL, defined(INT, &[], vec![], 5))]);
    assert_eq!(program.assemble(FileDb::new()).unwrap().ops[4].op, Opcode::Call(0));
}

#[test]
fn calls_of_functions_without_a_definition_do_not_link() {
    let error = calling(70, vec![(70, declared(INT, &[], 1))]).assemble(FileDb::new()).unwrap_err();
    assert_eq!(error.message, "couldn't find definition for function");
    assert_eq!(places(&error), vec![l(9, 9, 1), l(1, 1, 1)]);
    let error = calling(FREE_SYMBOL, vec![(FREE_SYMBOL, declared(INT, &[], 1))])
        .assemble(FileDb::new())
        .unwrap_err();
    assert_eq!(places(&error), vec![l(9, 9, 1), l(1, 1, 1)]);
}

#[test]
fn the_errors_name_their_places() {
    let a = l(1, 2, 3);
    let b = l(4, 5, 3);
    assert_eq!(places(&func_decl_mismatch(a, b)), vec![a, b]);
    assert_eq!(places(&func_redef(a, b)), vec![a, b]);
    assert_eq!(places(&cannot_lower(a)), vec![a]);
    assert_eq!(func_redef(a, b).sections[0].message, "original definition here");
    let error = Error::new("text", Vec::new());
    assert_eq!(error.message, "text");
}
