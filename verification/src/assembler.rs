//! The assembler: it lowers typed function trees to opcodes, lays out the
//! static data, and links calls to function headers and library functions.

use vstd::prelude::*;
use std::collections::HashMap;
use crate::ast::{
    copy_func_type, func_types_match, TCAssignKind, TCAssignTarget, TCExpr,
    TCExprKind, TCFunc, TCFuncDefn, TCFuncType, TCStmt, TCStmtKind, TCType, TypedFuncs,
};
use crate::filedb::{
    FileDb, EXIT_SYMBOL, MAIN_SYMBOL, MALLOC_SYMBOL, MEMCPY_SYMBOL, PRINTF_SYMBOL, REALLOC_SYMBOL,
};
use crate::interpreter::{jump_target, op_in_range, Opcode, Program, TaggedOpcode};
use crate::runtime::{BufferView, Var, VarBuffer, META_NO_SYMBOL, POOL_LIMIT, VAR_LIMIT};
use crate::util::{CodeLoc, Error, ErrorSection};

verus! {

broadcast use vstd::std_specs::hash::group_hash_axioms;

/// An opcode with its location.
pub open spec fn tag(op: Opcode, loc: CodeLoc) -> TaggedOpcode {
    TaggedOpcode { op, loc }
}

/// The string literals of an expression, in the order in which the
/// expression evaluates them.
pub open spec fn expr_strings(e: TCExpr) -> Seq<Seq<u8>>
    decreases e, 0nat,
{
    match e.kind {
        TCExprKind::StringLiteral(bytes) => seq![bytes@],
        TCExprKind::AddI32(l, r) | TCExprKind::AddU64(l, r) | TCExprKind::SubI32(l, r) => {
            expr_strings(*l) + expr_strings(*r)
        },
        TCExprKind::SConv8To32(x)
        | TCExprKind::SConv32To64(x)
        | TCExprKind::ZConv8To32(x)
        | TCExprKind::ZConv32To64(x)
        | TCExprKind::Deref(x) => expr_strings(*x),
        TCExprKind::Member { base, .. } | TCExprKind::PtrMember { base, .. } => expr_strings(
            *base,
        ),
        TCExprKind::Assign { target, value } => expr_strings(*value) + target_strings(target),
        TCExprKind::Ref(target) => target_strings(target),
        TCExprKind::Call { params, .. } => list_strings(params@, params@.len()),
        _ => Seq::empty(),
    }
}

/// The string literals of the first `n` expressions of a list.
pub open spec fn list_strings(params: Seq<TCExpr>, n: nat) -> Seq<Seq<u8>>
    decreases params, n,
{
    if n == 0 || n > params.len() {
        Seq::empty()
    } else {
        list_strings(params, (n - 1) as nat) + expr_strings(params[n - 1])
    }
}

/// The string literals of an assignment target.
pub open spec fn target_strings(t: TCAssignTarget) -> Seq<Seq<u8>>
    decreases t, 0nat,
{
    match t.kind {
        TCAssignKind::Ptr(x) => expr_strings(*x),
        TCAssignKind::LocalIdent { .. } => Seq::empty(),
    }
}

/// Whether an expression can be lowered with the return sizes `ft`: every
/// function that it calls has a return size, no variadic call passes more
/// parameters than a 32-bit count holds, and every member lies within its
/// struct.
pub open spec fn expr_ok(e: TCExpr, ft: Map<u32, u32>) -> bool
    decreases e, 0nat,
{
    match e.kind {
        TCExprKind::AddI32(l, r) | TCExprKind::AddU64(l, r) | TCExprKind::SubI32(l, r) => {
            expr_ok(*l, ft) && expr_ok(*r, ft)
        },
        TCExprKind::SConv8To32(x)
        | TCExprKind::SConv32To64(x)
        | TCExprKind::ZConv8To32(x)
        | TCExprKind::ZConv32To64(x)
        | TCExprKind::Deref(x) => expr_ok(*x, ft),
        TCExprKind::PtrMember { base, .. } => expr_ok(*base, ft),
        TCExprKind::Member { base, offset } => expr_ok(*base, ft) && e.expr_type.size() + offset
            <= base.expr_type.size(),
        TCExprKind::Assign { target, value } => expr_ok(*value, ft) && target_ok(target, ft),
        TCExprKind::Ref(target) => target_ok(target, ft),
        TCExprKind::Call { func, params, varargs } => {
            &&& ft.contains_key(func)
            &&& varargs ==> params@.len() <= i32::MAX
            &&& list_ok(params@, params@.len(), ft)
        },
        _ => true,
    }
}

/// Whether the first `n` expressions of a list can be lowered.
pub open spec fn list_ok(params: Seq<TCExpr>, n: nat, ft: Map<u32, u32>) -> bool
    decreases params, n,
{
    if n == 0 || n > params.len() {
        true
    } else {
        list_ok(params, (n - 1) as nat, ft) && expr_ok(params[n - 1], ft)
    }
}

/// Whether an assignment target can be lowered.
pub open spec fn target_ok(t: TCAssignTarget, ft: Map<u32, u32>) -> bool
    decreases t, 0nat,
{
    match t.kind {
        TCAssignKind::Ptr(x) => expr_ok(*x, ft),
        TCAssignKind::LocalIdent { .. } => true,
    }
}

/// The opcodes that lower an expression. Running them leaves the value of
/// the expression, `e.expr_type.size()` bytes, on top of the operand stack.
/// `ft` gives the return size of each function, and `base` is the number of
/// static variables that exist before the expression adds its string
/// literals.
pub open spec fn expr_code(e: TCExpr, ft: Map<u32, u32>, base: nat) -> Seq<TaggedOpcode>
    decreases e, 0nat,
{
    match e.kind {
        TCExprKind::Uninit => seq![tag(Opcode::PushUndef { bytes: e.expr_type.size() }, e.loc)],
        TCExprKind::IntLiteral(v) => seq![tag(Opcode::MakeTempI32(v), e.loc)],
        TCExprKind::LongLiteral(v) => seq![tag(Opcode::MakeTempI64(v), e.loc)],
        TCExprKind::ULongLiteral(v) => seq![tag(Opcode::MakeTempU64(v), e.loc)],
        TCExprKind::StringLiteral(_) => seq![
            tag(Opcode::MakeTempBinaryPtr { var: (base + 1) as u32, offset: 0 }, e.loc),
        ],
        TCExprKind::LocalIdent { var_offset } => seq![
            tag(
                Opcode::GetLocal { var: var_offset, offset: 0, bytes: e.expr_type.size() },
                e.loc,
            ),
        ],
        TCExprKind::AddI32(l, r) => expr_code(*l, ft, base) + expr_code(
            *r,
            ft,
            base + expr_strings(*l).len(),
        ) + seq![tag(Opcode::AddU32, e.loc)],
        TCExprKind::AddU64(l, r) => expr_code(*l, ft, base) + expr_code(
            *r,
            ft,
            base + expr_strings(*l).len(),
        ) + seq![tag(Opcode::AddU64, e.loc)],
        TCExprKind::SubI32(l, r) => expr_code(*l, ft, base) + expr_code(
            *r,
            ft,
            base + expr_strings(*l).len(),
        ) + seq![tag(Opcode::SubI32, e.loc)],
        TCExprKind::SConv8To32(x) => expr_code(*x, ft, base) + seq![
            tag(Opcode::SExtend8To32, e.loc),
        ],
        TCExprKind::SConv32To64(x) => expr_code(*x, ft, base) + seq![
            tag(Opcode::SExtend32To64, e.loc),
        ],
        TCExprKind::ZConv8To32(x) => expr_code(*x, ft, base) + seq![
            tag(Opcode::ZExtend8To32, e.loc),
        ],
        TCExprKind::ZConv32To64(x) => expr_code(*x, ft, base) + seq![
            tag(Opcode::ZExtend32To64, e.loc),
        ],
        TCExprKind::Assign { target, value } => expr_code(*value, ft, base) + target_code(
            target,
            ft,
            base + expr_strings(*value).len(),
        ),
        TCExprKind::Member { base: inner, offset } => expr_code(*inner, ft, base) + seq![
            tag(
                Opcode::Pop {
                    bytes: (inner.expr_type.size() - e.expr_type.size() - offset) as u32,
                },
                e.loc,
            ),
            tag(Opcode::PopKeep { keep: e.expr_type.size(), drop: offset }, e.loc),
        ],
        TCExprKind::PtrMember { base: inner, offset } => expr_code(*inner, ft, base) + seq![
            tag(Opcode::Get { offset, bytes: e.expr_type.size() }, e.loc),
        ],
        TCExprKind::Deref(x) => expr_code(*x, ft, base) + seq![
            tag(Opcode::Get { offset: 0, bytes: e.expr_type.size() }, e.loc),
        ],
        TCExprKind::Ref(target) => match target.kind {
            TCAssignKind::LocalIdent { var_offset } => seq![
                tag(Opcode::MakeTempLocalStackPtr { var: var_offset, offset: 0 }, e.loc),
            ],
            TCAssignKind::Ptr(x) => expr_code(*x, ft, base),
        },
        TCExprKind::Call { func, params, varargs } => seq![
            tag(Opcode::StackAlloc { bytes: ft[func], symbol: META_NO_SYMBOL }, e.loc),
        ] + list_code(params@, params@.len(), ft, base, e.loc) + count_code(
            params@.len(),
            varargs,
            e.loc,
        ) + seq![tag(Opcode::Call(func), e.loc)] + call_cleanup(
            params@.len(),
            varargs,
            ft[func],
            e.loc,
        ),
    }
}

/// The opcodes that put the first `n` parameters of a call into stack
/// variables, one variable for each parameter.
pub open spec fn list_code(
    params: Seq<TCExpr>,
    n: nat,
    ft: Map<u32, u32>,
    base: nat,
    loc: CodeLoc,
) -> Seq<TaggedOpcode>
    decreases params, n,
{
    if n == 0 || n > params.len() {
        Seq::empty()
    } else {
        list_code(params, (n - 1) as nat, ft, base, loc) + seq![
            tag(
                Opcode::StackAlloc {
                    bytes: params[n - 1].expr_type.size(),
                    symbol: META_NO_SYMBOL,
                },
                loc,
            ),
        ] + expr_code(params[n - 1], ft, base + list_strings(params, (n - 1) as nat).len())
            + seq![
            tag(
                Opcode::PopIntoTopVar { offset: 0, bytes: params[n - 1].expr_type.size() },
                loc,
            ),
        ]
    }
}

/// The opcodes that pass the number of parameters to a variadic function.
pub open spec fn count_code(n: nat, varargs: bool, loc: CodeLoc) -> Seq<TaggedOpcode> {
    if varargs {
        seq![
            tag(Opcode::StackAlloc { bytes: 4, symbol: META_NO_SYMBOL }, loc),
            tag(Opcode::MakeTempI32(n as i32), loc),
            tag(Opcode::PopIntoTopVar { offset: 0, bytes: 4 }, loc),
        ]
    } else {
        Seq::empty()
    }
}

/// The opcodes that follow a call: one `StackDealloc` for each parameter,
/// one more for the count of a variadic call, and then the return slot is
/// freed where it is empty and turned into operand bytes where it is not.
pub open spec fn call_cleanup(n: nat, varargs: bool, return_size: u32, loc: CodeLoc) -> Seq<
    TaggedOpcode,
> {
    Seq::new(if varargs { n + 1 } else { n }, |i: int| tag(Opcode::StackDealloc, loc)) + seq![
        tag(
            if return_size == 0 {
                Opcode::StackDealloc
            } else {
                Opcode::StackAddToTemp
            },
            loc,
        ),
    ]
}

/// The opcodes that write the value on top of the operand stack to an
/// assignment target and leave the value where it is.
pub open spec fn target_code(t: TCAssignTarget, ft: Map<u32, u32>, base: nat) -> Seq<TaggedOpcode>
    decreases t, 0nat,
{
    match t.kind {
        TCAssignKind::Ptr(x) => seq![
            tag(Opcode::PushDup { bytes: t.target_type.size() }, t.target_loc),
        ] + expr_code(*x, ft, base) + seq![
            tag(Opcode::Store { offset: 0, bytes: t.target_type.size() }, t.target_loc),
        ],
        TCAssignKind::LocalIdent { var_offset } => seq![
            tag(Opcode::PushDup { bytes: t.target_type.size() }, t.target_loc),
            tag(
                Opcode::SetLocal {
                    var: var_offset,
                    offset: t.offset,
                    bytes: t.target_type.size(),
                },
                t.target_loc,
            ),
        ],
    }
}

/// The number of bytes that the strings take in the static data: each
/// string and its terminating zero byte.
pub open spec fn strings_size(strings: Seq<Seq<u8>>) -> nat
    decreases strings.len(),
{
    if strings.len() == 0 {
        0
    } else {
        strings_size(strings.drop_last()) + strings.last().len() + 1
    }
}

/// The static data with one more variable that holds `string` and a
/// terminating zero byte.
pub open spec fn with_string(data: BufferView, string: Seq<u8>) -> BufferView {
    BufferView {
        data: data.data + string + seq![0u8],
        vars: data.vars.push(
            Var {
                idx: data.data.len() as usize,
                len: (string.len() + 1) as u32,
                meta: META_NO_SYMBOL,
            },
        ),
    }
}

/// The static data with one more variable for each of the strings.
pub open spec fn with_strings(data: BufferView, strings: Seq<Seq<u8>>) -> BufferView
    decreases strings.len(),
{
    if strings.len() == 0 {
        data
    } else {
        with_string(with_strings(data, strings.drop_last()), strings.last())
    }
}

/// Whether `new` is `old` with more bytes and variables at the end.
pub open spec fn extends(new: BufferView, old: BufferView) -> bool {
    &&& old.data.len() <= new.data.len()
    &&& old.vars.len() <= new.vars.len()
    &&& forall|i: int| 0 <= i < old.data.len() ==> #[trigger] new.data[i] == old.data[i]
    &&& forall|i: int| 0 <= i < old.vars.len() ==> #[trigger] new.vars[i] == old.vars[i]
}

/// Whether the static data has room for the strings.
pub open spec fn can_hold(data: BufferView, strings: Seq<Seq<u8>>) -> bool {
    data.vars.len() + strings.len() <= VAR_LIMIT && data.data.len() + strings_size(strings)
        <= POOL_LIMIT
}

/// The size of strings taken together is the sum of their sizes, and
/// adding strings in two rounds is adding them all.
pub proof fn lemma_strings_append(data: BufferView, a: Seq<Seq<u8>>, b: Seq<Seq<u8>>)
    ensures
        strings_size(a + b) == strings_size(a) + strings_size(b),
        with_strings(data, a + b) == with_strings(with_strings(data, a), b),
        with_strings(data, a).vars.len() == data.vars.len() + a.len(),
        with_strings(data, a).data.len() == data.data.len() + strings_size(a),
    decreases b.len(), a.len(),
{
    if a.len() > 0 {
        lemma_strings_append(data, a.drop_last(), Seq::empty());
    }
    if b.len() == 0 {
        assert(a + b =~= a);
    } else {
        lemma_strings_append(data, a, b.drop_last());
        assert((a + b).drop_last() =~= a + b.drop_last());
        assert((a + b).last() == b.last());
    }
}

/// The kinds of compile-time error that the assembler reports.
#[derive(Debug, Clone, Copy, PartialEq, Eq, Structural)]
pub enum AsmErrorKind {
    /// A function is declared again with another type.
    DeclMismatch,
    /// A function is defined a second time.
    Redefinition,
    /// The program defines no `main`.
    MissingMain,
    /// A call names a function that is neither defined nor a library
    /// function.
    Undefined,
    /// A function body cannot be lowered: it calls a function that was
    /// never declared, reads a member past the end of its struct, or the
    /// program has grown past what the machine can address.
    CannotLower,
}

/// The message of each kind of error.
pub open spec fn asm_message(kind: AsmErrorKind) -> Seq<char> {
    match kind {
        AsmErrorKind::DeclMismatch => "function declaration type doesn't match previous declaration"@,
        AsmErrorKind::Redefinition => "redefinition of function"@,
        AsmErrorKind::MissingMain => "missing main function definition"@,
        AsmErrorKind::Undefined => "couldn't find definition for function"@,
        AsmErrorKind::CannotLower => "function cannot be lowered to opcodes"@,
    }
}

/// What an error of each kind says about its places.
pub open spec fn asm_notes(kind: AsmErrorKind) -> Seq<Seq<char>> {
    match kind {
        AsmErrorKind::DeclMismatch => seq!["original declaration here"@, "new declaration here"@],
        AsmErrorKind::Redefinition => seq!["original definition here"@, "second definition here"@],
        AsmErrorKind::MissingMain => Seq::empty(),
        AsmErrorKind::Undefined => seq!["called here"@, "declared here"@],
        AsmErrorKind::CannotLower => seq!["in this code"@],
    }
}

/// Whether `e` is the error of the given kind about the given places: it
/// has the message of the kind, and says of each place what the kind says
/// of it.
pub open spec fn is_error(e: Error, kind: AsmErrorKind, places: Seq<CodeLoc>) -> bool {
    &&& e.message@ == asm_message(kind)
    &&& e.places() == places
    &&& e.notes() == asm_notes(kind).take(places.len() as int)
}

/// An error about two places.
fn error_at(message: &str, first: CodeLoc, first_note: &str, second: CodeLoc, second_note: &str) -> (e:
    Error)
    ensures
        e.message@ == message@,
        e.places() == seq![first, second],
        e.notes() == seq![first_note@, second_note@],
{
    let mut sections: Vec<ErrorSection> = Vec::new();
    sections.push(ErrorSection { location: first, message: first_note.to_owned() });
    sections.push(ErrorSection { location: second, message: second_note.to_owned() });
    let e = Error::new(message, sections);
    assert(e.places() =~= seq![first, second]);
    assert(e.notes() =~= seq![first_note@, second_note@]);
    e
}

/// An error about one place.
fn error_near(message: &str, place: CodeLoc, note: &str) -> (e: Error)
    ensures
        e.message@ == message@,
        e.places() == seq![place],
        e.notes() == seq![note@],
{
    let mut sections: Vec<ErrorSection> = Vec::new();
    sections.push(ErrorSection { location: place, message: note.to_owned() });
    let e = Error::new(message, sections);
    assert(e.places() =~= seq![place]);
    assert(e.notes() =~= seq![note@]);
    e
}

/// The error for a function that is declared again with another type.
pub fn func_decl_mismatch(original: CodeLoc, new: CodeLoc) -> (e: Error)
    ensures
        is_error(e, AsmErrorKind::DeclMismatch, seq![original, new]),
{
    assert(asm_notes(AsmErrorKind::DeclMismatch).take(2) =~= asm_notes(AsmErrorKind::DeclMismatch));
    error_at(
        "function declaration type doesn't match previous declaration",
        original,
        "original declaration here",
        new,
        "new declaration here",
    )
}

/// The error for a function that is defined a second time.
pub fn func_redef(original: CodeLoc, new: CodeLoc) -> (e: Error)
    ensures
        is_error(e, AsmErrorKind::Redefinition, seq![original, new]),
{
    assert(asm_notes(AsmErrorKind::Redefinition).take(2) =~= asm_notes(AsmErrorKind::Redefinition));
    error_at(
        "redefinition of function",
        original,
        "original definition here",
        new,
        "second definition here",
    )
}

/// The error for code that cannot be lowered.
pub fn cannot_lower(place: CodeLoc) -> (e: Error)
    ensures
        is_error(e, AsmErrorKind::CannotLower, seq![place]),
{
    assert(asm_notes(AsmErrorKind::CannotLower).take(1) =~= asm_notes(AsmErrorKind::CannotLower));
    error_near("function cannot be lowered to opcodes", place, "in this code")
}

/// What the assembler knows of a function: its type and, once it is
/// defined, the index of its header opcode and the location of its
/// definition.
#[derive(Debug)]
pub struct ASMFunc {
    pub func_type: TCFuncType,
    pub func_header: Option<(u32, CodeLoc)>,
}

/// What an assignment writes to.
#[derive(Debug)]
pub enum ASMAssignKind<'a> {
    StackLocal { var: i16 },
    Ptr(&'a TCExpr),
}

/// An assignment target as the assembler sees it.
#[derive(Debug)]
pub struct ASMAssign<'a> {
    pub kind: ASMAssignKind<'a>,
    pub assign_type: TCType,
    pub offset: u32,
    pub bytes: u32,
}

/// A program that is being built.
pub struct Assembler {
    pub opcodes: Vec<TaggedOpcode>,
    pub func_types: HashMap<u32, u32>,
    pub data: VarBuffer,
    pub functions: HashMap<u32, ASMFunc>,
}

/// Whether opcodes hold no jump.
pub open spec fn no_jumps(ops: Seq<TaggedOpcode>) -> bool {
    forall|i: int| 0 <= i < ops.len() ==> jump_target((#[trigger] ops[i]).op) is None
}

impl Assembler {
    /// The opcodes so far end every function with `Ret` and hold no jump,
    /// every header that a function records is a header opcode, and the
    /// static data is well formed.
    pub open spec fn wf(&self) -> bool {
        &&& self.data@.wf()
        &&& self.opcodes@.len() <= u32::MAX
        &&& self.opcodes@.len() > 0 ==> self.opcodes@.last().op is Ret
        &&& no_jumps(self.opcodes@)
        &&& forall|sym: u32| #[trigger]
            self.functions@.contains_key(sym) ==> (self.functions@[sym].func_header matches Some(
                header,
            ) ==> header.0 < self.opcodes@.len() && self.opcodes@[header.0 as int].op
                == Opcode::Func(sym))
    }

    /// Whether the assembler can lower `e`: the expression is sound with
    /// respect to the functions declared so far, and the static data has
    /// room for its string literals.
    pub open spec fn fits(&self, e: TCExpr) -> bool {
        expr_ok(e, self.func_types@) && can_hold(self.data@, expr_strings(e))
    }

    /// Whether `other` differs from this assembler in its static data at
    /// most.
    pub open spec fn same_but_data(&self, other: &Assembler) -> bool {
        &&& self.opcodes == other.opcodes
        &&& self.func_types == other.func_types
        &&& self.functions == other.functions
    }

    /// An assembler that holds nothing yet.
    pub fn new() -> (a: Assembler)
        ensures
            a.wf(),
            a.opcodes@.len() == 0,
            a.func_types@ == Map::<u32, u32>::empty(),
            a.functions@ == Map::<u32, ASMFunc>::empty(),
            a.data@ == BufferView::empty(),
    {
        Assembler {
            opcodes: Vec::new(),
            data: VarBuffer::new(),
            functions: HashMap::new(),
            func_types: HashMap::new(),
        }
    }

    /// Adds a string literal to the static data and returns the id of its
    /// variable.
    fn add_string(&mut self, val: &Vec<u8>) -> (r: Option<u32>)
        requires
            old(self).wf(),
        ensures
            final(self).wf(),
            final(self).same_but_data(old(self)),
            extends(final(self).data@, old(self).data@),
            match r {
                Some(var) => can_hold(old(self).data@, seq![val@]) && final(self).data@
                    == with_string(old(self).data@, val@) && var == old(self).data@.vars.len() + 1,
                None => !can_hold(old(self).data@, seq![val@]) && final(self).data@ == old(
                    self,
                ).data@,
            },
    {
        assert(strings_size(seq![val@]) == val@.len() + 1) by {
            assert(seq![val@].drop_last() =~= Seq::<Seq<u8>>::empty());
            assert(strings_size(Seq::<Seq<u8>>::empty()) == 0);
        }
        if val.len() >= POOL_LIMIT {
            return None;
        }
        let start: usize = self.data.data.len();
        match self.data.add_var(val.len() as u32 + 1, META_NO_SYMBOL) {
            Some(var) => {
                self.data.write(start, val);
                assert(self.data@.data =~= old(self).data@.data + val@ + seq![0u8]);
                Some(var)
            },
            None => None,
        }
    }

    /// Lowers an expression to opcodes and adds its string literals to the
    /// static data.
    pub fn translate_expr(&mut self, expr: &TCExpr) -> (r: Result<Vec<TaggedOpcode>, Error>)
        requires
            old(self).wf(),
        ensures
            final(self).wf(),
            final(self).same_but_data(old(self)),
            extends(final(self).data@, old(self).data@),
            match r {
                Ok(ops) => {
                    &&& old(self).fits(*expr)
                    &&& ops@ == expr_code(
                        *expr,
                        old(self).func_types@,
                        old(self).data@.vars.len(),
                    )
                    &&& final(self).data@ == with_strings(old(self).data@, expr_strings(*expr))
                    &&& no_jumps(ops@)
                },
                Err(e) => !old(self).fits(*expr) && is_error(
                    e,
                    AsmErrorKind::CannotLower,
                    seq![expr.loc],
                ),
            },
        decreases expr, 1nat,
    {
        let mut ops: Vec<TaggedOpcode> = Vec::new();
        let loc: CodeLoc = expr.loc;
        let size: u32 = expr.expr_type.size();
        proof {
            lemma_strings_append(self.data@, Seq::empty(), Seq::empty());
        }
        match &expr.kind {
            TCExprKind::Uninit => {
                ops.push(TaggedOpcode { op: Opcode::PushUndef { bytes: size }, loc });
            },
            TCExprKind::IntLiteral(val) => {
                ops.push(TaggedOpcode { op: Opcode::MakeTempI32(*val), loc });
            },
            TCExprKind::LongLiteral(val) => {
                ops.push(TaggedOpcode { op: Opcode::MakeTempI64(*val), loc });
            },
            TCExprKind::ULongLiteral(val) => {
                ops.push(TaggedOpcode { op: Opcode::MakeTempU64(*val), loc });
            },
            TCExprKind::StringLiteral(val) => {
                proof {
                    assert(seq![val@].drop_last() =~= Seq::<Seq<u8>>::empty());
                }
                match self.add_string(val) {
                    Some(var) => {
                        ops.push(
                            TaggedOpcode { op: Opcode::MakeTempBinaryPtr { var, offset: 0 }, loc },
                        );
                    },
                    None => {
                        return Err(cannot_lower(loc));
                    },
                }
            },
            TCExprKind::LocalIdent { var_offset } => {
                ops.push(
                    TaggedOpcode {
                        op: Opcode::GetLocal { var: *var_offset, offset: 0, bytes: size },
                        loc,
                    },
                );
            },
            TCExprKind::AddI32(_, _) => {
                return self.translate_binary(expr, Opcode::AddU32);
            },
            TCExprKind::AddU64(_, _) => {
                return self.translate_binary(expr, Opcode::AddU64);
            },
            TCExprKind::SubI32(_, _) => {
                return self.translate_binary(expr, Opcode::SubI32);
            },
            TCExprKind::SConv8To32(_) => {
                return self.translate_unary(expr, Opcode::SExtend8To32);
            },
            TCExprKind::SConv32To64(_) => {
                return self.translate_unary(expr, Opcode::SExtend32To64);
            },
            TCExprKind::ZConv8To32(_) => {
                return self.translate_unary(expr, Opcode::ZExtend8To32);
            },
            TCExprKind::ZConv32To64(_) => {
                return self.translate_unary(expr, Opcode::ZExtend32To64);
            },
            TCExprKind::Deref(_) => {
                return self.translate_unary(expr, Opcode::Get { offset: 0, bytes: size });
            },
            TCExprKind::PtrMember { offset, .. } => {
                return self.translate_unary(expr, Opcode::Get { offset: *offset, bytes: size });
            },
            TCExprKind::Member { base, offset } => {
                let base_bytes: u32 = base.expr_type.size();
                if size as u64 + *offset as u64 > base_bytes as u64 {
                    return Err(cannot_lower(loc));
                }
                let mut code = match self.translate_expr(base) {
                    Ok(code) => code,
                    Err(_) => {
                        return Err(cannot_lower(loc));
                    },
                };
                ops.append(&mut code);
                ops.push(
                    TaggedOpcode { op: Opcode::Pop { bytes: base_bytes - size - *offset }, loc },
                );
                ops.push(TaggedOpcode { op: Opcode::PopKeep { keep: size, drop: *offset }, loc });
                assert(ops@ =~= expr_code(
                    *expr,
                    old(self).func_types@,
                    old(self).data@.vars.len(),
                ));
            },
            TCExprKind::Assign { target, value } => {
                proof {
                    lemma_strings_append(
                        old(self).data@,
                        expr_strings(**value),
                        target_strings(*target),
                    );
                }
                let mut code = match self.translate_expr(value) {
                    Ok(code) => code,
                    Err(_) => {
                        return Err(cannot_lower(loc));
                    },
                };
                let mut tail = match self.translate_assign(target) {
                    Ok(code) => code,
                    Err(_) => {
                        return Err(cannot_lower(loc));
                    },
                };
                ops.append(&mut code);
                ops.append(&mut tail);
                assert(ops@ =~= expr_code(
                    *expr,
                    old(self).func_types@,
                    old(self).data@.vars.len(),
                ));
            },
            TCExprKind::Ref(lvalue) => match &lvalue.kind {
                TCAssignKind::LocalIdent { var_offset } => {
                    assert(target_ok(*lvalue, self.func_types@));
                    assert(target_strings(*lvalue) == Seq::<Seq<u8>>::empty());
                    ops.push(
                        TaggedOpcode {
                            op: Opcode::MakeTempLocalStackPtr { var: *var_offset, offset: 0 },
                            loc,
                        },
                    );
                },
                TCAssignKind::Ptr(x) => {
                    assert(target_ok(*lvalue, self.func_types@) == expr_ok(
                        **x,
                        self.func_types@,
                    ));
                    assert(target_strings(*lvalue) == expr_strings(**x));
                    let mut code = match self.translate_expr(x) {
                        Ok(code) => code,
                        Err(_) => {
                            return Err(cannot_lower(loc));
                        },
                    };
                    let ghost inner = code@;
                    ops.append(&mut code);
                    assert(ops@ =~= inner);
                },
            },
            TCExprKind::Call { .. } => {
                return self.translate_call(expr);
            },
        }
        Ok(ops)
    }

    /// Lowers an expression with one operand: the operand, then `op`.
    fn translate_unary(&mut self, expr: &TCExpr, op: Opcode) -> (r: Result<
        Vec<TaggedOpcode>,
        Error,
    >)
        requires
            old(self).wf(),
            jump_target(op) is None,
            unary_operand(*expr) is Some,
        ensures
            final(self).wf(),
            final(self).same_but_data(old(self)),
            extends(final(self).data@, old(self).data@),
            match r {
                Ok(ops) => {
                    &&& old(self).fits(unary_operand(*expr)->Some_0)
                    &&& ops@ == expr_code(
                        unary_operand(*expr)->Some_0,
                        old(self).func_types@,
                        old(self).data@.vars.len(),
                    ) + seq![tag(op, expr.loc)]
                    &&& final(self).data@ == with_strings(
                        old(self).data@,
                        expr_strings(unary_operand(*expr)->Some_0),
                    )
                    &&& no_jumps(ops@)
                },
                Err(e) => !old(self).fits(unary_operand(*expr)->Some_0) && is_error(
                    e,
                    AsmErrorKind::CannotLower,
                    seq![expr.loc],
                ),
            },
        decreases expr, 0nat,
    {
        let inner: &TCExpr = match &expr.kind {
            TCExprKind::SConv8To32(x)
            | TCExprKind::SConv32To64(x)
            | TCExprKind::ZConv8To32(x)
            | TCExprKind::ZConv32To64(x)
            | TCExprKind::Deref(x) => x,
            TCExprKind::PtrMember { base, .. } => base,
            _ => {
                return Err(cannot_lower(expr.loc));
            },
        };
        let mut ops = match self.translate_expr(inner) {
            Ok(code) => code,
            Err(_) => {
                return Err(cannot_lower(expr.loc));
            },
        };
        ops.push(TaggedOpcode { op, loc: expr.loc });
        Ok(ops)
    }

    /// Lowers an expression with two operands: the left operand, the right
    /// operand, then `op`.
    fn translate_binary(&mut self, expr: &TCExpr, op: Opcode) -> (r: Result<
        Vec<TaggedOpcode>,
        Error,
    >)
        requires
            old(self).wf(),
            jump_target(op) is None,
            binary_operands(*expr) is Some,
        ensures
            final(self).wf(),
            final(self).same_but_data(old(self)),
            extends(final(self).data@, old(self).data@),
            match r {
                Ok(ops) => {
                    &&& old(self).fits(binary_operands(*expr)->Some_0.0)
                    &&& expr_ok(binary_operands(*expr)->Some_0.1, old(self).func_types@)
                    &&& can_hold(
                        old(self).data@,
                        expr_strings(binary_operands(*expr)->Some_0.0) + expr_strings(
                            binary_operands(*expr)->Some_0.1,
                        ),
                    )
                    &&& ops@ == expr_code(
                        binary_operands(*expr)->Some_0.0,
                        old(self).func_types@,
                        old(self).data@.vars.len(),
                    ) + expr_code(
                        binary_operands(*expr)->Some_0.1,
                        old(self).func_types@,
                        old(self).data@.vars.len() + expr_strings(
                            binary_operands(*expr)->Some_0.0,
                        ).len(),
                    ) + seq![tag(op, expr.loc)]
                    &&& final(self).data@ == with_strings(
                        old(self).data@,
                        expr_strings(binary_operands(*expr)->Some_0.0) + expr_strings(
                            binary_operands(*expr)->Some_0.1,
                        ),
                    )
                    &&& no_jumps(ops@)
                },
                Err(e) => !(expr_ok(binary_operands(*expr)->Some_0.0, old(self).func_types@)
                    && expr_ok(binary_operands(*expr)->Some_0.1, old(self).func_types@)
                    && can_hold(
                    old(self).data@,
                    expr_strings(binary_operands(*expr)->Some_0.0) + expr_strings(
                        binary_operands(*expr)->Some_0.1,
                    ),
                )) && is_error(e, AsmErrorKind::CannotLower, seq![expr.loc]),
            },
        decreases expr, 0nat,
    {
        let (l, r): (&TCExpr, &TCExpr) = match &expr.kind {
            TCExprKind::AddI32(l, r) | TCExprKind::AddU64(l, r) | TCExprKind::SubI32(l, r) => (
                l,
                r,
            ),
            _ => {
                return Err(cannot_lower(expr.loc));
            },
        };
        proof {
            lemma_strings_append(old(self).data@, expr_strings(*l), expr_strings(*r));
        }
        let mut ops = match self.translate_expr(l) {
            Ok(code) => code,
            Err(_) => {
                return Err(cannot_lower(expr.loc));
            },
        };
        let mut right = match self.translate_expr(r) {
            Ok(code) => code,
            Err(_) => {
                return Err(cannot_lower(expr.loc));
            },
        };
        ops.append(&mut right);
        ops.push(TaggedOpcode { op, loc: expr.loc });
        Ok(ops)
    }

    /// Lowers the first `n` parameters of a call.
    fn translate_params(&mut self, params: &Vec<TCExpr>, n: usize, loc: CodeLoc) -> (r: Result<
        Vec<TaggedOpcode>,
        Error,
    >)
        requires
            old(self).wf(),
            n <= params@.len(),
        ensures
            final(self).wf(),
            final(self).same_but_data(old(self)),
            extends(final(self).data@, old(self).data@),
            match r {
                Ok(ops) => {
                    &&& list_ok(params@, n as nat, old(self).func_types@)
                    &&& can_hold(old(self).data@, list_strings(params@, n as nat))
                    &&& ops@ == list_code(
                        params@,
                        n as nat,
                        old(self).func_types@,
                        old(self).data@.vars.len(),
                        loc,
                    )
                    &&& final(self).data@ == with_strings(
                        old(self).data@,
                        list_strings(params@, n as nat),
                    )
                    &&& no_jumps(ops@)
                },
                Err(e) => !(list_ok(params@, n as nat, old(self).func_types@) && can_hold(
                    old(self).data@,
                    list_strings(params@, n as nat),
                )) && is_error(e, AsmErrorKind::CannotLower, seq![loc]),
            },
        decreases params, n,
    {
        proof {
            lemma_strings_append(self.data@, Seq::empty(), Seq::empty());
        }
        if n == 0 {
            return Ok(Vec::new());
        }
        proof {
            lemma_strings_append(
                old(self).data@,
                list_strings(params@, (n - 1) as nat),
                expr_strings(params@[n - 1]),
            );
        }
        let mut ops = match self.translate_params(params, n - 1, loc) {
            Ok(code) => code,
            Err(e) => {
                return Err(e);
            },
        };
        let param: &TCExpr = &params[n - 1];
        let bytes: u32 = param.expr_type.size();
        ops.push(TaggedOpcode { op: Opcode::StackAlloc { bytes, symbol: META_NO_SYMBOL }, loc });
        let mut code = match self.translate_expr(param) {
            Ok(code) => code,
            Err(_) => {
                return Err(cannot_lower(loc));
            },
        };
        ops.append(&mut code);
        ops.push(TaggedOpcode { op: Opcode::PopIntoTopVar { offset: 0, bytes }, loc });
        assert(ops@ =~= list_code(
            params@,
            n as nat,
            old(self).func_types@,
            old(self).data@.vars.len(),
            loc,
        ));
        Ok(ops)
    }

    /// Lowers a call: the return slot, the parameters, the count of a
    /// variadic call, the call, and the cleanup.
    fn translate_call(&mut self, expr: &TCExpr) -> (r: Result<Vec<TaggedOpcode>, Error>)
        requires
            old(self).wf(),
            expr.kind is Call,
        ensures
            final(self).wf(),
            final(self).same_but_data(old(self)),
            extends(final(self).data@, old(self).data@),
            match r {
                Ok(ops) => {
                    &&& old(self).fits(*expr)
                    &&& ops@ == expr_code(
                        *expr,
                        old(self).func_types@,
                        old(self).data@.vars.len(),
                    )
                    &&& final(self).data@ == with_strings(old(self).data@, expr_strings(*expr))
                    &&& no_jumps(ops@)
                },
                Err(e) => !old(self).fits(*expr) && is_error(
                    e,
                    AsmErrorKind::CannotLower,
                    seq![expr.loc],
                ),
            },
        decreases expr, 0nat,
    {
        let loc: CodeLoc = expr.loc;
        let (func, params, varargs): (u32, &Vec<TCExpr>, bool) = match &expr.kind {
            TCExprKind::Call { func, params, varargs } => (*func, params, *varargs),
            _ => {
                return Err(cannot_lower(loc));
            },
        };
        let rtype_size: u32 = match self.func_types.get(&func) {
            Some(size) => *size,
            None => {
                return Err(cannot_lower(loc));
            },
        };
        let count: usize = params.len();
        if varargs && count > i32::MAX as usize {
            return Err(cannot_lower(loc));
        }
        let mut ops: Vec<TaggedOpcode> = Vec::new();
        ops.push(
            TaggedOpcode { op: Opcode::StackAlloc { bytes: rtype_size, symbol: META_NO_SYMBOL }, loc },
        );
        let mut code = match self.translate_params(params, count, loc) {
            Ok(code) => code,
            Err(e) => {
                return Err(e);
            },
        };
        ops.append(&mut code);
        if varargs {
            ops.push(TaggedOpcode { op: Opcode::StackAlloc { bytes: 4, symbol: META_NO_SYMBOL }, loc });
            ops.push(TaggedOpcode { op: Opcode::MakeTempI32(count as i32), loc });
            ops.push(TaggedOpcode { op: Opcode::PopIntoTopVar { offset: 0, bytes: 4 }, loc });
        }
        ops.push(TaggedOpcode { op: Opcode::Call(func), loc });
        let ghost front = ops@;
        let frees: usize = if varargs { count + 1 } else { count };
        let mut i: usize = 0;
        while i < frees
            invariant
                i <= frees,
                no_jumps(ops@),
                ops@ == front + Seq::new(i as nat, |k: int| tag(Opcode::StackDealloc, loc)),
            decreases frees - i,
        {
            ops.push(TaggedOpcode { op: Opcode::StackDealloc, loc });
            i = i + 1;
            assert(ops@ =~= front + Seq::new(i as nat, |k: int| tag(Opcode::StackDealloc, loc)));
        }
        if rtype_size == 0 {
            ops.push(TaggedOpcode { op: Opcode::StackDealloc, loc });
        } else {
            ops.push(TaggedOpcode { op: Opcode::StackAddToTemp, loc });
        }
        assert(ops@ =~= expr_code(*expr, old(self).func_types@, old(self).data@.vars.len()));
        Ok(ops)
    }

    /// Lowers the write to an assignment target.
    pub fn translate_assign(&mut self, assign: &TCAssignTarget) -> (r: Result<
        Vec<TaggedOpcode>,
        Error,
    >)
        requires
            old(self).wf(),
        ensures
            final(self).wf(),
            final(self).same_but_data(old(self)),
            extends(final(self).data@, old(self).data@),
            match r {
                Ok(ops) => {
                    &&& target_ok(*assign, old(self).func_types@)
                    &&& can_hold(old(self).data@, target_strings(*assign))
                    &&& ops@ == target_code(
                        *assign,
                        old(self).func_types@,
                        old(self).data@.vars.len(),
                    )
                    &&& final(self).data@ == with_strings(old(self).data@, target_strings(*assign))
                    &&& no_jumps(ops@)
                },
                Err(e) => !(target_ok(*assign, old(self).func_types@) && can_hold(
                    old(self).data@,
                    target_strings(*assign),
                )) && is_error(e, AsmErrorKind::CannotLower, seq![assign.target_loc]),
            },
        decreases assign, 0nat,
    {
        let mut ops: Vec<TaggedOpcode> = Vec::new();
        let loc: CodeLoc = assign.target_loc;
        let bytes: u32 = assign.target_type.size();
        proof {
            lemma_strings_append(self.data@, Seq::empty(), Seq::empty());
        }
        match &assign.kind {
            TCAssignKind::Ptr(expr) => {
                ops.push(TaggedOpcode { op: Opcode::PushDup { bytes }, loc });
                let mut code = match self.translate_expr(expr) {
                    Ok(code) => code,
                    Err(_) => {
                        return Err(cannot_lower(loc));
                    },
                };
                ops.append(&mut code);
                ops.push(TaggedOpcode { op: Opcode::Store { offset: 0, bytes }, loc });
            },
            TCAssignKind::LocalIdent { var_offset } => {
                ops.push(TaggedOpcode { op: Opcode::PushDup { bytes }, loc });
                ops.push(
                    TaggedOpcode {
                        op: Opcode::SetLocal { var: *var_offset, offset: assign.offset, bytes },
                        loc,
                    },
                );
            },
        }
        assert(ops@ =~= target_code(*assign, old(self).func_types@, old(self).data@.vars.len()));
        Ok(ops)
    }

    /// The target of an assignment, as the assembler sees it.
    pub fn translate_lvalue<'b>(&self, assign: &'b TCAssignTarget) -> (r: ASMAssign<'b>)
        ensures
            r.offset == 0,
            r.bytes == assign.target_type.size(),
            r.assign_type == assign.target_type,
            match assign.kind {
                TCAssignKind::LocalIdent { var_offset } => r.kind == (ASMAssignKind::StackLocal {
                    var: var_offset,
                }),
                TCAssignKind::Ptr(x) => r.kind == ASMAssignKind::Ptr(&*x),
            },
    {
        match &assign.kind {
            TCAssignKind::LocalIdent { var_offset } => ASMAssign {
                kind: ASMAssignKind::StackLocal { var: *var_offset },
                offset: 0,
                bytes: assign.target_type.size(),
                assign_type: assign.target_type,
            },
            TCAssignKind::Ptr(expr) => ASMAssign {
                kind: ASMAssignKind::Ptr(expr),
                offset: 0,
                bytes: assign.target_type.size(),
                assign_type: assign.target_type,
            },
        }
    }
}

/// The operand of an expression with one operand that is lowered as
/// "operand, then one opcode".
pub open spec fn unary_operand(e: TCExpr) -> Option<TCExpr> {
    match e.kind {
        TCExprKind::SConv8To32(x)
        | TCExprKind::SConv32To64(x)
        | TCExprKind::ZConv8To32(x)
        | TCExprKind::ZConv32To64(x)
        | TCExprKind::Deref(x) => Some(*x),
        TCExprKind::PtrMember { base, .. } => Some(*base),
        _ => None,
    }
}

/// The operands of an arithmetic expression.
pub open spec fn binary_operands(e: TCExpr) -> Option<(TCExpr, TCExpr)> {
    match e.kind {
        TCExprKind::AddI32(l, r) | TCExprKind::AddU64(l, r) | TCExprKind::SubI32(l, r) => Some(
            (*l, *r),
        ),
        _ => None,
    }
}

/// The frame-relative index of the return slot of a function with
/// `param_count` parameters.
pub open spec fn return_slot(param_count: u32) -> i16 {
    (-(param_count as int) - 1) as i16
}

/// The most parameters that a function can have for its return slot to
/// have a frame-relative index.
pub const PARAM_LIMIT: u32 = 32767;

/// The expression of a statement, if it has one.
pub open spec fn stmt_expr(s: TCStmt) -> Option<TCExpr> {
    match s.kind {
        TCStmtKind::RetVal(e) => Some(e),
        TCStmtKind::Ret => None,
        TCStmtKind::Expr(e) => Some(e),
        TCStmtKind::Decl { init } => Some(init),
    }
}

/// The string literals of a statement.
pub open spec fn stmt_strings(s: TCStmt) -> Seq<Seq<u8>> {
    match stmt_expr(s) {
        Some(e) => expr_strings(e),
        None => Seq::empty(),
    }
}

/// Whether a statement of a function with `param_count` parameters can be
/// lowered.
pub open spec fn stmt_ok(s: TCStmt, ft: Map<u32, u32>, param_count: u32) -> bool {
    &&& stmt_expr(s) matches Some(e) ==> expr_ok(e, ft)
    &&& s.kind is RetVal ==> param_count <= PARAM_LIMIT
}

/// The opcodes that lower a statement of a function with `param_count`
/// parameters: a declaration allocates a stack variable and fills it, an
/// expression statement discards its value, and a return with a value
/// writes the value to the return slot before it returns.
pub open spec fn stmt_code(s: TCStmt, ft: Map<u32, u32>, base: nat, param_count: u32) -> Seq<
    TaggedOpcode,
> {
    match s.kind {
        TCStmtKind::RetVal(e) => expr_code(e, ft, base) + seq![
            tag(
                Opcode::SetLocal {
                    var: return_slot(param_count),
                    offset: 0,
                    bytes: e.expr_type.size(),
                },
                s.loc,
            ),
            tag(Opcode::Ret, s.loc),
        ],
        TCStmtKind::Ret => seq![tag(Opcode::Ret, s.loc)],
        TCStmtKind::Expr(e) => expr_code(e, ft, base) + seq![
            tag(Opcode::Pop { bytes: e.expr_type.size() }, s.loc),
        ],
        TCStmtKind::Decl { init } => seq![
            tag(
                Opcode::StackAlloc { bytes: init.expr_type.size(), symbol: META_NO_SYMBOL },
                s.loc,
            ),
        ] + expr_code(init, ft, base) + seq![
            tag(Opcode::PopIntoTopVar { offset: 0, bytes: init.expr_type.size() }, s.loc),
        ],
    }
}

/// The string literals of the first `n` statements of a body.
pub open spec fn body_strings(stmts: Seq<TCStmt>, n: nat) -> Seq<Seq<u8>>
    decreases n,
{
    if n == 0 || n > stmts.len() {
        Seq::empty()
    } else {
        body_strings(stmts, (n - 1) as nat) + stmt_strings(stmts[n - 1])
    }
}

/// Whether the first `n` statements of a body can be lowered.
pub open spec fn body_ok(stmts: Seq<TCStmt>, n: nat, ft: Map<u32, u32>, param_count: u32) -> bool
    decreases n,
{
    if n == 0 || n > stmts.len() {
        true
    } else {
        body_ok(stmts, (n - 1) as nat, ft, param_count) && stmt_ok(stmts[n - 1], ft, param_count)
    }
}

/// The opcodes that lower the first `n` statements of a body.
pub open spec fn body_code(
    stmts: Seq<TCStmt>,
    n: nat,
    ft: Map<u32, u32>,
    base: nat,
    param_count: u32,
) -> Seq<TaggedOpcode>
    decreases n,
{
    if n == 0 || n > stmts.len() {
        Seq::empty()
    } else {
        body_code(stmts, (n - 1) as nat, ft, base, param_count) + stmt_code(
            stmts[n - 1],
            ft,
            base + body_strings(stmts, (n - 1) as nat).len(),
            param_count,
        )
    }
}

/// The number of parameters of a function type, as the lowering counts
/// them: more than the limit count as one more than the limit.
pub open spec fn param_count(t: TCFuncType) -> u32 {
    if t.params@.len() <= PARAM_LIMIT {
        t.params@.len() as u32
    } else {
        (PARAM_LIMIT + 1) as u32
    }
}

/// What the assembler knows of a function.
pub struct FuncView {
    pub loc: CodeLoc,
    pub params: Seq<TCType>,
    pub return_type: TCType,
    pub varargs: bool,
    pub header: Option<(u32, CodeLoc)>,
}

/// What the assembler knows of a function that it has seen declared with
/// type `t`.
pub open spec fn declared(t: TCFuncType, header: Option<(u32, CodeLoc)>) -> FuncView {
    FuncView {
        loc: t.loc,
        params: crate::ast::param_types(t),
        return_type: t.return_type,
        varargs: t.varargs,
        header,
    }
}

/// What an assembler holds.
pub struct AsmView {
    pub opcodes: Seq<TaggedOpcode>,
    pub func_types: Map<u32, u32>,
    pub data: BufferView,
    pub functions: Map<u32, FuncView>,
}

impl View for Assembler {
    type V = AsmView;

    open spec fn view(&self) -> AsmView {
        AsmView {
            opcodes: self.opcodes@,
            func_types: self.func_types@,
            data: self.data@,
            functions: self.functions@.map_values(
                |f: ASMFunc| declared(f.func_type, f.func_header),
            ),
        }
    }
}

/// Whether a definition with type `t` and body `d` can be added to `a`.
pub open spec fn defn_fits(a: AsmView, t: TCFuncType, d: TCFuncDefn) -> bool {
    &&& body_ok(d.stmts@, d.stmts@.len(), a.func_types, param_count(t))
    &&& can_hold(a.data, body_strings(d.stmts@, d.stmts@.len()))
    &&& a.opcodes.len() + body_code(
        d.stmts@,
        d.stmts@.len(),
        a.func_types,
        a.data.vars.len(),
        param_count(t),
    ).len() + 2 <= u32::MAX
}

/// What adding the function `func` under the symbol `ident` does.
///
/// The first encounter of a symbol records its type. A later encounter
/// with another type is a declaration mismatch. A definition of a symbol
/// that is defined already is a redefinition. A definition adds a header,
/// the body and a closing `Ret` to the opcodes and records the index of the
/// header. An error leaves the assembler as it was.
pub open spec fn added(a: AsmView, ident: u32, func: TCFunc) -> Result<
    AsmView,
    (AsmErrorKind, Seq<CodeLoc>),
> {
    let known = a.functions.contains_key(ident);
    let before = if known {
        a.functions[ident]
    } else {
        declared(func.func_type, None)
    };
    if known && !(before.return_type == func.func_type.return_type && before.varargs
        == func.func_type.varargs && before.params == crate::ast::param_types(func.func_type)) {
        Err((AsmErrorKind::DeclMismatch, seq![before.loc, func.func_type.loc]))
    } else {
        match func.defn {
            None => Ok(AsmView { functions: a.functions.insert(ident, before), ..a }),
            Some(d) => if before.header is Some {
                Err((AsmErrorKind::Redefinition, seq![before.header->Some_0.1, d.loc]))
            } else if !defn_fits(a, func.func_type, d) {
                Err((AsmErrorKind::CannotLower, seq![d.loc]))
            } else {
                Ok(
                    AsmView {
                        opcodes: a.opcodes + seq![tag(Opcode::Func(ident), d.loc)] + body_code(
                            d.stmts@,
                            d.stmts@.len(),
                            a.func_types,
                            a.data.vars.len(),
                            param_count(func.func_type),
                        ) + seq![tag(Opcode::Ret, d.loc)],
                        func_types: a.func_types,
                        data: with_strings(a.data, body_strings(d.stmts@, d.stmts@.len())),
                        functions: a.functions.insert(
                            ident,
                            FuncView { header: Some((a.opcodes.len() as u32, d.loc)), ..before },
                        ),
                    },
                )
            },
        }
    }
}

/// Whether the executable result agrees with the modelled one.
pub open spec fn reports(r: Result<(), Error>, model: Option<(AsmErrorKind, Seq<CodeLoc>)>) -> bool {
    match model {
        None => r is Ok,
        Some((kind, places)) => r is Err && is_error(r->Err_0, kind, places),
    }
}

impl Assembler {
    /// Lowers a statement of a function with `param_count` parameters.
    pub fn translate_statement(
        &mut self,
        func_type: &TCFuncType,
        param_count: u32,
        stmt: &TCStmt,
    ) -> (r: Result<Vec<TaggedOpcode>, Error>)
        requires
            old(self).wf(),
        ensures
            final(self).wf(),
            final(self).same_but_data(old(self)),
            extends(final(self).data@, old(self).data@),
            match r {
                Ok(ops) => {
                    &&& stmt_ok(*stmt, old(self).func_types@, param_count)
                    &&& can_hold(old(self).data@, stmt_strings(*stmt))
                    &&& ops@ == stmt_code(
                        *stmt,
                        old(self).func_types@,
                        old(self).data@.vars.len(),
                        param_count,
                    )
                    &&& final(self).data@ == with_strings(old(self).data@, stmt_strings(*stmt))
                    &&& no_jumps(ops@)
                },
                Err(e) => !(stmt_ok(*stmt, old(self).func_types@, param_count) && can_hold(
                    old(self).data@,
                    stmt_strings(*stmt),
                )) && is_error(e, AsmErrorKind::CannotLower, seq![stmt.loc]),
            },
    {
        let mut ops: Vec<TaggedOpcode> = Vec::new();
        let loc: CodeLoc = stmt.loc;
        proof {
            lemma_strings_append(self.data@, Seq::empty(), Seq::empty());
        }
        match &stmt.kind {
            TCStmtKind::RetVal(expr) => {
                if param_count > PARAM_LIMIT {
                    return Err(cannot_lower(loc));
                }
                let mut code = match self.translate_expr(expr) {
                    Ok(code) => code,
                    Err(_) => {
                        return Err(cannot_lower(loc));
                    },
                };
                ops.append(&mut code);
                let ret_idx: i16 = (0 - param_count as i32 - 1) as i16;
                ops.push(
                    TaggedOpcode {
                        op: Opcode::SetLocal {
                            var: ret_idx,
                            offset: 0,
                            bytes: expr.expr_type.size(),
                        },
                        loc,
                    },
                );
                ops.push(TaggedOpcode { op: Opcode::Ret, loc });
            },
            TCStmtKind::Ret => {
                ops.push(TaggedOpcode { op: Opcode::Ret, loc });
            },
            TCStmtKind::Expr(expr) => {
                let mut code = match self.translate_expr(expr) {
                    Ok(code) => code,
                    Err(_) => {
                        return Err(cannot_lower(loc));
                    },
                };
                ops.append(&mut code);
                ops.push(TaggedOpcode { op: Opcode::Pop { bytes: expr.expr_type.size() }, loc });
            },
            TCStmtKind::Decl { init } => {
                let bytes: u32 = init.expr_type.size();
                ops.push(
                    TaggedOpcode { op: Opcode::StackAlloc { bytes, symbol: META_NO_SYMBOL }, loc },
                );
                let mut code = match self.translate_expr(init) {
                    Ok(code) => code,
                    Err(_) => {
                        return Err(cannot_lower(loc));
                    },
                };
                ops.append(&mut code);
                ops.push(TaggedOpcode { op: Opcode::PopIntoTopVar { bytes, offset: 0 }, loc });
            },
        }
        assert(ops@ =~= stmt_code(
            *stmt,
            old(self).func_types@,
            old(self).data@.vars.len(),
            param_count,
        ));
        Ok(ops)
    }

    /// Lowers the body of a definition: the header, the statements, and a
    /// closing `Ret`.
    fn translate_body(&mut self, ident: u32, func_type: &TCFuncType, defn: &TCFuncDefn) -> (r:
        Option<Vec<TaggedOpcode>>)
        requires
            old(self).wf(),
        ensures
            final(self).wf(),
            final(self).same_but_data(old(self)),
            extends(final(self).data@, old(self).data@),
            match r {
                Some(ops) => {
                    &&& body_ok(
                        defn.stmts@,
                        defn.stmts@.len(),
                        old(self).func_types@,
                        param_count(*func_type),
                    )
                    &&& can_hold(old(self).data@, body_strings(defn.stmts@, defn.stmts@.len()))
                    &&& ops@ == seq![tag(Opcode::Func(ident), defn.loc)] + body_code(
                        defn.stmts@,
                        defn.stmts@.len(),
                        old(self).func_types@,
                        old(self).data@.vars.len(),
                        param_count(*func_type),
                    ) + seq![tag(Opcode::Ret, defn.loc)]
                    &&& final(self).data@ == with_strings(
                        old(self).data@,
                        body_strings(defn.stmts@, defn.stmts@.len()),
                    )
                    &&& no_jumps(ops@)
                },
                None => !(body_ok(
                    defn.stmts@,
                    defn.stmts@.len(),
                    old(self).func_types@,
                    param_count(*func_type),
                ) && can_hold(old(self).data@, body_strings(defn.stmts@, defn.stmts@.len()))),
            },
    {
        let count: u32 = if func_type.params.len() <= PARAM_LIMIT as usize {
            func_type.params.len() as u32
        } else {
            PARAM_LIMIT + 1
        };
        let ghost ft = self.func_types@;
        let ghost base = self.data@.vars.len();
        let ghost stmts = defn.stmts@;
        let mut ops: Vec<TaggedOpcode> = Vec::new();
        ops.push(TaggedOpcode { op: Opcode::Func(ident), loc: defn.loc });
        proof {
            lemma_strings_append(self.data@, Seq::empty(), Seq::empty());
        }
        let mut i: usize = 0;
        while i < defn.stmts.len()
            invariant
                i <= stmts.len(),
                stmts == defn.stmts@,
                count == param_count(*func_type),
                ft == old(self).func_types@,
                base == old(self).data@.vars.len(),
                self.wf(),
                self.same_but_data(old(self)),
                extends(self.data@, old(self).data@),
                body_ok(stmts, i as nat, ft, count),
                can_hold(old(self).data@, body_strings(stmts, i as nat)),
                self.data@ == with_strings(old(self).data@, body_strings(stmts, i as nat)),
                ops@ == seq![tag(Opcode::Func(ident), defn.loc)] + body_code(
                    stmts,
                    i as nat,
                    ft,
                    base,
                    count,
                ),
                no_jumps(ops@),
            decreases stmts.len() - i,
        {
            proof {
                lemma_strings_append(
                    old(self).data@,
                    body_strings(stmts, i as nat),
                    stmt_strings(stmts[i as int]),
                );
                lemma_body_monotone(stmts, (i + 1) as nat, stmts.len(), ft, count, old(self).data@);
            }
            let mut code = match self.translate_statement(func_type, count, &defn.stmts[i]) {
                Ok(code) => code,
                Err(_) => {
                    return None;
                },
            };
            ops.append(&mut code);
            i = i + 1;
            assert(ops@ =~= seq![tag(Opcode::Func(ident), defn.loc)] + body_code(
                stmts,
                i as nat,
                ft,
                base,
                count,
            ));
        }
        ops.push(TaggedOpcode { op: Opcode::Ret, loc: defn.loc });
        Some(ops)
    }
}

/// A body that can be lowered as a whole can be lowered up to each of its
/// statements.
pub proof fn lemma_body_monotone(
    stmts: Seq<TCStmt>,
    n: nat,
    m: nat,
    ft: Map<u32, u32>,
    param_count: u32,
    data: BufferView,
)
    requires
        n <= m <= stmts.len(),
    ensures
        body_ok(stmts, m, ft, param_count) ==> body_ok(stmts, n, ft, param_count),
        can_hold(data, body_strings(stmts, m)) ==> can_hold(data, body_strings(stmts, n)),
    decreases m - n,
{
    if n < m {
        lemma_body_monotone(stmts, n, (m - 1) as nat, ft, param_count, data);
        lemma_strings_append(
            data,
            body_strings(stmts, (m - 1) as nat),
            stmt_strings(stmts[m - 1]),
        );
    }
}

/// The return sizes after the first `n` functions of a file are declared.
pub open spec fn declared_sizes(ft: Map<u32, u32>, functions: Seq<(u32, TCFunc)>, n: nat) -> Map<
    u32,
    u32,
>
    decreases n,
{
    if n == 0 || n > functions.len() {
        ft
    } else {
        declared_sizes(ft, functions, (n - 1) as nat).insert(
            functions[n - 1].0,
            functions[n - 1].1.func_type.return_type.size(),
        )
    }
}

/// What adding the first `n` functions of a file does: the functions are
/// added in order, and the first error ends the adding.
pub open spec fn file_added(a: AsmView, functions: Seq<(u32, TCFunc)>, n: nat) -> (
    AsmView,
    Option<(AsmErrorKind, Seq<CodeLoc>)>,
)
    decreases n,
{
    if n == 0 || n > functions.len() {
        (a, None)
    } else {
        match file_added(a, functions, (n - 1) as nat).1 {
            Some(e) => file_added(a, functions, (n - 1) as nat),
            None => match added(
                file_added(a, functions, (n - 1) as nat).0,
                functions[n - 1].0,
                functions[n - 1].1,
            ) {
                Ok(next) => (next, None),
                Err(e) => (file_added(a, functions, (n - 1) as nat).0, Some(e)),
            },
        }
    }
}

/// Whether a symbol names a library function.
pub open spec fn is_lib_func(symbol: u32) -> bool {
    symbol == PRINTF_SYMBOL || symbol == EXIT_SYMBOL || symbol == MALLOC_SYMBOL || symbol
        == REALLOC_SYMBOL || symbol == MEMCPY_SYMBOL
}

/// Whether a symbol names a library function.
pub fn lib_func(symbol: u32) -> (b: bool)
    ensures
        b == is_lib_func(symbol),
{
    symbol == PRINTF_SYMBOL || symbol == EXIT_SYMBOL || symbol == MALLOC_SYMBOL || symbol
        == REALLOC_SYMBOL || symbol == MEMCPY_SYMBOL
}

/// What linking does to an opcode: a call of a defined function goes to
/// the header of the function, a call of a library function becomes a
/// library call, and a call of anything else is an error about the call
/// site and, where the function is declared, the declaration. Other
/// opcodes stay as they are.
pub open spec fn linked(a: AsmView, op: TaggedOpcode) -> Result<
    TaggedOpcode,
    (AsmErrorKind, Seq<CodeLoc>),
> {
    match op.op {
        Opcode::Call(symbol) => if !a.functions.contains_key(symbol) {
            if is_lib_func(symbol) {
                Ok(tag(Opcode::LibCall(symbol), op.loc))
            } else {
                Err((AsmErrorKind::Undefined, seq![op.loc]))
            }
        } else {
            match a.functions[symbol].header {
                Some(header) => Ok(tag(Opcode::Call(header.0), op.loc)),
                None => if is_lib_func(symbol) {
                    Ok(tag(Opcode::LibCall(symbol), op.loc))
                } else {
                    Err((AsmErrorKind::Undefined, seq![op.loc, a.functions[symbol].loc]))
                },
            }
        },
        _ => Ok(op),
    }
}

/// The header of `main`, if `main` is defined.
pub open spec fn main_header(a: AsmView) -> Option<(u32, CodeLoc)> {
    if a.functions.contains_key(MAIN_SYMBOL) {
        a.functions[MAIN_SYMBOL].header
    } else {
        None
    }
}

impl Assembler {
    /// Takes the static data back to `data_len` bytes and `vars_len`
    /// variables.
    fn rollback(&mut self, data_len: usize, vars_len: usize, Ghost(before): Ghost<BufferView>)
        requires
            old(self).wf(),
            before.wf(),
            extends(old(self).data@, before),
            data_len == before.data.len(),
            vars_len == before.vars.len(),
        ensures
            final(self).wf(),
            final(self).same_but_data(old(self)),
            final(self).data@ == before,
    {
        self.data.data.truncate(data_len);
        self.data.vars.truncate(vars_len);
        assert(self.data@.data =~= before.data);
        assert(self.data@.vars =~= before.vars);
    }

    /// Adds the function `func` under the symbol `ident`.
    pub fn add_function(&mut self, ident: u32, func: TCFunc) -> (r: Result<(), Error>)
        requires
            old(self).wf(),
        ensures
            final(self).wf(),
            match added(old(self)@, ident, func) {
                Ok(next) => r is Ok && final(self)@ == next,
                Err((kind, places)) => r is Err && is_error(r->Err_0, kind, places) && final(self)@
                    == old(self)@,
            },
    {
        let mut known: bool = false;
        let mut func_header: Option<(u32, CodeLoc)> = None;
        let mut first_type: Option<TCFuncType> = None;
        match self.functions.get(&ident) {
            Some(asm_func) => {
                if !func_types_match(&asm_func.func_type, &func.func_type) {
                    return Err(func_decl_mismatch(asm_func.func_type.loc, func.func_type.loc));
                }
                known = true;
                func_header = asm_func.func_header;
                first_type = Some(copy_func_type(&asm_func.func_type));
            },
            None => {},
        }
        let TCFunc { func_type: new_type, defn } = func;
        let defn: TCFuncDefn = match defn {
            Some(defn) => defn,
            None => {
                if !known {
                    self.functions.insert(ident, ASMFunc { func_type: new_type, func_header: None });
                }
                assert(self@.functions =~= old(self)@.functions.insert(
                    ident,
                    if known {
                        old(self)@.functions[ident]
                    } else {
                        declared(func.func_type, None)
                    },
                ));
                return Ok(());
            },
        };
        match func_header {
            Some((_, defn_loc)) => {
                return Err(func_redef(defn_loc, defn.loc));
            },
            None => {},
        }
        let data_len: usize = self.data.data.len();
        let vars_len: usize = self.data.vars.len();
        let ghost before = self.data@;
        let mut body: Vec<TaggedOpcode> = match self.translate_body(ident, &new_type, &defn) {
            Some(body) => body,
            None => {
                self.rollback(data_len, vars_len, Ghost(before));
                return Err(cannot_lower(defn.loc));
            },
        };
        if body.len() > u32::MAX as usize - self.opcodes.len() {
            self.rollback(data_len, vars_len, Ghost(before));
            return Err(cannot_lower(defn.loc));
        }
        let header: u32 = self.opcodes.len() as u32;
        self.opcodes.append(&mut body);
        let stored: TCFuncType = match first_type {
            Some(t) => t,
            None => new_type,
        };
        self.functions.insert(
            ident,
            ASMFunc { func_type: stored, func_header: Some((header, defn.loc)) },
        );
        proof {
            let next = added(old(self)@, ident, func)->Ok_0;
            assert(self@.opcodes =~= next.opcodes);
            assert(self@.functions =~= next.functions);
        }
        Ok(())
    }

    /// Adds the functions of one source file: the return size of every
    /// function is recorded first, so that a function can call one that
    /// the file declares later, and then the functions are added in order.
    /// The first error ends the adding.
    pub fn add_file(&mut self, types: TypedFuncs) -> (r: Result<(), Error>)
        requires
            old(self).wf(),
        ensures
            final(self).wf(),
            final(self)@ == file_added(
                AsmView {
                    func_types: declared_sizes(
                        old(self)@.func_types,
                        types.functions@,
                        types.functions@.len(),
                    ),
                    ..old(self)@
                },
                types.functions@,
                types.functions@.len(),
            ).0,
            reports(
                r,
                file_added(
                    AsmView {
                        func_types: declared_sizes(
                            old(self)@.func_types,
                            types.functions@,
                            types.functions@.len(),
                        ),
                        ..old(self)@
                    },
                    types.functions@,
                    types.functions@.len(),
                ).1,
            ),
    {
        let ghost all = types.functions@;
        let mut i: usize = 0;
        while i < types.functions.len()
            invariant
                i <= all.len(),
                all == types.functions@,
                self.wf(),
                self@ == (AsmView {
                    func_types: declared_sizes(old(self)@.func_types, all, i as nat),
                    ..old(self)@
                }),
            decreases all.len() - i,
        {
            let ident: u32 = types.functions[i].0;
            let size: u32 = types.functions[i].1.func_type.return_type.size();
            self.func_types.insert(ident, size);
            i = i + 1;
        }
        let ghost start = self@;
        let TypedFuncs { functions } = types;
        let mut functions = functions;
        let mut done: usize = 0;
        let total: usize = functions.len();
        while functions.len() > 0
            invariant
                done + functions@.len() == all.len(),
                total == all.len(),
                functions@ == all.subrange(done as int, all.len() as int),
                all == types.functions@,
                start == (AsmView {
                    func_types: declared_sizes(old(self)@.func_types, all, all.len()),
                    ..old(self)@
                }),
                self.wf(),
                file_added(start, all, done as nat) == (self@, None::<(AsmErrorKind, Seq<CodeLoc>)>),
            decreases functions@.len(),
        {
            let (ident, func) = functions.remove(0);
            assert(all[done as int] == (ident, func));
            match self.add_function(ident, func) {
                Ok(_) => {},
                Err(e) => {
                    proof {
                        assert(file_added(start, all, (done + 1) as nat).1 is Some);
                        lemma_file_error_stays(start, all, (done + 1) as nat, all.len());
                    }
                    return Err(e);
                },
            }
            done = done + 1;
        }
        Ok(())
    }
}

/// Once an error has ended the adding, more functions change nothing.
pub proof fn lemma_file_error_stays(a: AsmView, functions: Seq<(u32, TCFunc)>, n: nat, m: nat)
    requires
        n <= m <= functions.len(),
        file_added(a, functions, n).1 is Some,
    ensures
        file_added(a, functions, m) == file_added(a, functions, n),
    decreases m - n,
{
    if n < m {
        lemma_file_error_stays(a, functions, n, (m - 1) as nat);
    }
}

/// The error for a program without a definition of `main`.
pub fn missing_main() -> (e: Error)
    ensures
        is_error(e, AsmErrorKind::MissingMain, Seq::empty()),
{
    let e = Error::new("missing main function definition", Vec::new());
    assert(e.places() =~= Seq::<CodeLoc>::empty());
    assert(e.notes() =~= asm_notes(AsmErrorKind::MissingMain).take(0));
    e
}

impl Assembler {
    /// Links the opcode at `i`.
    fn link_op(&self, i: usize) -> (r: Result<TaggedOpcode, Error>)
        requires
            self.wf(),
            i < self.opcodes@.len(),
        ensures
            match linked(self@, self.opcodes@[i as int]) {
                Ok(op) => r == Ok::<TaggedOpcode, Error>(op),
                Err((kind, places)) => r is Err && is_error(r->Err_0, kind, places),
            },
    {
        let op: TaggedOpcode = self.opcodes[i];
        proof {
            let notes = asm_notes(AsmErrorKind::Undefined);
            assert(notes.take(2) =~= notes);
            assert(notes.take(1) =~= seq!["called here"@]);
        }
        match op.op {
            Opcode::Call(addr) => {
                match self.functions.get(&addr) {
                    Some(function) => match function.func_header {
                        Some((fptr, _)) => Ok(TaggedOpcode { op: Opcode::Call(fptr), loc: op.loc }),
                        None => if lib_func(addr) {
                            Ok(TaggedOpcode { op: Opcode::LibCall(addr), loc: op.loc })
                        } else {
                            Err(
                                crate::assembler::error_at(
                                    "couldn't find definition for function",
                                    op.loc,
                                    "called here",
                                    function.func_type.loc,
                                    "declared here",
                                ),
                            )
                        },
                    },
                    None => if lib_func(addr) {
                        Ok(TaggedOpcode { op: Opcode::LibCall(addr), loc: op.loc })
                    } else {
                        Err(
                            crate::assembler::error_near(
                                "couldn't find definition for function",
                                op.loc,
                                "called here",
                            ),
                        )
                    },
                }
            },
            _ => Ok(op),
        }
    }

    /// Finishes the program: every call is linked, and the program starts
    /// at the header of `main`.
    ///
    /// A program without a definition of `main` is an error. Otherwise the
    /// first call that cannot be linked is.
    pub fn assemble(self, env: FileDb) -> (r: Result<Program, Error>)
        requires
            self.wf(),
        ensures
            match r {
                Ok(program) => {
                    &&& main_header(self@) matches Some(header)
                    &&& program.main_idx == header.0
                    &&& program.files == env
                    &&& program.data@ == self@.data
                    &&& program.ops@.len() == self@.opcodes.len()
                    &&& forall|i: int|
                        0 <= i < self@.opcodes.len() ==> linked(self@, self@.opcodes[i])
                            == Ok::<TaggedOpcode, (AsmErrorKind, Seq<CodeLoc>)>(
                            #[trigger] program.ops@[i],
                        )
                    &&& program.wf()
                },
                Err(e) => main_header(self@) is None && is_error(
                    e,
                    AsmErrorKind::MissingMain,
                    Seq::empty(),
                ) || main_header(self@) is Some && exists|i: int|
                    {
                        &&& 0 <= i < self@.opcodes.len()
                        &&& #[trigger] linked(self@, self@.opcodes[i]) matches Err((kind, places))
                        &&& is_error(e, kind, places)
                        &&& forall|j: int| 0 <= j < i ==> (#[trigger] linked(
                            self@,
                            self@.opcodes[j],
                        )) is Ok
                    },
            },
    {
        let main_idx: u32 = match self.functions.get(&MAIN_SYMBOL) {
            Some(main_func) => match main_func.func_header {
                Some((idx, _)) => idx,
                None => {
                    return Err(missing_main());
                },
            },
            None => {
                return Err(missing_main());
            },
        };
        let mut ops: Vec<TaggedOpcode> = Vec::new();
        let mut i: usize = 0;
        while i < self.opcodes.len()
            invariant
                i <= self.opcodes@.len(),
                self.wf(),
                main_header(self@) is Some,
                ops@.len() == i,
                forall|k: int|
                    0 <= k < i ==> linked(self@, self@.opcodes[k]) == Ok::<
                        TaggedOpcode,
                        (AsmErrorKind, Seq<CodeLoc>),
                    >(#[trigger] ops@[k]),
            decreases self.opcodes@.len() - i,
        {
            match self.link_op(i) {
                Ok(op) => {
                    ops.push(op);
                },
                Err(e) => {
                    proof {
                        let at = i as int;
                        assert(linked(self@, self@.opcodes[at]) is Err);
                        assert forall|j: int| 0 <= j < at implies (#[trigger] linked(
                            self@,
                            self@.opcodes[j],
                        )) is Ok by {
                            assert(linked(self@, self@.opcodes[j]) == Ok::<
                                TaggedOpcode,
                                (AsmErrorKind, Seq<CodeLoc>),
                            >(ops@[j]));
                        }
                    }
                    return Err(e);
                },
            }
            i = i + 1;
        }
        let ghost a = self@;
        let Assembler { data, .. } = self;
        let program = Program { files: env, ops, data, main_idx };
        proof {
            let old_ops = a.opcodes;
            let len = old_ops.len() as int;
            assert(main_header(a) is Some);
            assert(old_ops[main_idx as int].op is Func);
            assert(len > 0);
            assert forall|k: int| 0 <= k < len implies op_in_range(program.ops@, k) by {
                let before = old_ops[k];
                let after = program.ops@[k];
                assert(linked(a, before) == Ok::<TaggedOpcode, (AsmErrorKind, Seq<CodeLoc>)>(after));
                assert(jump_target(before.op) is None);
                if k == len - 1 {
                    assert(before.op is Ret);
                }
                match before.op {
                    Opcode::Call(symbol) => {
                        if a.functions.contains_key(symbol) && a.functions[symbol].header is Some {
                            let t = a.functions[symbol].header->Some_0.0;
                            assert(self.functions@.contains_key(symbol));
                            assert(old_ops[t as int].op == Opcode::Func(symbol));
                            assert(linked(a, old_ops[t as int]) == Ok::<
                                TaggedOpcode,
                                (AsmErrorKind, Seq<CodeLoc>),
                            >(program.ops@[t as int]));
                            assert(old_ops[len - 1].op is Ret);
                        }
                    },
                    _ => {},
                }
            }
            assert(linked(a, old_ops[main_idx as int]) == Ok::<
                TaggedOpcode,
                (AsmErrorKind, Seq<CodeLoc>),
            >(program.ops@[main_idx as int]));
        }
        Ok(program)
    }
}

} // verus!
