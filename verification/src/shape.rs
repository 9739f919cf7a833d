//! The shape of the stack, and what lowered code does to it.
//!
//! The shape of a stack is the lengths of its variables and the numbers of
//! operand bytes between and above them. The code that the assembler makes
//! of an expression leaves the shape as it was, but for the value of the
//! expression, which lies on top of the operand stack afterwards.

use vstd::prelude::*;
use crate::assembler::{
    call_cleanup, count_code, expr_code, expr_strings, list_code, list_strings, stmt_code,
    stmt_expr, tag, target_code,
};
use crate::ast::{TCAssignKind, TCAssignTarget, TCExpr, TCExprKind, TCStmt, TCStmtKind};
use crate::interpreter::{
    arith_step, extend_source_width, extend_step, extended, is_word_op, keeps_vars,
    lemma_operand_stack_accounting, lib_step, local_ptr, long_result, net_bytes, op_class,
    pop_longs, pop_narrow, pop_words, shifted_ptr, simple_step, stack_step, step, steps,
    traced_step, word_result, OpClass, Opcode, TaggedOpcode,
};
use crate::library::{copy_bytes, next_byte};
use crate::printf::printf_with;
use crate::runtime::{BufferView, ErrorKind, MemoryView, VarPointer, TAG_STACK};
use crate::util::CodeLoc;

verus! {

/// The shape of a stack: the number of operand bytes below the first
/// variable and, for each variable, its length and the number of operand
/// bytes between it and the next variable or the top.
#[verifier::ext_equal]
pub struct Shape {
    pub lead: int,
    pub blocks: Seq<(int, int)>,
}

impl Shape {
    /// The number of operand bytes above the last variable.
    pub open spec fn top(self) -> int {
        if self.blocks.len() == 0 {
            self.lead
        } else {
            self.blocks.last().1
        }
    }

    /// The shape with `n` more operand bytes on top.
    pub open spec fn add_top(self, n: int) -> Shape {
        if self.blocks.len() == 0 {
            Shape { lead: self.lead + n, blocks: self.blocks }
        } else {
            Shape {
                lead: self.lead,
                blocks: self.blocks.update(
                    self.blocks.len() - 1,
                    (self.blocks.last().0, self.blocks.last().1 + n),
                ),
            }
        }
    }

    /// The shape with one more variable of `len` bytes.
    pub open spec fn with_var(self, len: int) -> Shape {
        Shape { lead: self.lead, blocks: self.blocks.push((len, 0)) }
    }

    /// The shape without its last variable and what lies above it.
    pub open spec fn without_var(self) -> Shape {
        if self.blocks.len() == 0 {
            self
        } else {
            Shape { lead: self.lead, blocks: self.blocks.drop_last() }
        }
    }

    /// The shape with its last variable turned into operand bytes.
    pub open spec fn to_temp(self) -> Shape {
        if self.blocks.len() == 0 {
            self
        } else {
            self.without_var().add_top(self.blocks.last().0)
        }
    }
}

/// The shape of a stack segment.
pub open spec fn shape_of(stack: BufferView) -> Shape {
    Shape {
        lead: if stack.vars.len() == 0 {
            stack.data.len() as int
        } else {
            stack.vars[0].idx as int
        },
        blocks: Seq::new(
            stack.vars.len(),
            |i: int|
                (
                    stack.vars[i].len as int,
                    (if i + 1 < stack.vars.len() {
                        stack.vars[i + 1].idx as int
                    } else {
                        stack.data.len() as int
                    }) - (stack.vars[i].idx + stack.vars[i].len),
                ),
        ),
    }
}

/// What an opcode does to the shape of the stack. A call counts as the
/// call and the matching return: it leaves the shape as it was.
pub open spec fn effect(op: Opcode, s: Shape) -> Shape {
    match op {
        Opcode::StackAlloc { bytes, .. } => s.with_var(bytes as int),
        Opcode::StackDealloc => s.without_var(),
        Opcode::StackAddToTemp => s.to_temp(),
        Opcode::StackAllocDyn { .. } => s,
        _ => s.add_top(net_bytes(op)),
    }
}

/// What opcodes do to the shape of the stack, one after the other.
pub open spec fn run_shape(code: Seq<TaggedOpcode>, s: Shape) -> Shape
    decreases code.len(),
{
    if code.len() == 0 {
        s
    } else {
        effect(code.last().op, run_shape(code.drop_last(), s))
    }
}

/// An opcode that runs without a fault does to the shape of the stack what
/// `effect` says.
pub proof fn lemma_step_shape(m: MemoryView, op: Opcode)
    requires
        m.wf(),
        op_class(op) != OpClass::Control,
        !(op is StackAllocDyn),
        simple_step(m, op).1 is Ok,
    ensures
        shape_of(simple_step(m, op).0.stack) == effect(op, shape_of(m.stack)),
{
    let after = simple_step(m, op).0;
    if keeps_vars(op) {
        lemma_operand_stack_accounting(m, op);
        assert(after.stack.vars == m.stack.vars);
        assert(after.stack.data.len() == m.stack.data.len() + net_bytes(op));
        assert(shape_of(after.stack) =~= shape_of(m.stack).add_top(net_bytes(op)));
    } else {
        match op {
            Opcode::StackAlloc { bytes, symbol } => {
                assert(shape_of(after.stack) =~= shape_of(m.stack).with_var(bytes as int));
            },
            Opcode::StackDealloc => {
                let n = m.stack.vars.len() as int;
                assert(m.stack.vars.last() == m.stack.vars[n - 1]);
                if n >= 2 {
                    assert(m.stack.vars[n - 2].idx + m.stack.vars[n - 2].len <= m.stack.vars[n
                        - 1].idx);
                }
                assert(shape_of(after.stack) =~= shape_of(m.stack).without_var());
            },
            _ => {
                let n = m.stack.vars.len() as int;
                assert(m.stack.vars.last() == m.stack.vars[n - 1]);
                if n >= 2 {
                    assert(m.stack.vars[n - 2].idx + m.stack.vars[n - 2].len <= m.stack.vars[n
                        - 1].idx);
                }
                assert(shape_of(after.stack) =~= shape_of(m.stack).to_temp());
            },
        }
    }
}

/// Writing through a pointer leaves the shape of the stack as it was.
pub proof fn lemma_write_keeps_shape(m: MemoryView, ptr: VarPointer, bytes: Seq<u8>)
    ensures
        shape_of(m.write(ptr, bytes).0.stack) == shape_of(m.stack),
{
    assert(shape_of(m.write(ptr, bytes).0.stack) =~= shape_of(m.stack));
}

/// Copying bytes leaves the shape of the stack as it was.
pub proof fn lemma_copy_keeps_shape(m: MemoryView, dest: VarPointer, src: VarPointer, n: nat)
    ensures
        shape_of(copy_bytes(m, dest, src, n).0.stack) == shape_of(m.stack),
    decreases n,
{
    reveal(copy_bytes);
    if n > 0 {
        match m.read_u8(src) {
            Ok(byte) => {
                lemma_write_keeps_shape(m, dest, seq![byte]);
                if m.write(dest, seq![byte]).1 is Ok {
                    lemma_copy_keeps_shape(
                        m.write(dest, seq![byte]).0,
                        next_byte(dest),
                        next_byte(src),
                        (n - 1) as nat,
                    );
                }
            },
            Err(_) => {},
        }
    }
}

/// A call of a library function leaves the shape of the stack as it was:
/// the function finds its arguments in stack variables and leaves its
/// result in one.
pub proof fn lemma_lib_call_keeps_shape(m: MemoryView, symbol: u32)
    ensures
        shape_of(lib_step(m, symbol).0.stack) == shape_of(m.stack),
{
    reveal(printf_with);
    let after = lib_step(m, symbol).0;
    if symbol == crate::filedb::REALLOC_SYMBOL {
        match m.read_u64(crate::library::arg_ptr(m, 1)) {
            Ok(from) => match m.read_u64(crate::library::arg_ptr(m, 0)) {
                Ok(size) => {
                    let grown = m.add_heap_var(size as u32).0;
                    let fresh = m.add_heap_var(size as u32).1;
                    if fresh is Ok {
                        lemma_copy_keeps_shape(
                            grown,
                            fresh->Ok_0,
                            VarPointer { value: from },
                            size as nat,
                        );
                    }
                },
                Err(_) => {},
            },
            Err(_) => {},
        }
    }
    if symbol == crate::filedb::MEMCPY_SYMBOL {
        match m.read_u64(crate::library::arg_ptr(m, 0)) {
            Ok(size) => match m.read_u64(crate::library::arg_ptr(m, 1)) {
                Ok(src) => match m.read_u64(crate::library::arg_ptr(m, 2)) {
                    Ok(dest) => {
                        lemma_copy_keeps_shape(
                            m,
                            VarPointer { value: dest },
                            VarPointer { value: src },
                            size as nat,
                        );
                    },
                    Err(_) => {},
                },
                Err(_) => {},
            },
            Err(_) => {},
        }
    }
    assert(shape_of(after.stack) =~= shape_of(m.stack));
}

/// Code that is run piece by piece is run as a whole.
pub proof fn lemma_run_pieces(a: Seq<TaggedOpcode>, b: Seq<TaggedOpcode>, s: Shape)
    ensures
        run_shape(a + b, s) == run_shape(b, run_shape(a, s)),
    decreases b.len(),
{
    if b.len() == 0 {
        assert(a + b =~= a);
    } else {
        lemma_run_pieces(a, b.drop_last(), s);
        assert((a + b).drop_last() =~= a + b.drop_last());
        assert((a + b).last() == b.last());
    }
}

/// One opcode is run by its effect.
pub proof fn lemma_run_one(op: TaggedOpcode, s: Shape)
    ensures
        run_shape(seq![op], s) == effect(op.op, s),
{
    assert(seq![op].drop_last() =~= Seq::<TaggedOpcode>::empty());
    assert(run_shape(Seq::<TaggedOpcode>::empty(), s) == s);
}

/// Operand bytes add up.
pub proof fn lemma_add_top(s: Shape, a: int, b: int)
    ensures
        s.add_top(a).add_top(b) == s.add_top(a + b),
        s.add_top(0) == s,
        s.with_var(a).add_top(b).add_top(-b) == s.with_var(a),
        s.with_var(a).without_var() == s,
        s.with_var(a).to_temp() == s.add_top(a),
        s.with_var(a).add_top(b).without_var() == s,
{
    assert(s.add_top(a).add_top(b) =~= s.add_top(a + b));
    assert(s.add_top(0) =~= s);
    assert(s.with_var(a).add_top(b).add_top(-b) =~= s.with_var(a));
    assert(s.with_var(a).without_var() =~= s);
    assert(s.with_var(a).without_var().blocks =~= s.blocks);
    assert(s.with_var(a).to_temp() =~= s.add_top(a));
    assert(s.with_var(a).add_top(b).without_var() =~= s);
}

/// Whether the sizes in an expression fit together: operands have the size
/// that their operator works on, an assigned value has the size of its
/// target, a pointer has eight bytes, a member lies within its struct, and
/// a call has the size that its function returns.
pub open spec fn well_sized(e: TCExpr, ft: Map<u32, u32>) -> bool
    decreases e, 0nat,
{
    match e.kind {
        TCExprKind::Uninit | TCExprKind::LocalIdent { .. } => true,
        TCExprKind::IntLiteral(_) => e.expr_type.size() == 4,
        TCExprKind::LongLiteral(_) | TCExprKind::ULongLiteral(_) | TCExprKind::StringLiteral(_) => {
            e.expr_type.size() == 8
        },
        TCExprKind::AddI32(l, r) | TCExprKind::SubI32(l, r) => {
            &&& well_sized(*l, ft)
            &&& well_sized(*r, ft)
            &&& l.expr_type.size() == 4
            &&& r.expr_type.size() == 4
            &&& e.expr_type.size() == 4
        },
        TCExprKind::AddU64(l, r) => {
            &&& well_sized(*l, ft)
            &&& well_sized(*r, ft)
            &&& l.expr_type.size() == 8
            &&& r.expr_type.size() == 8
            &&& e.expr_type.size() == 8
        },
        TCExprKind::SConv8To32(x) | TCExprKind::ZConv8To32(x) => {
            well_sized(*x, ft) && x.expr_type.size() == 1 && e.expr_type.size() == 4
        },
        TCExprKind::SConv32To64(x) | TCExprKind::ZConv32To64(x) => {
            well_sized(*x, ft) && x.expr_type.size() == 4 && e.expr_type.size() == 8
        },
        TCExprKind::Assign { target, value } => {
            &&& well_sized(*value, ft)
            &&& target_well_sized(target, ft)
            &&& value.expr_type.size() == target.target_type.size()
            &&& e.expr_type.size() == target.target_type.size()
        },
        TCExprKind::Member { base, offset } => {
            well_sized(*base, ft) && e.expr_type.size() + offset <= base.expr_type.size()
        },
        TCExprKind::PtrMember { base, .. } => well_sized(*base, ft) && base.expr_type.size() == 8,
        TCExprKind::Deref(x) => well_sized(*x, ft) && x.expr_type.size() == 8,
        TCExprKind::Ref(target) => target_well_sized(target, ft) && e.expr_type.size() == 8,
        TCExprKind::Call { func, params, .. } => {
            &&& ft.contains_key(func)
            &&& ft[func] == e.expr_type.size()
            &&& list_well_sized(params@, params@.len(), ft)
        },
    }
}

/// Whether the sizes in the first `n` expressions of a list fit together.
pub open spec fn list_well_sized(params: Seq<TCExpr>, n: nat, ft: Map<u32, u32>) -> bool
    decreases params, n,
{
    if n == 0 || n > params.len() {
        true
    } else {
        list_well_sized(params, (n - 1) as nat, ft) && well_sized(params[n - 1], ft)
    }
}

/// Whether the sizes in an assignment target fit together.
pub open spec fn target_well_sized(t: TCAssignTarget, ft: Map<u32, u32>) -> bool
    decreases t, 0nat,
{
    match t.kind {
        TCAssignKind::Ptr(x) => well_sized(*x, ft) && x.expr_type.size() == 8,
        TCAssignKind::LocalIdent { .. } => true,
    }
}

/// The shape with one more variable for each of the first `n` expressions
/// of a list, of the size of the expression.
pub open spec fn with_params(s: Shape, params: Seq<TCExpr>, n: nat) -> Shape
    decreases n,
{
    if n == 0 || n > params.len() {
        s
    } else {
        with_params(s, params, (n - 1) as nat).with_var(params[n - 1].expr_type.size() as int)
    }
}

/// The code of an expression whose sizes fit together leaves the shape of
/// the stack as it was and the value of the expression on top: the operand
/// stack holds `e.expr_type.size()` bytes more than before.
pub proof fn lemma_expr_leaves_its_value(e: TCExpr, ft: Map<u32, u32>, base: nat, s: Shape)
    requires
        well_sized(e, ft),
    ensures
        run_shape(expr_code(e, ft, base), s) == s.add_top(e.expr_type.size() as int),
    decreases e, 0nat,
{
    let size = e.expr_type.size() as int;
    let code = expr_code(e, ft, base);
    match e.kind {
        TCExprKind::Uninit => {
            lemma_leaf_shape(code, s);
        },
        TCExprKind::IntLiteral(_) => {
            lemma_leaf_shape(code, s);
        },
        TCExprKind::LongLiteral(_) => {
            lemma_leaf_shape(code, s);
        },
        TCExprKind::ULongLiteral(_) => {
            lemma_leaf_shape(code, s);
        },
        TCExprKind::StringLiteral(_) => {
            lemma_leaf_shape(code, s);
        },
        TCExprKind::LocalIdent { .. } => {
            lemma_leaf_shape(code, s);
        },
        TCExprKind::AddI32(l, r) | TCExprKind::AddU64(l, r) | TCExprKind::SubI32(l, r) => {
            let first = expr_code(*l, ft, base);
            let second = expr_code(*r, ft, base + expr_strings(*l).len());
            let last = code.last();
            lemma_expr_leaves_its_value(*l, ft, base, s);
            let s1 = s.add_top(l.expr_type.size() as int);
            lemma_expr_leaves_its_value(*r, ft, base + expr_strings(*l).len(), s1);
            let s2 = s1.add_top(r.expr_type.size() as int);
            assert(code =~= first + second + seq![last]);
            lemma_run_pieces(first, second, s);
            lemma_run_pieces(first + second, seq![last], s);
            lemma_run_one(last, s2);
            lemma_add_top(s, l.expr_type.size() as int, r.expr_type.size() as int);
            lemma_add_top(s, l.expr_type.size() + r.expr_type.size(), net_bytes(last.op));
        },
        TCExprKind::SConv8To32(x)
        | TCExprKind::SConv32To64(x)
        | TCExprKind::ZConv8To32(x)
        | TCExprKind::ZConv32To64(x)
        | TCExprKind::Deref(x) => {
            assert(code.drop_last() =~= expr_code(*x, ft, base));
            lemma_unary_shape(e, *x, ft, base, s);
        },
        TCExprKind::PtrMember { base: inner, .. } => {
            assert(code.drop_last() =~= expr_code(*inner, ft, base));
            lemma_unary_shape(e, *inner, ft, base, s);
        },
        TCExprKind::Member { base: inner, offset } => {
            let first = expr_code(*inner, ft, base);
            lemma_expr_leaves_its_value(*inner, ft, base, s);
            let s1 = s.add_top(inner.expr_type.size() as int);
            let pop = code[code.len() - 2];
            let keep = code.last();
            assert(code =~= first + seq![pop] + seq![keep]);
            lemma_run_pieces(first, seq![pop], s);
            lemma_run_pieces(first + seq![pop], seq![keep], s);
            lemma_run_one(pop, s1);
            lemma_run_one(keep, s1.add_top(net_bytes(pop.op)));
            lemma_add_top(s, inner.expr_type.size() as int, net_bytes(pop.op));
            lemma_add_top(s, inner.expr_type.size() + net_bytes(pop.op), net_bytes(keep.op));
        },
        TCExprKind::Assign { target, value } => {
            let first = expr_code(*value, ft, base);
            let second = target_code(target, ft, base + expr_strings(*value).len());
            lemma_expr_leaves_its_value(*value, ft, base, s);
            lemma_target_leaves_the_value(
                target,
                ft,
                base + expr_strings(*value).len(),
                s.add_top(size),
            );
            lemma_run_pieces(first, second, s);
        },
        TCExprKind::Ref(target) => {
            assert(target_well_sized(target, ft));
            match target.kind {
                TCAssignKind::LocalIdent { .. } => {
                    lemma_leaf_shape(code, s);
                },
                TCAssignKind::Ptr(x) => {
                    assert(well_sized(*x, ft) && x.expr_type.size() == 8);
                    lemma_expr_leaves_its_value(*x, ft, base, s);
                },
            }
        },
        TCExprKind::Call { func, params, varargs } => {
            let n = params@.len();
            let r = ft[func];
            let opening = tag(Opcode::StackAlloc { bytes: r, symbol: crate::runtime::META_NO_SYMBOL }, e.loc);
            let list = list_code(params@, n, ft, base, e.loc);
            let count = count_code(n, varargs, e.loc);
            let call = tag(Opcode::Call(func), e.loc);
            let cleanup = call_cleanup(n, varargs, r, e.loc);
            assert(code =~= seq![opening] + list + count + seq![call] + cleanup);
            let s0 = s.with_var(r as int);
            lemma_run_one(opening, s);
            lemma_list_allocates(params@, n, ft, base, e.loc, s0);
            let s1 = with_params(s0, params@, n);
            lemma_count_allocates(n, varargs, e.loc, s1);
            let s2 = if varargs {
                s1.with_var(4)
            } else {
                s1
            };
            lemma_run_one(call, s2);
            lemma_add_top(s2, 0, 0);
            lemma_cleanup_frees(params@, n, varargs, r, e.loc, s0);
            lemma_run_pieces(seq![opening], list, s);
            lemma_run_pieces(seq![opening] + list, count, s);
            lemma_run_pieces(seq![opening] + list + count, seq![call], s);
            lemma_run_pieces(seq![opening] + list + count + seq![call], cleanup, s);
            lemma_add_top(s, r as int, 0);
        },
    }
}

/// Code of one opcode that leaves the stack variables alone.
proof fn lemma_leaf_shape(code: Seq<TaggedOpcode>, s: Shape)
    requires
        code.len() == 1,
        !(code[0].op is StackAlloc),
        !(code[0].op is StackDealloc),
        !(code[0].op is StackAddToTemp),
        !(code[0].op is StackAllocDyn),
    ensures
        run_shape(code, s) == s.add_top(net_bytes(code[0].op)),
{
    lemma_run_one(code[0], s);
    assert(code =~= seq![code[0]]);
}

/// The code of an expression with one operand: the operand, then one
/// opcode that leaves the stack variables alone.
proof fn lemma_unary_shape(e: TCExpr, x: TCExpr, ft: Map<u32, u32>, base: nat, s: Shape)
    requires
        well_sized(x, ft),
        expr_code(e, ft, base).len() == expr_code(x, ft, base).len() + 1,
        expr_code(e, ft, base).drop_last() == expr_code(x, ft, base),
        !(expr_code(e, ft, base).last().op is StackAlloc),
        !(expr_code(e, ft, base).last().op is StackDealloc),
        !(expr_code(e, ft, base).last().op is StackAddToTemp),
        !(expr_code(e, ft, base).last().op is StackAllocDyn),
        x.expr_type.size() + net_bytes(expr_code(e, ft, base).last().op) == e.expr_type.size(),
        decreases_to!(e => x),
    ensures
        run_shape(expr_code(e, ft, base), s) == s.add_top(e.expr_type.size() as int),
    decreases e, 0nat, 0nat,
{
    lemma_expr_leaves_its_value(x, ft, base, s);
    lemma_add_top(
        s,
        x.expr_type.size() as int,
        net_bytes(expr_code(e, ft, base).last().op),
    );
}

/// The code that writes to an assignment target leaves the shape of the
/// stack as it was: the value stays on top.
pub proof fn lemma_target_leaves_the_value(t: TCAssignTarget, ft: Map<u32, u32>, base: nat, s: Shape)
    requires
        target_well_sized(t, ft),
    ensures
        run_shape(target_code(t, ft, base), s) == s,
    decreases t, 0nat,
{
    let code = target_code(t, ft, base);
    let bytes = t.target_type.size() as int;
    match t.kind {
        TCAssignKind::Ptr(x) => {
            let dup = code[0];
            let store = code.last();
            let middle = expr_code(*x, ft, base);
            assert(code =~= seq![dup] + middle + seq![store]);
            lemma_run_one(dup, s);
            lemma_expr_leaves_its_value(*x, ft, base, s.add_top(bytes));
            lemma_run_one(store, s.add_top(bytes).add_top(8));
            lemma_run_pieces(seq![dup], middle, s);
            lemma_run_pieces(seq![dup] + middle, seq![store], s);
            lemma_add_top(s, bytes, 8);
            lemma_add_top(s, bytes + 8, -bytes - 8);
        },
        TCAssignKind::LocalIdent { .. } => {
            let dup = code[0];
            let set = code[1];
            assert(code =~= seq![dup] + seq![set]);
            lemma_run_one(dup, s);
            lemma_run_one(set, s.add_top(bytes));
            lemma_run_pieces(seq![dup], seq![set], s);
            lemma_add_top(s, bytes, -bytes);
        },
    }
}

/// The code that passes the first `n` parameters of a call leaves one
/// stack variable for each of them, and nothing on the operand stack.
pub proof fn lemma_list_allocates(
    params: Seq<TCExpr>,
    n: nat,
    ft: Map<u32, u32>,
    base: nat,
    loc: CodeLoc,
    s: Shape,
)
    requires
        n <= params.len(),
        list_well_sized(params, n, ft),
    ensures
        run_shape(list_code(params, n, ft, base, loc), s) == with_params(s, params, n),
    decreases params, n,
{
    if n > 0 {
        let before = list_code(params, (n - 1) as nat, ft, base, loc);
        let code = list_code(params, n, ft, base, loc);
        let size = params[n - 1].expr_type.size();
        let opening = tag(
            Opcode::StackAlloc { bytes: size, symbol: crate::runtime::META_NO_SYMBOL },
            loc,
        );
        let value = expr_code(
            params[n - 1],
            ft,
            base + list_strings(params, (n - 1) as nat).len(),
        );
        let put = tag(Opcode::PopIntoTopVar { offset: 0, bytes: size }, loc);
        lemma_list_allocates(params, (n - 1) as nat, ft, base, loc, s);
        let s1 = with_params(s, params, (n - 1) as nat);
        lemma_run_one(opening, s1);
        lemma_expr_leaves_its_value(
            params[n - 1],
            ft,
            base + list_strings(params, (n - 1) as nat).len(),
            s1.with_var(size as int),
        );
        lemma_run_one(put, s1.with_var(size as int).add_top(size as int));
        assert(code =~= before + seq![opening] + value + seq![put]);
        lemma_run_pieces(before, seq![opening], s);
        lemma_run_pieces(before + seq![opening], value, s);
        lemma_run_pieces(before + seq![opening] + value, seq![put], s);
        lemma_add_top(s1, size as int, size as int);
    }
}

/// The code that passes the count of a variadic call leaves one stack
/// variable of four bytes.
pub proof fn lemma_count_allocates(n: nat, varargs: bool, loc: CodeLoc, s: Shape)
    ensures
        run_shape(count_code(n, varargs, loc), s) == if varargs {
            s.with_var(4)
        } else {
            s
        },
{
    let code = count_code(n, varargs, loc);
    if varargs {
        assert(code =~= seq![code[0]] + seq![code[1]] + seq![code[2]]);
        lemma_run_one(code[0], s);
        lemma_run_one(code[1], s.with_var(4));
        lemma_run_one(code[2], s.with_var(4).add_top(4));
        lemma_run_pieces(seq![code[0]], seq![code[1]], s);
        lemma_run_pieces(seq![code[0]] + seq![code[1]], seq![code[2]], s);
        lemma_add_top(s, 4, 4);
    }
}

/// `StackDealloc`, `k` times over.
pub open spec fn deallocs(k: nat, loc: CodeLoc) -> Seq<TaggedOpcode> {
    Seq::new(k, |i: int| tag(Opcode::StackDealloc, loc))
}

/// The variables of the first `n` parameters are freed by `n` times
/// `StackDealloc`.
pub proof fn lemma_deallocs_free(params: Seq<TCExpr>, n: nat, loc: CodeLoc, s: Shape)
    requires
        n <= params.len(),
    ensures
        run_shape(deallocs(n, loc), with_params(s, params, n)) == s,
    decreases n,
{
    if n > 0 {
        let s1 = with_params(s, params, (n - 1) as nat);
        let size = params[n - 1].expr_type.size() as int;
        // The last variable goes first.
        assert(deallocs(n, loc) =~= seq![tag(Opcode::StackDealloc, loc)] + deallocs(
            (n - 1) as nat,
            loc,
        ));
        lemma_run_pieces(
            seq![tag(Opcode::StackDealloc, loc)],
            deallocs((n - 1) as nat, loc),
            s1.with_var(size),
        );
        lemma_run_one(tag(Opcode::StackDealloc, loc), s1.with_var(size));
        lemma_add_top(s1, size, 0);
        lemma_deallocs_free(params, (n - 1) as nat, loc, s);
    } else {
        assert(deallocs(0, loc) =~= Seq::<TaggedOpcode>::empty());
    }
}

/// The code after a call frees the variables of the parameters and of the
/// count, and frees the return slot where it is empty or turns it into
/// operand bytes where it is not: the value that the call returns lies on
/// top of the operand stack.
pub proof fn lemma_cleanup_frees(
    params: Seq<TCExpr>,
    n: nat,
    varargs: bool,
    r: u32,
    loc: CodeLoc,
    s0: Shape,
)
    requires
        n <= params.len(),
        s0.blocks.len() > 0,
        s0.blocks.last() == (r as int, 0int),
    ensures
        run_shape(
            call_cleanup(n, varargs, r, loc),
            if varargs {
                with_params(s0, params, n).with_var(4)
            } else {
                with_params(s0, params, n)
            },
        ) == s0.without_var().add_top(r as int),
{
    let frees = if varargs {
        n + 1
    } else {
        n
    };
    let last = tag(
        if r == 0 {
            Opcode::StackDealloc
        } else {
            Opcode::StackAddToTemp
        },
        loc,
    );
    let code = call_cleanup(n, varargs, r, loc);
    assert(code =~= deallocs(frees, loc) + seq![last]);
    let s1 = with_params(s0, params, n);
    let start = if varargs {
        s1.with_var(4)
    } else {
        s1
    };
    if varargs {
        assert(deallocs(frees, loc) =~= seq![tag(Opcode::StackDealloc, loc)] + deallocs(n, loc));
        lemma_run_pieces(seq![tag(Opcode::StackDealloc, loc)], deallocs(n, loc), start);
        lemma_run_one(tag(Opcode::StackDealloc, loc), start);
        lemma_add_top(s1, 4, 0);
    }
    lemma_deallocs_free(params, n, loc, s0);
    lemma_run_pieces(deallocs(frees, loc), seq![last], start);
    lemma_run_one(last, s0);
    if r == 0 {
        assert(s0.without_var().add_top(0) =~= s0.without_var());
    }
}

/// The code of a statement whose sizes fit together leaves nothing on the
/// operand stack: a declaration leaves one more stack variable, of the
/// size of its initial value, and every other statement leaves the shape
/// of the stack as it was.
pub proof fn lemma_stmt_leaves_no_operands(
    stmt: TCStmt,
    ft: Map<u32, u32>,
    base: nat,
    param_count: u32,
    s: Shape,
)
    requires
        stmt_expr(stmt) matches Some(e) ==> well_sized(e, ft),
    ensures
        run_shape(stmt_code(stmt, ft, base, param_count), s) == match stmt.kind {
            TCStmtKind::Decl { init } => s.with_var(init.expr_type.size() as int),
            _ => s,
        },
{
    let code = stmt_code(stmt, ft, base, param_count);
    match stmt.kind {
        TCStmtKind::RetVal(e) => {
            let value = expr_code(e, ft, base);
            let set = code[code.len() - 2];
            let ret = code.last();
            let size = e.expr_type.size() as int;
            assert(code =~= value + seq![set] + seq![ret]);
            lemma_expr_leaves_its_value(e, ft, base, s);
            lemma_run_one(set, s.add_top(size));
            lemma_run_one(ret, s.add_top(size).add_top(-size));
            lemma_run_pieces(value, seq![set], s);
            lemma_run_pieces(value + seq![set], seq![ret], s);
            lemma_add_top(s, size, -size);
            lemma_add_top(s, 0, 0);
        },
        TCStmtKind::Ret => {
            lemma_leaf_shape(code, s);
            lemma_add_top(s, 0, 0);
        },
        TCStmtKind::Expr(e) => {
            let value = expr_code(e, ft, base);
            let pop = code.last();
            let size = e.expr_type.size() as int;
            assert(code =~= value + seq![pop]);
            lemma_expr_leaves_its_value(e, ft, base, s);
            lemma_run_one(pop, s.add_top(size));
            lemma_run_pieces(value, seq![pop], s);
            lemma_add_top(s, size, -size);
        },
        TCStmtKind::Decl { init } => {
            let opening = code[0];
            let value = expr_code(init, ft, base);
            let put = code.last();
            let size = init.expr_type.size() as int;
            assert(code =~= seq![opening] + value + seq![put]);
            lemma_run_one(opening, s);
            lemma_expr_leaves_its_value(init, ft, base, s.with_var(size));
            lemma_run_one(put, s.with_var(size).add_top(size));
            lemma_run_pieces(seq![opening], value, s);
            lemma_run_pieces(seq![opening] + value, seq![put], s);
            lemma_add_top(s, size, size);
        },
    }
}

/// The operations on the memory keep it well formed, whether they succeed
/// or fail.
pub proof fn lemma_operations_keep_wf(m: MemoryView, bytes: Seq<u8>, n: int, ptr: VarPointer)
    requires
        m.wf(),
        0 <= n,
    ensures
        m.push(bytes).0.wf(),
        m.pop(n).0.wf(),
        m.pop_u8().0.wf(),
        m.pop_u16().0.wf(),
        m.pop_u32().0.wf(),
        m.pop_u64().0.wf(),
        m.write(ptr, bytes).0.wf(),
        m.push_stack_bytes_from(ptr, n).0.wf(),
        m.pop_stack_bytes_into(ptr, n).0.wf(),
        m.dup(n).0.wf(),
        m.pop_stack_var().0.wf(),
        m.pop_stack_var_onto_stack().0.wf(),
{
    if m.stack.vars.len() > 0 {
        assert(m.stack.vars.last() == m.stack.vars[m.stack.vars.len() - 1]);
    }
}

/// Allocating a stack variable, dropping bytes from under the top of the
/// operand stack, and exchanging bytes there keep the memory well formed.
pub proof fn lemma_more_operations_keep_wf(m: MemoryView, a: int, b: int, len: u32, meta: u32)
    requires
        m.wf(),
        0 <= a,
        0 <= b,
    ensures
        m.add_stack_var(len, meta).0.wf(),
        m.pop_keep(a, b).0.wf(),
        m.swap(a, b).0.wf(),
{
    if m.stack.vars.len() > 0 {
        assert(m.stack.vars.last() == m.stack.vars[m.stack.vars.len() - 1]);
    }
}

/// An opcode outside the class `Control` keeps the memory well formed,
/// whether it succeeds or fails.
pub proof fn lemma_simple_step_keeps_wf(m: MemoryView, op: Opcode)
    requires
        m.wf(),
        op_class(op) != OpClass::Control,
    ensures
        simple_step(m, op).0.wf(),
{
    let no_ptr = VarPointer { value: 0 };
    match op_class(op) {
        OpClass::Extend => {
            lemma_operations_keep_wf(m, Seq::empty(), 0, no_ptr);
            let low = pop_narrow(m, extend_source_width(op));
            if low.1 is Ok {
                lemma_operations_keep_wf(low.0, extended(op, low.1->Ok_0), 0, no_ptr);
            }
        },
        OpClass::Arith => {
            lemma_operations_keep_wf(m, Seq::empty(), 0, no_ptr);
            if is_word_op(op) {
                lemma_operations_keep_wf(m.pop_u32().0, Seq::empty(), 0, no_ptr);
                if pop_words(m).1 is Ok {
                    let (l, r) = pop_words(m).1->Ok_0;
                    if word_result(op, l, r) is Ok {
                        lemma_operations_keep_wf(
                            pop_words(m).0,
                            word_result(op, l, r)->Ok_0,
                            0,
                            no_ptr,
                        );
                    }
                }
            } else {
                lemma_operations_keep_wf(m.pop_u64().0, Seq::empty(), 0, no_ptr);
                if pop_longs(m).1 is Ok {
                    let (l, r) = pop_longs(m).1->Ok_0;
                    if long_result(op, l, r) is Ok {
                        lemma_operations_keep_wf(
                            pop_longs(m).0,
                            long_result(op, l, r)->Ok_0,
                            0,
                            no_ptr,
                        );
                    }
                }
            }
        },
        _ => {
            lemma_stack_step_keeps_wf(m, op);
        },
    }
}

proof fn lemma_stack_step_keeps_wf(m: MemoryView, op: Opcode)
    requires
        m.wf(),
        op_class(op) == OpClass::Stack,
    ensures
        stack_step(m, op).0.wf(),
{
    let no_ptr = VarPointer { value: 0 };
    lemma_operations_keep_wf(m, Seq::empty(), 0, no_ptr);
    match op {
        Opcode::StackAlloc { bytes, symbol } => {
            lemma_more_operations_keep_wf(m, 0, 0, bytes, symbol);
        },
        Opcode::StackAllocDyn { symbol } => {
            if m.pop_u32().1 is Ok {
                lemma_more_operations_keep_wf(m.pop_u32().0, 0, 0, m.pop_u32().1->Ok_0, symbol);
            }
        },
        Opcode::Pop { bytes } => {
            lemma_operations_keep_wf(m, Seq::empty(), bytes as int, no_ptr);
        },
        Opcode::PopKeep { keep, drop } => {
            lemma_more_operations_keep_wf(m, keep as int, drop as int, 0, 0);
        },
        Opcode::PushDup { bytes } => {
            lemma_operations_keep_wf(m, Seq::empty(), bytes as int, no_ptr);
        },
        Opcode::Swap { top, bottom } => {
            lemma_more_operations_keep_wf(m, top as int, bottom as int, 0, 0);
        },
        Opcode::PopIntoTopVar { offset, bytes } => {
            lemma_operations_keep_wf(
                m,
                Seq::empty(),
                bytes as int,
                VarPointer::make(TAG_STACK as int, m.stack.vars.len() as int, offset as int),
            );
        },
        Opcode::GetLocal { var, offset, bytes } => {
            lemma_operations_keep_wf(m, Seq::empty(), bytes as int, local_ptr(m.fp, var, offset));
        },
        Opcode::SetLocal { var, offset, bytes } => {
            lemma_operations_keep_wf(m, Seq::empty(), bytes as int, local_ptr(m.fp, var, offset));
        },
        Opcode::Get { offset, bytes } => {
            if m.pop_u64().1 is Ok {
                lemma_operations_keep_wf(
                    m.pop_u64().0,
                    Seq::empty(),
                    bytes as int,
                    shifted_ptr(m.pop_u64().1->Ok_0, offset),
                );
            }
        },
        Opcode::Store { offset, bytes } => {
            if m.pop_u64().1 is Ok {
                lemma_operations_keep_wf(
                    m.pop_u64().0,
                    Seq::empty(),
                    bytes as int,
                    shifted_ptr(m.pop_u64().1->Ok_0, offset),
                );
            }
        },
        _ => {
            lemma_pushes_keep_wf(m, op);
        },
    }
}

proof fn lemma_pushes_keep_wf(m: MemoryView, op: Opcode)
    requires
        m.wf(),
        op is MakeTempI8 || op is MakeTempI32 || op is MakeTempI64 || op is MakeTempU64 || op
            is MakeTempF64 || op is MakeTempBinaryPtr || op is MakeTempLocalStackPtr || op
            is PushUndef || op is Func || op is StackDealloc || op is StackAddToTemp,
    ensures
        stack_step(m, op).0.wf(),
{
    let no_ptr = VarPointer { value: 0 };
    lemma_operations_keep_wf(m, Seq::empty(), 0, no_ptr);
    if stack_step(m, op).1 is Ok && stack_step(m, op).0.stack.data.len() > m.stack.data.len() {
        let pushed = stack_step(m, op).0.stack.data.skip(m.stack.data.len() as int);
        lemma_operations_keep_wf(m, pushed, 0, no_ptr);
        assert(stack_step(m, op).0.stack.data =~= m.stack.data + pushed);
    }
}

/// Whether none of the opcodes is of the class `Control` or allocates a
/// stack variable of a size that it pops.
pub open spec fn straight(code: Seq<TaggedOpcode>) -> bool {
    forall|i: int|
        0 <= i < code.len() ==> op_class((#[trigger] code[i]).op) != OpClass::Control && !(
        code[i].op is StackAllocDyn)
}

/// Straight code that runs without a fault does to the stack what its
/// opcodes do, one after the other: after `count` steps from an opcode
/// on, the program counter stands `count` opcodes further, the memory is
/// well formed, and the shape of the stack is the shape that the code makes
/// of the shape before.
pub proof fn lemma_straight_code_runs(
    ops: Seq<TaggedOpcode>,
    args: Seq<Seq<u8>>,
    m: MemoryView,
    count: nat,
)
    requires
        m.wf(),
        m.pc + count <= ops.len() <= u32::MAX,
        straight(ops.subrange(m.pc as int, m.pc + count)),
        steps(ops, args, m, count).1 == Ok::<Option<i32>, ErrorKind>(None),
    ensures
        steps(ops, args, m, count).0.wf(),
        steps(ops, args, m, count).0.pc == m.pc + count,
        shape_of(steps(ops, args, m, count).0.stack) == run_shape(
            ops.subrange(m.pc as int, m.pc + count),
            shape_of(m.stack),
        ),
    decreases count,
{
    let code = ops.subrange(m.pc as int, m.pc + count);
    if count > 0 {
        let op = ops[m.pc as int];
        assert(code[0] == op);
        let next = traced_step(ops, args, m).0;
        lemma_simple_step_keeps_wf(m, op.op);
        assert(step(ops, args, m).1 is Ok);
        assert(simple_step(m, op.op).1 is Ok);
        lemma_step_shape(m, op.op);
        let rest = ops.subrange(next.pc as int, next.pc + count - 1);
        assert(rest =~= code.skip(1));
        assert forall|i: int| 0 <= i < rest.len() implies op_class((#[trigger] rest[i]).op)
            != OpClass::Control && !(rest[i].op is StackAllocDyn) by {
            assert(rest[i] == code[i + 1]);
        }
        lemma_straight_code_runs(ops, args, next, (count - 1) as nat);
        lemma_run_one(op, shape_of(m.stack));
        lemma_run_pieces(seq![op], rest, shape_of(m.stack));
        assert(code =~= seq![op] + rest);
    } else {
        assert(code =~= Seq::<TaggedOpcode>::empty());
    }
}

/// Whether an expression calls no function.
pub open spec fn call_free(e: TCExpr) -> bool
    decreases e, 0nat,
{
    match e.kind {
        TCExprKind::AddI32(l, r) | TCExprKind::AddU64(l, r) | TCExprKind::SubI32(l, r) => {
            call_free(*l) && call_free(*r)
        },
        TCExprKind::SConv8To32(x)
        | TCExprKind::SConv32To64(x)
        | TCExprKind::ZConv8To32(x)
        | TCExprKind::ZConv32To64(x)
        | TCExprKind::Deref(x) => call_free(*x),
        TCExprKind::Member { base, .. } | TCExprKind::PtrMember { base, .. } => call_free(*base),
        TCExprKind::Assign { target, value } => call_free(*value) && target_call_free(target),
        TCExprKind::Ref(target) => target_call_free(target),
        TCExprKind::Call { .. } => false,
        _ => true,
    }
}

/// Whether an assignment target calls no function.
pub open spec fn target_call_free(t: TCAssignTarget) -> bool
    decreases t, 0nat,
{
    match t.kind {
        TCAssignKind::Ptr(x) => call_free(*x),
        TCAssignKind::LocalIdent { .. } => true,
    }
}

/// Straight code joined to straight code is straight.
proof fn lemma_straight_pieces(a: Seq<TaggedOpcode>, b: Seq<TaggedOpcode>)
    requires
        straight(a),
        straight(b),
    ensures
        straight(a + b),
{
    assert forall|i: int| 0 <= i < (a + b).len() implies op_class((#[trigger] (a + b)[i]).op)
        != OpClass::Control && !((a + b)[i].op is StackAllocDyn) by {
        if i < a.len() {
            assert((a + b)[i] == a[i]);
        } else {
            assert((a + b)[i] == b[i - a.len()]);
        }
    }
}

/// The code of an expression that calls no function is straight.
pub proof fn lemma_call_free_code_is_straight(e: TCExpr, ft: Map<u32, u32>, base: nat)
    requires
        call_free(e),
    ensures
        straight(expr_code(e, ft, base)),
    decreases e, 0nat,
{
    let code = expr_code(e, ft, base);
    match e.kind {
        TCExprKind::AddI32(l, r) | TCExprKind::AddU64(l, r) | TCExprKind::SubI32(l, r) => {
            let first = expr_code(*l, ft, base);
            let second = expr_code(*r, ft, base + expr_strings(*l).len());
            lemma_call_free_code_is_straight(*l, ft, base);
            lemma_call_free_code_is_straight(*r, ft, base + expr_strings(*l).len());
            lemma_straight_pieces(first, second);
            lemma_straight_pieces(first + second, seq![code.last()]);
            assert(code =~= first + second + seq![code.last()]);
        },
        TCExprKind::SConv8To32(x)
        | TCExprKind::SConv32To64(x)
        | TCExprKind::ZConv8To32(x)
        | TCExprKind::ZConv32To64(x)
        | TCExprKind::Deref(x) => {
            lemma_call_free_code_is_straight(*x, ft, base);
            lemma_straight_pieces(expr_code(*x, ft, base), seq![code.last()]);
            assert(code =~= expr_code(*x, ft, base) + seq![code.last()]);
        },
        TCExprKind::PtrMember { base: inner, .. } => {
            lemma_call_free_code_is_straight(*inner, ft, base);
            lemma_straight_pieces(expr_code(*inner, ft, base), seq![code.last()]);
            assert(code =~= expr_code(*inner, ft, base) + seq![code.last()]);
        },
        TCExprKind::Member { base: inner, .. } => {
            let first = expr_code(*inner, ft, base);
            let tail = seq![code[code.len() - 2], code.last()];
            lemma_call_free_code_is_straight(*inner, ft, base);
            lemma_straight_pieces(first, tail);
            assert(code =~= first + tail);
        },
        TCExprKind::Assign { target, value } => {
            lemma_call_free_code_is_straight(*value, ft, base);
            lemma_call_free_target_is_straight(target, ft, base + expr_strings(*value).len());
            lemma_straight_pieces(
                expr_code(*value, ft, base),
                target_code(target, ft, base + expr_strings(*value).len()),
            );
        },
        TCExprKind::Ref(target) => {
            assert(target_call_free(target));
            match target.kind {
                TCAssignKind::Ptr(x) => {
                    assert(call_free(*x));
                    lemma_call_free_code_is_straight(*x, ft, base);
                },
                TCAssignKind::LocalIdent { .. } => {},
            }
        },
        _ => {},
    }
}

/// The code that writes to an assignment target that calls no function is
/// straight.
pub proof fn lemma_call_free_target_is_straight(t: TCAssignTarget, ft: Map<u32, u32>, base: nat)
    requires
        target_call_free(t),
    ensures
        straight(target_code(t, ft, base)),
    decreases t, 0nat,
{
    let code = target_code(t, ft, base);
    match t.kind {
        TCAssignKind::Ptr(x) => {
            let middle = expr_code(*x, ft, base);
            lemma_call_free_code_is_straight(*x, ft, base);
            lemma_straight_pieces(seq![code[0]], middle);
            lemma_straight_pieces(seq![code[0]] + middle, seq![code.last()]);
            assert(code =~= seq![code[0]] + middle + seq![code.last()]);
        },
        TCAssignKind::LocalIdent { .. } => {},
    }
}

/// The number of operand bytes on top of a stack is the top of its shape.
pub proof fn lemma_shape_top(m: MemoryView)
    requires
        m.wf(),
    ensures
        shape_of(m.stack).top() == m.temp_len(),
        shape_of(m.stack).blocks.len() == m.stack.vars.len(),
{
    if m.stack.vars.len() > 0 {
        assert(m.stack.vars.last() == m.stack.vars[m.stack.vars.len() - 1]);
    }
}

/// Evaluating an expression leaves its value on top of the operand stack.
///
/// Where the opcodes from the program counter on are the code of an
/// expression that calls no function and whose sizes fit together, and the
/// code runs without a fault, the operand stack holds
/// `e.expr_type.size()` bytes more than before, the stack holds the
/// variables that it held, the program counter stands behind the code, and
/// the memory is well formed.
pub proof fn lemma_evaluation_leaves_the_value(
    ops: Seq<TaggedOpcode>,
    args: Seq<Seq<u8>>,
    m: MemoryView,
    e: TCExpr,
    ft: Map<u32, u32>,
    base: nat,
)
    requires
        m.wf(),
        well_sized(e, ft),
        call_free(e),
        m.pc + expr_code(e, ft, base).len() <= ops.len() <= u32::MAX,
        ops.subrange(m.pc as int, m.pc + expr_code(e, ft, base).len()) == expr_code(e, ft, base),
        steps(ops, args, m, expr_code(e, ft, base).len()).1 == Ok::<Option<i32>, ErrorKind>(None),
    ensures
        steps(ops, args, m, expr_code(e, ft, base).len()).0.wf(),
        steps(ops, args, m, expr_code(e, ft, base).len()).0.pc == m.pc + expr_code(
            e,
            ft,
            base,
        ).len(),
        steps(ops, args, m, expr_code(e, ft, base).len()).0.temp_len() == m.temp_len()
            + e.expr_type.size(),
        steps(ops, args, m, expr_code(e, ft, base).len()).0.stack.vars.len()
            == m.stack.vars.len(),
{
    let code = expr_code(e, ft, base);
    let after = steps(ops, args, m, code.len()).0;
    lemma_call_free_code_is_straight(e, ft, base);
    lemma_straight_code_runs(ops, args, m, code.len());
    lemma_expr_leaves_its_value(e, ft, base, shape_of(m.stack));
    lemma_shape_top(m);
    lemma_shape_top(after);
}

} // verus!
