//! The typed function tree that the assembler takes in: functions,
//! statements and expressions, each with its type and source location.

use vstd::prelude::*;
use crate::util::CodeLoc;

verus! {

/// The kinds of type.
#[derive(Debug, Clone, Copy, PartialEq, Eq, Structural)]
pub enum TCTypeKind {
    I32,
    U64,
    Char,
    Void,
    /// A struct, by its symbol and its size in bytes.
    Struct { ident: u32, size: u32 },
}

/// A type: a kind, behind `pointer_count` levels of pointer.
#[derive(Debug, Clone, Copy, PartialEq, Eq, Structural)]
pub struct TCType {
    pub kind: TCTypeKind,
    pub pointer_count: u32,
}

impl TCType {
    /// The size of a value of the type, in bytes.
    pub open spec fn spec_size(self) -> u32 {
        if self.pointer_count > 0 {
            8
        } else {
            match self.kind {
                TCTypeKind::I32 => 4,
                TCTypeKind::U64 => 8,
                TCTypeKind::Char => 1,
                TCTypeKind::Void => 0,
                TCTypeKind::Struct { size, .. } => size,
            }
        }
    }

    /// The size of a value of the type, in bytes.
    #[verifier::when_used_as_spec(spec_size)]
    pub fn size(self) -> (n: u32)
        ensures
            n == self.spec_size(),
    {
        if self.pointer_count > 0 {
            8
        } else {
            match self.kind {
                TCTypeKind::I32 => 4,
                TCTypeKind::U64 => 8,
                TCTypeKind::Char => 1,
                TCTypeKind::Void => 0,
                TCTypeKind::Struct { size, .. } => size,
            }
        }
    }
}

/// A size and an alignment, in bytes.
#[derive(Debug, Clone, Copy, PartialEq, Eq, Structural)]
pub struct SizeAlign {
    pub size: u32,
    pub align: u32,
}

/// One member of a struct: its type, its symbol, and its byte offset in
/// the struct.
#[derive(Debug, Clone, Copy, PartialEq, Eq, Structural)]
pub struct TCStructMember {
    pub decl_type: TCType,
    pub ident: u32,
    pub offset: u32,
    pub loc: CodeLoc,
}

/// What an assignment writes to.
#[derive(Debug)]
pub enum TCAssignKind {
    /// A local variable, by its frame-relative index.
    LocalIdent { var_offset: i16 },
    /// The memory that a pointer expression points to.
    Ptr(Box<TCExpr>),
}

/// The target of an assignment: what is written, its type, and the byte
/// offset of the written part within a local.
#[derive(Debug)]
pub struct TCAssignTarget {
    pub kind: TCAssignKind,
    pub target_loc: CodeLoc,
    pub target_type: TCType,
    pub offset: u32,
}

/// The kinds of expression.
#[derive(Debug)]
pub enum TCExprKind {
    Uninit,
    IntLiteral(i32),
    LongLiteral(i64),
    ULongLiteral(u64),
    /// A string literal, by its bytes without the terminator.
    StringLiteral(Vec<u8>),
    LocalIdent { var_offset: i16 },
    AddI32(Box<TCExpr>, Box<TCExpr>),
    AddU64(Box<TCExpr>, Box<TCExpr>),
    SubI32(Box<TCExpr>, Box<TCExpr>),
    SConv8To32(Box<TCExpr>),
    SConv32To64(Box<TCExpr>),
    ZConv8To32(Box<TCExpr>),
    ZConv32To64(Box<TCExpr>),
    Assign { target: TCAssignTarget, value: Box<TCExpr> },
    /// A member of a struct value, at a byte offset.
    Member { base: Box<TCExpr>, offset: u32 },
    /// A member of the struct that a pointer points to, at a byte offset.
    PtrMember { base: Box<TCExpr>, offset: u32 },
    Deref(Box<TCExpr>),
    Ref(TCAssignTarget),
    Call { func: u32, params: Vec<TCExpr>, varargs: bool },
}

/// An expression with its type and its source location.
#[derive(Debug)]
pub struct TCExpr {
    pub kind: TCExprKind,
    pub expr_type: TCType,
    pub loc: CodeLoc,
}

/// The kinds of statement.
#[derive(Debug)]
pub enum TCStmtKind {
    RetVal(TCExpr),
    Ret,
    Expr(TCExpr),
    Decl { init: TCExpr },
}

/// A statement with its source location.
#[derive(Debug)]
pub struct TCStmt {
    pub kind: TCStmtKind,
    pub loc: CodeLoc,
}

/// One parameter of a function.
#[derive(Debug, Clone, Copy, PartialEq, Eq, Structural)]
pub struct TCFuncParam {
    pub decl_type: TCType,
    pub ident: u32,
    pub loc: CodeLoc,
}

/// The type of a function.
#[derive(Debug)]
pub struct TCFuncType {
    pub loc: CodeLoc,
    pub params: Vec<TCFuncParam>,
    pub return_type: TCType,
    pub varargs: bool,
}

/// The body of a function.
#[derive(Debug)]
pub struct TCFuncDefn {
    pub loc: CodeLoc,
    pub stmts: Vec<TCStmt>,
}

/// A function: its type and, where it is defined, its body.
#[derive(Debug)]
pub struct TCFunc {
    pub func_type: TCFuncType,
    pub defn: Option<TCFuncDefn>,
}

/// The functions of one source file, by symbol, in the order in which the
/// file declares them.
#[derive(Debug)]
pub struct TypedFuncs {
    pub functions: Vec<(u32, TCFunc)>,
}

/// The types of the parameters of a function type, in order.
pub open spec fn param_types(t: TCFuncType) -> Seq<TCType> {
    Seq::new(t.params@.len(), |i: int| t.params@[i].decl_type)
}

/// Whether two function types are the same type: the same return type,
/// the same parameter types in the same order, and both variadic or
/// neither. Names and locations do not count.
pub open spec fn same_func_type(a: TCFuncType, b: TCFuncType) -> bool {
    &&& a.return_type == b.return_type
    &&& a.varargs == b.varargs
    &&& param_types(a) == param_types(b)
}

/// Whether two function types are the same type.
pub fn func_types_match(a: &TCFuncType, b: &TCFuncType) -> (same: bool)
    ensures
        same == same_func_type(*a, *b),
{
    if a.return_type != b.return_type || a.varargs != b.varargs || a.params.len()
        != b.params.len() {
        assert(a.params@.len() != b.params@.len() ==> param_types(*a).len() != param_types(
            *b,
        ).len());
        return false;
    }
    let mut i: usize = 0;
    while i < a.params.len()
        invariant
            i <= a.params@.len(),
            a.params@.len() == b.params@.len(),
            forall|k: int| 0 <= k < i ==> a.params@[k].decl_type == b.params@[k].decl_type,
        decreases a.params@.len() - i,
    {
        if a.params[i].decl_type != b.params[i].decl_type {
            assert(param_types(*a)[i as int] != param_types(*b)[i as int]);
            return false;
        }
        i = i + 1;
    }
    assert(param_types(*a) =~= param_types(*b));
    true
}

/// A copy of a function type.
pub fn copy_func_type(t: &TCFuncType) -> (copy: TCFuncType)
    ensures
        copy.loc == t.loc,
        copy.params@ == t.params@,
        copy.return_type == t.return_type,
        copy.varargs == t.varargs,
{
    let mut params: Vec<TCFuncParam> = Vec::new();
    let mut i: usize = 0;
    while i < t.params.len()
        invariant
            i <= t.params@.len(),
            params@ == t.params@.subrange(0, i as int),
        decreases t.params@.len() - i,
    {
        params.push(t.params[i]);
        i = i + 1;
        assert(params@ =~= t.params@.subrange(0, i as int));
    }
    assert(params@ =~= t.params@);
    TCFuncType { loc: t.loc, params, return_type: t.return_type, varargs: t.varargs }
}

} // verus!
