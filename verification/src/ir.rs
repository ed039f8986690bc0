use vstd::prelude::*;

use crate::intern::{StringInterner, Symbol};
use crate::span::Span;
use crate::types::{TypeId, TypeInterner};

verus! {

/// The name an operator instruction is shown by: the name of the operator
/// it applies (`add`, `mod`, `lt`, ...); other instructions have none.
pub open spec fn inst_mnemonic(i: Instruction) -> Option<Seq<char>> {
    match i {
        Instruction::Add(..) => Some("add"@),
        Instruction::Sub(..) => Some("sub"@),
        Instruction::Mul(..) => Some("mul"@),
        Instruction::Div(..) => Some("div"@),
        Instruction::Mod(..) => Some("mod"@),
        Instruction::Shl(..) => Some("shl"@),
        Instruction::Shr(..) => Some("shr"@),
        Instruction::BitAnd(..) => Some("bitand"@),
        Instruction::BitOr(..) => Some("bitor"@),
        Instruction::BitXor(..) => Some("bitxor"@),
        Instruction::Eq(..) => Some("eq"@),
        Instruction::Ne(..) => Some("ne"@),
        Instruction::Lt(..) => Some("lt"@),
        Instruction::Le(..) => Some("le"@),
        Instruction::Gt(..) => Some("gt"@),
        Instruction::Ge(..) => Some("ge"@),
        _ => None,
    }
}

/// The symbol of the operator a unary instruction applies (`-`, `!`, `~`);
/// other instructions have none.
pub open spec fn unary_inst_symbol(i: Instruction) -> Option<Seq<char>> {
    match i {
        Instruction::Neg(..) => Some("-"@),
        Instruction::Not(..) => Some("!"@),
        Instruction::BitNot(..) => Some("~"@),
        _ => None,
    }
}

#[derive(Clone, Copy, Debug, PartialEq, Eq, Structural)]
pub struct Register(pub u32);

#[derive(Clone, Copy, Debug, PartialEq, Eq, Structural)]
pub struct BlockId(pub u32);

#[derive(Clone, Copy, Debug, PartialEq, Eq, Structural)]
pub struct FunctionId(pub u32);

#[derive(Clone, Debug)]
pub enum ConstValue {
    Unit,
    I32(i32),
    I64(i64),
    U64(u64),
    Bool(bool),
    Char(char),
    /// Index into `Program::string_constants`.
    StringLiteral(u32),
}

#[derive(Clone, Debug)]
pub enum FunctionRef {
    Named(Symbol),
    Extern(Symbol),
    Builtin(Symbol),
}

#[derive(Clone, Debug)]
pub enum Instruction {
    Const(Register, ConstValue),
    ConstUnit(Register),
    /// Extract the pointer from a string value: dst, src.
    StringPtr(Register, Register),
    /// Extract the length from a string value: dst, src.
    StringLen(Register, Register),
    Call(Register, FunctionRef, Vec<Register>),
    Copy(Register, Register),
    Nop,
    // Arithmetic: dst = lhs op rhs
    Add(Register, Register, Register),
    Sub(Register, Register, Register),
    Mul(Register, Register, Register),
    Div(Register, Register, Register),
    Mod(Register, Register, Register),
    Shl(Register, Register, Register),
    Shr(Register, Register, Register),
    BitAnd(Register, Register, Register),
    BitOr(Register, Register, Register),
    BitXor(Register, Register, Register),
    Neg(Register, Register),
    BitNot(Register, Register),
    // Comparison: dst = lhs op rhs (bool)
    Eq(Register, Register, Register),
    Ne(Register, Register, Register),
    Lt(Register, Register, Register),
    Le(Register, Register, Register),
    Gt(Register, Register, Register),
    Ge(Register, Register, Register),
    Not(Register, Register),
    Cast(Register, Register, TypeId),
    /// dst = heap-allocate an object of the given type.
    Alloc(Register, TypeId),
    /// dst = ptr.field[offset].
    Load(Register, Register, u32),
    /// ptr.field[offset] = src.
    Store(Register, u32, Register),
    /// dst = object[index], an element of the given type.
    IndexLoad(Register, Register, Register, TypeId),
    /// object[index] = src.
    IndexStore(Register, Register, Register),
    /// Increment the strong count.
    Retain(Register),
    /// Decrement the strong count, freeing at zero; the type selects the drop.
    Release(Register, Option<TypeId>),
}

#[derive(Clone, Debug)]
pub enum Terminator {
    Return(Register),
    Jump(BlockId),
    Branch(Register, BlockId, BlockId),
    Unreachable,
}

#[derive(Debug)]
pub struct BasicBlock {
    pub id: BlockId,
    pub instructions: Vec<Instruction>,
    /// Parallel to `instructions`, same length.
    pub spans: Vec<Span>,
    pub terminator: Terminator,
}

#[derive(Debug)]
pub struct Function {
    pub id: FunctionId,
    pub name: Symbol,
    pub params: Vec<(Symbol, TypeId)>,
    pub return_type: TypeId,
    pub blocks: Vec<BasicBlock>,
    pub register_count: u32,
    /// The type of each register, indexed by `Register.0`.
    pub register_types: Vec<TypeId>,
    pub is_extern: bool,
    pub extern_symbol: Option<String>,
    pub span: Span,
}

#[derive(Debug)]
pub struct Program {
    pub functions: Vec<Function>,
    pub string_constants: Vec<String>,
    pub entry_function: Option<FunctionId>,
    pub extern_libs: Vec<String>,
    pub interner: StringInterner,
    pub types: TypeInterner,
}

} // verus!
