use vstd::prelude::*;

use super::{defined_last, joins_into, lower_frame, stores_into, unit_value, value_last, FunctionLowerCtx, LoopContext, Lowerer};
use super::consts::int_const;
use crate::ast::{BinOp, Block, Expr, Literal, Module, SpannedExpr, SpannedStmt, Stmt, TypeExpr, UnaryOp};
use crate::checker::expr::binop_method;
use crate::checker::mangled;
use super::current_moved;
use crate::checker::typing::op_method;
use crate::checker::typing::{ctx_kind, ctx_of, enum_variant_fields, env_of, expr_ty, written_ty};
use crate::checker::{mangle, LocalInfo};
use crate::ir::{BasicBlock, BlockId, ConstValue, Instruction, Register, Terminator};
use crate::scoped_locals::{find_binding, scope_get};
use crate::span::{Span, Spanned};
use crate::types::{field_index, fields_view, kind_name, KindView, PrimitiveType, TypeId, TypeKind, ERROR_ID};

verus! {

/// Lowering one part of a body after another keeps the frame.
pub proof fn lemma_lower_frame_trans(
    l0: Lowerer,
    l1: Lowerer,
    l2: Lowerer,
    c0: FunctionLowerCtx,
    c1: FunctionLowerCtx,
    c2: FunctionLowerCtx,
)
    requires
        lower_frame(l0, l1, c0, c1),
        lower_frame(l1, l2, c1, c2),
    ensures
        lower_frame(l0, l2, c0, c2),
{
    assert forall|i: int| 0 <= i < l0.string_constants@.len() implies #[trigger] l2.string_constants@[i]
        == l0.string_constants@[i] by {
        assert(l2.string_constants@[i] == l1.string_constants@[i]);
    }
    assert forall|i: int| 0 <= i < c0.blocks@.len() implies #[trigger] c2.blocks@[i] == c0.blocks@[i] by {
        assert(c2.blocks@[i] == c1.blocks@[i]);
    }
    if c1.blocks@.len() > c0.blocks@.len() {
        let b1 = c1.blocks@[c0.blocks@.len() as int];
        assert(c2.blocks@[c0.blocks@.len() as int] == b1);
    } else if c2.blocks@.len() > c0.blocks@.len() {
        let b2 = c2.blocks@[c0.blocks@.len() as int];
        assert forall|i: int|
            0 <= i < c0.current_instructions@.len() implies #[trigger] b2.instructions@[i]
                == c0.current_instructions@[i] by {
            assert(b2.instructions@[i] == c1.current_instructions@[i]);
        }
    }
    if c2.blocks@.len() == c0.blocks@.len() {
        assert forall|i: int|
            0 <= i < c0.current_instructions@.len() implies #[trigger] c2.current_instructions@[i]
                == c0.current_instructions@[i] by {
            assert(c2.current_instructions@[i] == c1.current_instructions@[i]);
        }
    }
}

/// What stays from `c0` to `c1` and from `c1` to `c2` stays from `c0` to `c2`.
pub proof fn lemma_flows_trans(c0: FunctionLowerCtx, c1: FunctionLowerCtx, c2: FunctionLowerCtx)
    requires
        super::flows(c0, c1),
        super::flows(c1, c2),
    ensures
        super::flows(c0, c2),
{
    assert forall|i: int| 0 <= i < c0.blocks@.len() implies #[trigger] c2.blocks@[i] == c0.blocks@[i] by {
        assert(c2.blocks@[i] == c1.blocks@[i]);
    }
    if c1.blocks@.len() > c0.blocks@.len() {
        let b1 = c1.blocks@[c0.blocks@.len() as int];
        assert(c2.blocks@[c0.blocks@.len() as int] == b1);
    } else if c2.blocks@.len() > c0.blocks@.len() {
        let b2 = c2.blocks@[c0.blocks@.len() as int];
        assert forall|i: int|
            0 <= i < c0.current_instructions@.len() implies #[trigger] b2.instructions@[i]
                == c0.current_instructions@[i] by {
            assert(b2.instructions@[i] == c1.current_instructions@[i]);
        }
    }
    if c2.blocks@.len() == c0.blocks@.len() {
        assert forall|i: int|
            0 <= i < c0.current_instructions@.len() implies #[trigger] c2.current_instructions@[i]
                == c0.current_instructions@[i] by {
            assert(c2.current_instructions@[i] == c1.current_instructions@[i]);
        }
    }
}

/// A statement lowered on the way to `c1` stays lowered on the way to `c2`.
pub proof fn lemma_stmt_flows(s: SpannedStmt, c1: FunctionLowerCtx, c2: FunctionLowerCtx)
    requires
        super::stmt_lowered(s, c1),
        super::flows(c1, c2),
    ensures
        super::stmt_lowered(s, c2),
{
    if super::stmt_expr(s) is Some {
        let e = super::stmt_expr(s).unwrap();
        let h = choose|h: (Lowerer, FunctionLowerCtx, FunctionLowerCtx, Register)|
            #[trigger] super::expr_lowered(e, h) && super::flows(h.2, c1);
        lemma_flows_trans(h.2, c1, c2);
        assert(super::expr_lowered(e, h) && super::flows(h.2, c2));
    }
}

/// What a state flows into, before its current block is finished as the
/// last of `bs`, lies in `bs`.
pub proof fn lemma_ends_in(c: FunctionLowerCtx, cb: FunctionLowerCtx, bs: Seq<BasicBlock>)
    requires
        super::flows(c, cb),
        bs.len() == cb.blocks@.len() + 1,
        forall|i: int| 0 <= i < cb.blocks@.len() ==> #[trigger] bs[i] == cb.blocks@[i],
        bs.last().instructions@ == cb.current_instructions@,
    ensures
        super::ends_in(c, bs),
{
    assert forall|i: int| 0 <= i < c.blocks@.len() implies #[trigger] bs[i] == c.blocks@[i] by {
        assert(bs[i] == cb.blocks@[i]);
    }
    if cb.blocks@.len() > c.blocks@.len() {
        assert(bs[c.blocks@.len() as int] == cb.blocks@[c.blocks@.len() as int]);
    }
}

/// Whether values of a kind have a name their methods are registered under.
pub open spec fn receiver_named(k: KindView) -> bool {
    k is Struct || k is Enum || k is String || (k matches KindView::Primitive(p) && p
        != PrimitiveType::Unit)
}

/// How a string literal `text` was lowered (from the lowerer `l0` to `l1`):
/// the last instruction loads the constant at an index of the table of
/// string constants that holds `text`; the table gained no entry when it
/// held `text` already, and exactly one, `text`, when it did not.
pub open spec fn string_lowered(l0: Lowerer, l1: Lowerer, c1: FunctionLowerCtx, text: Seq<char>) -> bool {
    &&& c1.current_instructions@.len() > 0
    &&& c1.current_instructions@.last() matches Instruction::Const(_, ConstValue::StringLiteral(idx)) && (
    l1.string_constants@.len() <= u32::MAX ==> idx < l1.string_constants@.len()
        && l1.string_constants@[idx as int]@ == text)
    &&& (exists|i: int| 0 <= i < l0.string_constants@.len() && l0.string_constants@[i]@ == text)
        ==> l1.string_constants@.len() == l0.string_constants@.len()
    &&& !(exists|i: int| 0 <= i < l0.string_constants@.len() && l0.string_constants@[i]@ == text)
        && l1.string_constants@.len() <= u32::MAX ==> l1.string_constants@.len() == l0.string_constants@.len() + 1
        && l1.string_constants@.last()@ == text
}

/// Whether some type has a method registered for the binary operator `op`
/// (under its name, `__` and the operator's method name).
pub open spec fn overloaded(l: Lowerer, op: BinOp) -> bool {
    op_method(op) is Some && exists|owner: Seq<char>|
        #[trigger] l.typer.functions.lookup(mangled(owner, op_method(op).unwrap())) is Some
}

/// Whether `i` is the instruction that applies the unary operator `op`,
/// setting `r`.
pub open spec fn unary_inst(op: UnaryOp, i: Instruction, r: Register) -> bool {
    match op {
        UnaryOp::Neg => i matches Instruction::Neg(d, _) && d == r,
        UnaryOp::Not => i matches Instruction::Not(d, _) && d == r,
        UnaryOp::BitNot => i matches Instruction::BitNot(d, _) && d == r,
    }
}

/// The registers an operator instruction reads, in order.
pub open spec fn inst_operands(i: Instruction) -> Seq<Register> {
    match i {
        Instruction::Add(_, a, b) => seq![a, b],
        Instruction::Sub(_, a, b) => seq![a, b],
        Instruction::Mul(_, a, b) => seq![a, b],
        Instruction::Div(_, a, b) => seq![a, b],
        Instruction::Mod(_, a, b) => seq![a, b],
        Instruction::Shl(_, a, b) => seq![a, b],
        Instruction::Shr(_, a, b) => seq![a, b],
        Instruction::BitAnd(_, a, b) => seq![a, b],
        Instruction::BitOr(_, a, b) => seq![a, b],
        Instruction::BitXor(_, a, b) => seq![a, b],
        Instruction::Eq(_, a, b) => seq![a, b],
        Instruction::Ne(_, a, b) => seq![a, b],
        Instruction::Lt(_, a, b) => seq![a, b],
        Instruction::Le(_, a, b) => seq![a, b],
        Instruction::Gt(_, a, b) => seq![a, b],
        Instruction::Ge(_, a, b) => seq![a, b],
        Instruction::Neg(_, a) => seq![a],
        Instruction::Not(_, a) => seq![a],
        Instruction::BitNot(_, a) => seq![a],
        _ => Seq::empty(),
    }
}

/// `e` was lowered into `r` on the way from `c0` to `c1`.
pub open spec fn value_between(e: SpannedExpr, r: Register, c0: FunctionLowerCtx, c1: FunctionLowerCtx) -> bool {
    exists|h: (Lowerer, FunctionLowerCtx, FunctionLowerCtx)|
        #[trigger] lowered_value(h.0, e, h.1, h.2, r) && super::flows(c0, h.1) && super::flows(h.2, c1)
}

/// An operation lowered from `c0` to `c1` whose last instruction applies
/// its operator reads the registers its operands were lowered into: the
/// left one and then the right one, or the one operand.
pub open spec fn operands_in(e: SpannedExpr, c0: FunctionLowerCtx, c1: FunctionLowerCtx) -> bool {
    let ops = inst_operands(c1.current_instructions@.last());
    match e.node {
        Expr::Binary { left, right, .. } => c1.current_instructions@.len() > 0 && ops.len() == 2 ==> value_between(
            *left,
            ops[0],
            c0,
            c1,
        ) && value_between(*right, ops[1], c0, c1),
        Expr::Unary { operand, .. } => c1.current_instructions@.len() > 0 && ops.len() == 1 ==> value_between(
            *operand,
            ops[0],
            c0,
            c1,
        ),
        _ => true,
    }
}

/// A binary operation (other than `&&` and `||`) that is not lowered to a
/// call of an overloading method is lowered to the instruction of that same
/// operator: the instruction's name is the operator's (`%` to `mod`, `/` to
/// `div`, ...), so no two operators share an instruction.
pub proof fn law_binary_lowers_to_its_operator(
    l0: Lowerer,
    e: SpannedExpr,
    c0: FunctionLowerCtx,
    c1: FunctionLowerCtx,
    r: Register,
)
    requires
        lowered_value(l0, e, c0, c1, r),
        e.node matches Expr::Binary { op, .. } && !(op is And || op is Or),
        !(c1.current_instructions@.last() is Call),
    ensures
        e.node matches Expr::Binary { op, .. } && crate::ir::inst_mnemonic(c1.current_instructions@.last())
            == Some(crate::checker::ops::binop_variant_text(op)),
{
    reveal_strlit("add");
    reveal_strlit("sub");
    reveal_strlit("mul");
    reveal_strlit("div");
    reveal_strlit("mod");
    reveal_strlit("shl");
    reveal_strlit("shr");
    reveal_strlit("bitand");
    reveal_strlit("bitor");
    reveal_strlit("bitxor");
    reveal_strlit("eq");
    reveal_strlit("ne");
    reveal_strlit("lt");
    reveal_strlit("le");
    reveal_strlit("gt");
    reveal_strlit("ge");
}

/// A unary operation is lowered to the instruction of that same operator
/// (`-` to negation, `!` to logical not, `~` to bitwise not).
pub proof fn law_unary_lowers_to_its_operator(
    l0: Lowerer,
    e: SpannedExpr,
    c0: FunctionLowerCtx,
    c1: FunctionLowerCtx,
    r: Register,
)
    requires
        lowered_value(l0, e, c0, c1, r),
        e.node is Unary,
    ensures
        e.node matches Expr::Unary { op, .. } && crate::ir::unary_inst_symbol(c1.current_instructions@.last())
            == Some(crate::checker::expr::unary_text(op)),
{
    reveal_strlit("-");
    reveal_strlit("!");
    reveal_strlit("~");
}

/// Whether `i` is the instruction that applies the binary operator `op`
/// (neither `&&` nor `||`), setting `r`.
pub open spec fn op_inst(op: BinOp, i: Instruction, r: Register) -> bool {
    match op {
        BinOp::Add => i matches Instruction::Add(d, _, _) && d == r,
        BinOp::Sub => i matches Instruction::Sub(d, _, _) && d == r,
        BinOp::Mul => i matches Instruction::Mul(d, _, _) && d == r,
        BinOp::Div => i matches Instruction::Div(d, _, _) && d == r,
        BinOp::Mod => i matches Instruction::Mod(d, _, _) && d == r,
        BinOp::Shl => i matches Instruction::Shl(d, _, _) && d == r,
        BinOp::Shr => i matches Instruction::Shr(d, _, _) && d == r,
        BinOp::BitAnd => i matches Instruction::BitAnd(d, _, _) && d == r,
        BinOp::BitOr => i matches Instruction::BitOr(d, _, _) && d == r,
        BinOp::BitXor => i matches Instruction::BitXor(d, _, _) && d == r,
        BinOp::Eq => i matches Instruction::Eq(d, _, _) && d == r,
        BinOp::Ne => i matches Instruction::Ne(d, _, _) && d == r,
        BinOp::Lt => i matches Instruction::Lt(d, _, _) && d == r,
        BinOp::Le => i matches Instruction::Le(d, _, _) && d == r,
        BinOp::Gt => i matches Instruction::Gt(d, _, _) && d == r,
        BinOp::Ge => i matches Instruction::Ge(d, _, _) && d == r,
        BinOp::And | BinOp::Or => false,
    }
}

/// Where the value of `e`, lowered from the state `c0` to the state `c1`
/// (by the lowerer `l0`), is: a literal is a constant set by the last
/// instruction; a local is the register it lives in; a binary operation
/// other than `&&` and `||` is set by the last instruction, which applies
/// the operator or (when some type has one) calls the method that overloads
/// it; an operation, a field
/// or element load, a call or a cast is set by the last instruction (a
/// field by a load, `__str_ptr` and `__str_len` by the string instruction
/// they name; a struct built by its name is retained last); a struct or
/// enum value is a
/// new object, the first register allocated, whose fields the last
/// instruction stores (a struct is allocated by the instruction right after
/// those before it); `&&` and `||` go on in a fresh block after setting
/// the result register, allocated first; an `if`, a `match` or an `if let`
/// goes on in the block its branches jump to; `e?` copies the value or goes
/// on after a branch; a block without a final expression holds the unit
/// value; assignments, loops, jumps, ranges and `return` give the unit
/// value, a `while` after finishing at least three blocks.
pub open spec fn lowered_value(l0: Lowerer, e: SpannedExpr, c0: FunctionLowerCtx, c1: FunctionLowerCtx, r: Register) -> bool
    decreases e,
{
    match e.node {
        Expr::Literal(l) => match l {
            Literal::TemplateString { .. } => defined_last(c1, r),
            Literal::String(_) => defined_last(c1, r) && (c1.current_instructions@.last() matches Instruction::Const(
                _,
                ConstValue::StringLiteral(_),
            )),
            Literal::Int(s, suffix) => defined_last(c1, r) && c1.current_instructions@.last() == Instruction::Const(
                r,
                int_const(s@, suffix),
            ),
            Literal::Bool(b) => defined_last(c1, r) && c1.current_instructions@.last() == Instruction::Const(
                r,
                ConstValue::Bool(b),
            ),
            Literal::Char(ch) => defined_last(c1, r) && c1.current_instructions@.last() == Instruction::Const(
                r,
                ConstValue::Char(ch),
            ),
        },
        Expr::Ident(name) => match c0.locals.binding(name@) {
            Some(reg) => r == reg,
            None => value_last(c1, r),
        },
        Expr::Binary { op, .. } => if op is And || op is Or {
            &&& r == Register(c0.next_register)
            &&& c1.current_instructions@.len() == 0
            &&& c1.blocks@.len() > c0.blocks@.len()
            &&& c1.blocks@.last().terminator == Terminator::Jump(c1.current_block_id)
        } else {
            defined_last(c1, r) && (op_inst(op, c1.current_instructions@.last(), r) || (
            c1.current_instructions@.last() is Call && overloaded(l0, op)))
        },
        Expr::Unary { op, .. } => defined_last(c1, r) && unary_inst(op, c1.current_instructions@.last(), r),
        Expr::FieldAccess { .. } => defined_last(c1, r) && (c1.current_instructions@.last() matches Instruction::Load(
            d,
            _,
            _,
        ) && d == r),
        Expr::IndexAccess { .. } => defined_last(c1, r),
        Expr::MethodCall { .. } => defined_last(c1, r),
        Expr::Call { .. } => value_last(c1, r) && super::calls::builtin_call_value(l0, e, c1, r),
        Expr::Cast { target_type, .. } => super::control_flow::cast_into(
            c1,
            r,
            written_ty(ctx_of(l0.typer), target_type.node),
        ),
        Expr::If { .. } => c1.current_instructions@.len() == 0 && c1.blocks@.len() >= c0.blocks@.len() + 3
            && c1.blocks@.last().terminator == Terminator::Jump(c1.current_block_id),
        Expr::Assign { .. } => unit_value(c1, r),
        Expr::While { .. } => unit_value(c1, r) && c1.blocks@.len() >= c0.blocks@.len() + 3,
        Expr::Loop { .. } => unit_value(c1, r),
        Expr::Break { .. } => unit_value(c1, r),
        Expr::Continue { .. } => unit_value(c1, r),
        Expr::Range { .. } => unit_value(c1, r),
        Expr::For { .. } => unit_value(c1, r),
        Expr::CompoundAssign { .. } => unit_value(c1, r),
        Expr::Return(_) => unit_value(c1, r),
        Expr::Grouped(inner) => lowered_value(l0, *inner, c0, c1, r),
        Expr::Match { .. } => joins_into(c0, c1, r),
        Expr::IfLet { .. } => joins_into(c0, c1, r),
        Expr::StructLiteral { name, fields } => if scope_get(l0.typer.structs@, name@) is Some {
            &&& r == Register(c0.next_register)
            &&& super::allocated_after(c0, c1, r)
            &&& if fields@.len() == 0 {
                c1.current_instructions@.last() matches Instruction::Alloc(d, _) && d == r
            } else {
                stores_into(c1, r)
            }
        } else {
            unit_value(c1, r)
        },
        Expr::EnumLiteral { enum_name, variant, .. } => if (scope_get(l0.typer.enums@, enum_name@) matches Some(et)
            && enum_variant_fields(ctx_of(l0.typer), et, variant@) is Some) {
            r == Register(c0.next_register) && stores_into(c1, r)
        } else {
            unit_value(c1, r)
        },
        Expr::StaticCall { .. } => defined_last(c1, r) || (r == Register(c0.next_register) && stores_into(c1, r)),
        Expr::Block(b) => b.tail_expr is None ==> c1.current_instructions@.contains(Instruction::ConstUnit(r)),
        Expr::QuestionMark(_) => {
            ||| super::control_flow::copy_into(c1, r)
            ||| (c1.current_instructions@.len() == 0 && c1.blocks@.len() > c0.blocks@.len() && (c1.blocks@.last().terminator is Return
                || c1.blocks@.last().terminator == Terminator::Jump(c1.current_block_id)))
        },
        _ => true,
    }
}

/// How writing `val` to the place `target` names shows, from the state
/// `c0` to `c1`: a local that is visible now lives in `val`; a field or an
/// element gets `val` by the last instruction; any other target is left
/// alone.
pub open spec fn assigned(target: SpannedExpr, c0: FunctionLowerCtx, c1: FunctionLowerCtx, val: Register) -> bool {
    match target.node {
        Expr::Ident(name) => c0.locals.binding(name@) is Some ==> c1.locals.binding(name@) == Some(val),
        Expr::FieldAccess { .. } => c1.current_instructions@.len() > 0 && (c1.current_instructions@.last() matches Instruction::Store(
            _,
            _,
            v,
        ) && v == val),
        Expr::IndexAccess { .. } => c1.current_instructions@.len() > 0 && (c1.current_instructions@.last() matches Instruction::IndexStore(
            _,
            _,
            v,
        ) && v == val),
        _ => c1 == c0,
    }
}

/// The position of the first field named `name` (the number of fields when
/// none has that name).
pub open spec fn field_pos(fs: Seq<(Seq<char>, TypeId)>, name: Seq<char>) -> nat
    decreases fs.len(),
{
    if fs.len() == 0 {
        0
    } else if fs[0].0 == name {
        0
    } else {
        1 + field_pos(fs.drop_first(), name)
    }
}

/// The field position a field access on a value of type `t` loads from:
/// the position of the field in the struct, or 0 when `t` is no struct,
/// has no such field, or the position does not fit in a `u32`.
pub open spec fn field_slot(k: KindView, name: Seq<char>) -> nat {
    match k {
        KindView::Struct { fields, .. } => {
            let p = field_pos(fields, name);
            if p < fields.len() && p < u32::MAX {
                p
            } else {
                0
            }
        },
        _ => 0,
    }
}

/// A left-to-right search finds a field at `field_pos`.
proof fn lemma_field_pos(fs: Seq<(String, TypeId)>, name: Seq<char>, r: Option<usize>)
    requires
        match r {
            Some(i) => i < fs.len() && fs[i as int].0@ == name && forall|j: int|
                0 <= j < i ==> fs[j].0@ != name,
            None => forall|j: int| 0 <= j < fs.len() ==> fs[j].0@ != name,
        },
    ensures
        field_pos(fields_view(fs), name) == match r {
            Some(i) => i as nat,
            None => fs.len(),
        },
        fields_view(fs).len() == fs.len(),
    decreases fs.len(),
{
    if fs.len() > 0 {
        assert(fields_view(fs).drop_first() =~= fields_view(fs.drop_first()));
        match r {
            Some(i) => {
                if i > 0 {
                    lemma_field_pos(fs.drop_first(), name, Some((i - 1) as usize));
                }
            },
            None => {
                lemma_field_pos(fs.drop_first(), name, None);
            },
        }
    }
}

/// Where a value is depends on the state lowering ends in only through its
/// current instructions and block, its next register and its finished
/// blocks.
pub proof fn lemma_lowered_value_same_end(
    l0: Lowerer,
    e: SpannedExpr,
    c0: FunctionLowerCtx,
    a: FunctionLowerCtx,
    b: FunctionLowerCtx,
    r: Register,
)
    requires
        a.current_instructions == b.current_instructions,
        a.current_block_id == b.current_block_id,
        a.next_register == b.next_register,
        a.blocks == b.blocks,
        lowered_value(l0, e, c0, a, r),
    ensures
        lowered_value(l0, e, c0, b, r),
    decreases e,
{
    if let Expr::Grouped(inner) = e.node {
        lemma_lowered_value_same_end(l0, *inner, c0, a, b, r);
    }
}

/// Where a value is depends on the state lowering starts from only through
/// its locals, its next register, its finished blocks and the instructions
/// of its current block.
proof fn lemma_lowered_value_same_start(
    l0: Lowerer,
    e: SpannedExpr,
    a: FunctionLowerCtx,
    b: FunctionLowerCtx,
    c1: FunctionLowerCtx,
    r: Register,
)
    requires
        a.locals == b.locals,
        a.next_register == b.next_register,
        a.blocks == b.blocks,
        a.current_instructions == b.current_instructions,
        lowered_value(l0, e, a, c1, r),
    ensures
        lowered_value(l0, e, b, c1, r),
    decreases e,
{
    if let Expr::Grouped(inner) = e.node {
        lemma_lowered_value_same_start(l0, *inner, a, b, c1, r);
    }

}

impl Lowerer {
    /// The type of an expression, with the locals of the function being
    /// lowered: the type the checker gives it.
    pub(crate) fn infer_expr_type(&mut self, st: &mut FunctionLowerCtx, e: &SpannedExpr) -> (t: TypeId)
        requires
            old(self).wf(),
            old(st).wf(),
        ensures
            t == expr_ty(ctx_of(old(self).typer), env_of(old(st).local_types), *e),
            lower_frame(*old(self), *final(self), *old(st), *final(st)),
            final(st).locals == old(st).locals,
            final(st).blocks == old(st).blocks,
            final(st).current_instructions == old(st).current_instructions,
            final(st).next_register == old(st).next_register,
            final(st).next_block_id == old(st).next_block_id,
            final(st).current_block_id == old(st).current_block_id,
            final(st).register_types == old(st).register_types,
            final(self).string_constants == old(self).string_constants,
    {
        self.typer.check_expr(e, &mut st.local_types)
    }

    /// The name the methods of an expression's type are registered under
    /// (for a struct, an enum, a string or a primitive type other than the
    /// unit type).
    pub fn infer_receiver_type_name(&mut self, st: &mut FunctionLowerCtx, e: &SpannedExpr) -> (r: Option<String>)
        requires
            old(self).wf(),
            old(st).wf(),
        ensures
            ({
                let k = ctx_kind(
                    ctx_of(old(self).typer),
                    expr_ty(ctx_of(old(self).typer), env_of(old(st).local_types), *e),
                );
                match r {
                    Some(n) => receiver_named(k) && n@ == kind_name(k),
                    None => !receiver_named(k),
                }
            }),
            lower_frame(*old(self), *final(self), *old(st), *final(st)),
            final(st).locals == old(st).locals,
            final(st).blocks == old(st).blocks,
            final(st).current_instructions == old(st).current_instructions,
            final(st).next_register == old(st).next_register,
            final(st).next_block_id == old(st).next_block_id,
            final(st).current_block_id == old(st).current_block_id,
            final(st).register_types == old(st).register_types,
            final(self).string_constants == old(self).string_constants,
    {
        let t = self.infer_expr_type(st, e);
        let named = match self.typer.types.resolve(t) {
            TypeKind::Struct { .. } | TypeKind::Enum { .. } | TypeKind::String => true,
            TypeKind::Primitive(p) => !matches!(p, PrimitiveType::Unit),
            _ => false,
        };
        if named {
            Some(self.typer.types.display_name(t))
        } else {
            None
        }
    }

    /// The position of `field` in the struct type of `object`; the first
    /// position when the type has no such field.
    pub fn resolve_field_index(&mut self, st: &mut FunctionLowerCtx, object: &SpannedExpr, field: &String) -> (idx: u32)
        requires
            old(self).wf(),
            old(st).wf(),
        ensures
            lower_frame(*old(self), *final(self), *old(st), *final(st)),
            final(st).locals == old(st).locals,
            final(st).blocks == old(st).blocks,
            final(st).current_instructions == old(st).current_instructions,
            final(st).next_register == old(st).next_register,
            final(st).next_block_id == old(st).next_block_id,
            final(st).current_block_id == old(st).current_block_id,
            final(st).register_types == old(st).register_types,
            final(self).string_constants == old(self).string_constants,
            idx == field_slot(
                ctx_kind(
                    ctx_of(old(self).typer),
                    expr_ty(ctx_of(old(self).typer), env_of(old(st).local_types), *object),
                ),
                field@,
            ),
    {
        let t = self.infer_expr_type(st, object);
        proof {
            assert(ctx_kind(ctx_of(self.typer), t) == self.typer.types.kind(t));
        }
        match self.typer.types.struct_fields(t) {
            Some(fs) => {
                let found = field_index(fs, field);
                proof {
                    lemma_field_pos(fs@, field@, found);
                }
                match found {
                    Some(j) => if j < u32::MAX as usize {
                        j as u32
                    } else {
                        0
                    },
                    None => 0,
                }
            },
            None => 0,
        }
    }

    /// A register holding the unit value.
    pub fn emit_unit(&mut self, st: &mut FunctionLowerCtx) -> (r: Register)
        requires
            old(self).wf(),
            old(st).wf(),
        ensures
            lower_frame(*old(self), *final(self), *old(st), *final(st)),
            *final(self) == *old(self),
            final(st).locals == old(st).locals,
            final(st).local_types == old(st).local_types,
            final(st).blocks == old(st).blocks,
            r == Register(old(st).next_register),
            final(st).current_instructions@ == old(st).current_instructions@.push(Instruction::ConstUnit(r)),
            final(st).current_block_id == old(st).current_block_id,
            unit_value(*final(st), r),
    {
        let r = st.alloc_register();
        st.push_inst(Instruction::ConstUnit(r));
        r
    }

    /// Lower an expression into instructions of the current function, and
    /// return the register that holds its value.  `depth` bounds how deeply
    /// default argument values are expanded inside each other.
    #[verifier::rlimit(50)]
    pub fn lower_expr(
        &mut self,
        st: &mut FunctionLowerCtx,
        module: &Module,
        e: &SpannedExpr,
        depth: u32,
    ) -> (r: Register)
        requires
            old(self).wf(),
            old(st).wf(),
        ensures
            lower_frame(*old(self), *final(self), *old(st), *final(st)),
            lowered_value(*old(self), *e, *old(st), *final(st), r),
            super::calls::call_args_in(*old(self), *e, *old(st), *final(st)),
            operands_in(*e, *old(st), *final(st)),
            super::calls::call_retains(*old(self), *e, *final(st)),
            e.node matches Expr::Literal(Literal::String(text)) ==> string_lowered(
                *old(self),
                *final(self),
                *final(st),
                text@,
            ),
        decreases depth, e, 3nat,
    {
        let ghost l0 = *self;
        let ghost c0 = *st;
        st.current_span = e.span;
        let ghost c0b = *st;
        match &e.node {
            Expr::Call { args, .. } => {
                let r = self.lower_call(st, module, e, depth);
                proof {
                    if super::calls::positional_call(l0, *e) {
                        if let Instruction::Call(_, _, regs) = st.current_instructions@.last() {
                            super::calls::lemma_args_in_start(args@, regs@, c0b, c0, *st);
                        }
                    }
                }
                r
            },
            Expr::MethodCall { object, method, args } => {
                let name = self.infer_receiver_type_name(st, object);
                let ghost l1 = *self;
                let ghost c1 = *st;
                if let Some(n) = name {
                    let key = mangle(&n, method);
                    let found = match self.typer.functions.get_by_key(&key) {
                        Some(sig) => Some(sig.duplicate()),
                        None => None,
                    };
                    if let Some(sig) = found {
                        let self_reg = self.lower_expr(st, module, object, depth);
                        let ghost l2 = *self;
                        let ghost c2 = *st;
                        let r = self.lower_method_call(st, module, &key, &sig, self_reg, args, depth);
                        proof {
                            lemma_lower_frame_trans(l0, l1, l2, c0, c1, c2);
                            lemma_lower_frame_trans(l0, l2, *self, c0, c2, *st);
                        }
                        return r;
                    }
                }
                self.lower_expr(st, module, object, depth);
                let ghost l2 = *self;
                let ghost c2 = *st;
                self.lower_args_all(st, module, args, depth);
                let ghost l3 = *self;
                let ghost c3 = *st;
                let r = self.emit_unit(st);
                proof {
                    lemma_lower_frame_trans(l0, l1, l2, c0, c1, c2);
                    lemma_lower_frame_trans(l0, l2, l3, c0, c2, c3);
                    lemma_lower_frame_trans(l0, l3, *self, c0, c3, *st);
                }
                r
            },
            Expr::StaticCall { owner, method, args } => {
                let et = match find_binding(&self.typer.enums, owner) {
                    Some(i) => Some(self.typer.enums[i].1),
                    None => None,
                };
                if let Some(et) = et {
                    if let Some((tag, true)) = self.variant_tag(et, method) {
                        return self.lower_enum_call(st, module, et, tag, args, depth);
                    }
                }
                let key = mangle(owner, method);
                let found = match self.typer.functions.get_by_key(&key) {
                    Some(sig) => Some(sig.duplicate()),
                    None => None,
                };
                match found {
                    Some(sig) => self.lower_resolved_call(st, module, &key, &sig, args, false, 0, depth),
                    None => {
                        self.lower_args_all(st, module, args, depth);
                        let ghost l1 = *self;
                        let ghost c1 = *st;
                        let r = self.emit_unit(st);
                        proof {
                            lemma_lower_frame_trans(l0, l1, *self, c0, c1, *st);
                        }
                        r
                    },
                }
            },
            Expr::Literal(lit) => {
                let c = match lit {
                    Literal::TemplateString { parts, exprs } => {
                        return self.lower_template_string(st, module, parts, exprs, depth);
                    },
                    Literal::String(s) => ConstValue::StringLiteral(self.intern_string_constant(s)),
                    Literal::Int(s, suffix) => super::consts::parse_int_const(s, *suffix),
                    Literal::Bool(b) => ConstValue::Bool(*b),
                    Literal::Char(ch) => ConstValue::Char(*ch),
                };
                let r = st.alloc_register();
                st.push_inst(Instruction::Const(r, c));
                r
            },
            Expr::Ident(name) => {
                let local = match st.locals.get(name.as_str()) {
                    Some(r) => Some(*r),
                    None => None,
                };
                match local {
                    Some(r) => r,
                    None => {
                        let sty = match find_binding(&self.typer.structs, name) {
                            Some(i) => Some(self.typer.structs[i].1),
                            None => None,
                        };
                        match sty {
                            Some(t) => {
                                let dst = st.alloc_typed_register(t);
                                st.push_inst(Instruction::Alloc(dst, t));
                                st.push_inst(Instruction::Retain(dst));
                                dst
                            },
                            None => self.emit_unit(st),
                        }
                    },
                }
            },
            Expr::Return(value) => {
                let ret_reg = match value {
                    Some(inner) => self.lower_expr(st, module, inner, depth),
                    None => self.emit_unit(st),
                };
                let ghost l1 = *self;
                let ghost c1 = *st;
                let dead = st.new_block_id();
                st.finish_block(Terminator::Return(ret_reg));
                st.start_block(dead);
                let r = self.emit_unit(st);
                proof {
                    lemma_lower_frame_trans(l0, l1, *self, c0, c1, *st);
                }
                r
            },
            Expr::Binary { op, left, right } => {
                if matches!(op, BinOp::And) || matches!(op, BinOp::Or) {
                    return self.lower_short_circuit(st, module, e, depth);
                }
                if let Some(m) = binop_method(*op) {
                    let name = self.infer_receiver_type_name(st, left);
                    let ghost l1 = *self;
                    let ghost c1 = *st;
                    if let Some(n) = name {
                        let key = mangle(&n, &String::from_str(m));
                        let found = match self.typer.functions.get_by_key(&key) {
                            Some(sig) => Some(sig.duplicate()),
                            None => None,
                        };
                        if let Some(sig) = found {
                            let r = self.lower_operator_call(st, module, &key, &sig, e, depth);
                            proof {
                                lemma_lower_frame_trans(l0, l1, *self, c0, c1, *st);
                            }
                            return r;
                        }
                    }
                    proof {
                        lemma_lower_frame_trans(l0, l1, *self, c0, c1, *st);
                    }
                }
                let ghost l1 = *self;
                let ghost c1 = *st;
                let span = st.current_span;
                let lhs = self.lower_expr(st, module, left, depth);
                let ghost l2 = *self;
                let ghost c2 = *st;
                let rhs = self.lower_expr(st, module, right, depth);
                let ghost l3 = *self;
                let ghost c3 = *st;
                st.current_span = span;
                let lhs_type = if (lhs.0 as usize) < st.register_types.len() {
                    st.register_types[lhs.0 as usize]
                } else {
                    TypeId(4)
                };
                let is_float = self.typer.types.is_float(lhs_type);
                let is_comparison = matches!(op, BinOp::Eq) || matches!(op, BinOp::Ne) || matches!(
                    op,
                    BinOp::Lt,
                ) || matches!(op, BinOp::Le) || matches!(op, BinOp::Gt) || matches!(op, BinOp::Ge);
                let dst = if is_float && !is_comparison {
                    st.alloc_typed_register(lhs_type)
                } else {
                    st.alloc_register()
                };
                let inst = match op {
                    BinOp::Add => Instruction::Add(dst, lhs, rhs),
                    BinOp::Sub => Instruction::Sub(dst, lhs, rhs),
                    BinOp::Mul => Instruction::Mul(dst, lhs, rhs),
                    BinOp::Div => Instruction::Div(dst, lhs, rhs),
                    BinOp::Mod => Instruction::Mod(dst, lhs, rhs),
                    BinOp::Shl => Instruction::Shl(dst, lhs, rhs),
                    BinOp::Shr => Instruction::Shr(dst, lhs, rhs),
                    BinOp::BitAnd => Instruction::BitAnd(dst, lhs, rhs),
                    BinOp::BitOr => Instruction::BitOr(dst, lhs, rhs),
                    BinOp::BitXor => Instruction::BitXor(dst, lhs, rhs),
                    BinOp::Eq => Instruction::Eq(dst, lhs, rhs),
                    BinOp::Ne => Instruction::Ne(dst, lhs, rhs),
                    BinOp::Lt => Instruction::Lt(dst, lhs, rhs),
                    BinOp::Le => Instruction::Le(dst, lhs, rhs),
                    BinOp::Gt => Instruction::Gt(dst, lhs, rhs),
                    BinOp::Ge => Instruction::Ge(dst, lhs, rhs),
                    BinOp::And | BinOp::Or => Instruction::Nop,
                };
                st.push_inst(inst);
                proof {
                    lemma_lower_frame_trans(l0, l1, l2, c0, c1, c2);
                    lemma_lower_frame_trans(l0, l2, l3, c0, c2, c3);
                    lemma_lower_frame_trans(l0, l3, *self, c0, c3, *st);
                    assert(lower_frame(l3, *self, c3, *st));
                    assert(super::flows(c0, c1));
                    assert(super::flows(c3, *st));
                    lemma_lower_frame_trans(l1, l2, l3, c1, c2, c3);
                    assert(super::flows(c1, c2));
                    assert(super::flows(c2, c3));
                    lemma_flows_trans(c2, c3, *st);
                    lemma_flows_trans(c0, c1, c2);
                    let hl = (l1, c1, c2);
                    let hr = (l2, c2, c3);
                    assert(lowered_value(hl.0, **left, hl.1, hl.2, lhs) && super::flows(c0, hl.1) && super::flows(hl.2, *st));
                    assert(lowered_value(hr.0, **right, hr.1, hr.2, rhs) && super::flows(c0, hr.1) && super::flows(hr.2, *st));
                    assert(inst_operands(st.current_instructions@.last()) == seq![lhs, rhs]);
                    assert(value_between(**left, lhs, c0, *st));
                    assert(value_between(**right, rhs, c0, *st));
                    assert(operands_in(*e, c0, *st));
                }
                dst
            },
            Expr::Unary { op, operand } => {
                let src = self.lower_expr(st, module, operand, depth);
                let ghost l1 = *self;
                let ghost c1 = *st;
                let src_type = if (src.0 as usize) < st.register_types.len() {
                    st.register_types[src.0 as usize]
                } else {
                    TypeId(4)
                };
                let is_float = self.typer.types.is_float(src_type);
                let dst = if is_float && matches!(op, UnaryOp::Neg) {
                    st.alloc_typed_register(src_type)
                } else {
                    st.alloc_register()
                };
                let inst = match op {
                    UnaryOp::Neg => Instruction::Neg(dst, src),
                    UnaryOp::Not => Instruction::Not(dst, src),
                    UnaryOp::BitNot => Instruction::BitNot(dst, src),
                };
                st.push_inst(inst);
                proof {
                    lemma_lower_frame_trans(l0, l1, *self, c0, c1, *st);
                    assert(lower_frame(l1, *self, c1, *st));
                    assert(super::flows(c1, *st));
                    assert(super::flows(c0, c0b));
                    let ho = (l0, c0b, c1);
                    assert(lowered_value(ho.0, **operand, ho.1, ho.2, src) && super::flows(c0, ho.1) && super::flows(ho.2, *st));
                    assert(inst_operands(st.current_instructions@.last()) == seq![src]);
                    assert(value_between(**operand, src, c0, *st));
                    assert(operands_in(*e, c0, *st));
                }
                dst
            },
            Expr::StructLiteral { .. } => self.lower_struct_literal(st, module, e, depth),
            Expr::FieldAccess { object, field } => {
                let obj = self.lower_expr(st, module, object, depth);
                let ghost l1 = *self;
                let ghost c1 = *st;
                let idx = self.resolve_field_index(st, object, field);
                let ghost l2 = *self;
                let ghost c2 = *st;
                let dst = st.alloc_register();
                st.push_inst(Instruction::Load(dst, obj, idx));
                proof {
                    lemma_lower_frame_trans(l0, l1, l2, c0, c1, c2);
                    lemma_lower_frame_trans(l0, l2, *self, c0, c2, *st);
                }
                dst
            },
            Expr::Assign { target, value } => {
                let val = self.lower_expr(st, module, value, depth);
                let ghost l1 = *self;
                let ghost c1 = *st;
                self.lower_assign_target(st, module, target, val, depth);
                let ghost l2 = *self;
                let ghost c2 = *st;
                let r = self.emit_unit(st);
                proof {
                    lemma_lower_frame_trans(l0, l1, l2, c0, c1, c2);
                    lemma_lower_frame_trans(l0, l2, *self, c0, c2, *st);
                }
                r
            },
            Expr::If { .. } => self.lower_if(st, module, e, depth),
            Expr::While { .. } => self.lower_while(st, module, e, depth),
            Expr::Grouped(inner) => {
                let r = self.lower_expr(st, module, inner, depth);
                proof {
                    lemma_lowered_value_same_start(l0, **inner, c0b, c0, *st, r);
                }
                r
            },
            Expr::Block(b) => self.lower_block_expr(st, module, b, depth),
            Expr::EnumLiteral { .. } => self.lower_enum_literal(st, module, e, depth),
            Expr::Match { .. } => self.lower_match(st, module, e, depth),
            Expr::IfLet { .. } => self.lower_if_let(st, module, e, depth),
            Expr::Loop { .. } => self.lower_loop(st, module, e, depth),
            Expr::Break { .. } | Expr::Continue { .. } => self.lower_loop_jump(st, e),
            Expr::Cast { .. } => self.lower_cast(st, module, e, depth),
            Expr::Range { .. } => self.emit_unit(st),
            Expr::IndexAccess { object, index } => {
                let obj = self.lower_expr(st, module, object, depth);
                let ghost l1 = *self;
                let ghost c1 = *st;
                let idx = self.lower_expr(st, module, index, depth);
                let ghost l2 = *self;
                let ghost c2 = *st;
                let dst = st.alloc_register();
                st.push_inst(Instruction::IndexLoad(dst, obj, idx, TypeId(4)));
                proof {
                    lemma_lower_frame_trans(l0, l1, l2, c0b, c1, c2);
                    lemma_lower_frame_trans(l0, l2, *self, c0b, c2, *st);
                }
                dst
            },
            Expr::For { .. } => self.lower_for(st, module, e, depth),
            Expr::CompoundAssign { .. } => self.lower_compound_assign(st, module, e, depth),
            Expr::QuestionMark(_) => self.lower_question_mark(st, module, e, depth),
        }
    }

    /// Write a value to the place an assignment names: a local takes the
    /// value's register (releasing the struct it held), a field is stored.
    fn lower_assign_target(
        &mut self,
        st: &mut FunctionLowerCtx,
        module: &Module,
        target: &SpannedExpr,
        val: Register,
        depth: u32,
    )
        requires
            old(self).wf(),
            old(st).wf(),
        ensures
            lower_frame(*old(self), *final(self), *old(st), *final(st)),
            assigned(*target, *old(st), *final(st), val),
        decreases depth, target, 2nat,
    {
        let ghost l0 = *self;
        let ghost c0 = *st;
        match &target.node {
            Expr::Ident(name) => {
                let info = match st.local_types.get(name.as_str()) {
                    Some(i) => Some(*i),
                    None => None,
                };
                if let Some(info) = info {
                    if self.typer.types.is_struct(info.ty) {
                        let old_reg = match st.locals.get(name.as_str()) {
                            Some(r) => Some(*r),
                            None => None,
                        };
                        if let Some(o) = old_reg {
                            st.push_inst(Instruction::Release(o, Some(info.ty)));
                        }
                    }
                }
                st.locals.update(name.as_str(), val);
            },
            Expr::IndexAccess { object, index } => {
                let obj = self.lower_expr(st, module, object, depth);
                let ghost l1 = *self;
                let ghost c1 = *st;
                let idx = self.lower_expr(st, module, index, depth);
                let ghost l2 = *self;
                let ghost c2 = *st;
                st.push_inst(Instruction::IndexStore(obj, idx, val));
                proof {
                    lemma_lower_frame_trans(l0, l1, l2, c0, c1, c2);
                    lemma_lower_frame_trans(l0, l2, *self, c0, c2, *st);
                }
            },
            Expr::FieldAccess { object, field } => {
                let obj = self.lower_expr(st, module, object, depth);
                let ghost l1 = *self;
                let ghost c1 = *st;
                let idx = self.resolve_field_index(st, object, field);
                let ghost l2 = *self;
                let ghost c2 = *st;
                st.push_inst(Instruction::Store(obj, idx, val));
                proof {
                    lemma_lower_frame_trans(l0, l1, l2, c0, c1, c2);
                    lemma_lower_frame_trans(l0, l2, *self, c0, c2, *st);
                }
            },
            _ => {},
        }
    }

    /// `a && b` and `a || b` evaluate `b` only when `a` does not decide.
    fn lower_short_circuit(
        &mut self,
        st: &mut FunctionLowerCtx,
        module: &Module,
        e: &SpannedExpr,
        depth: u32,
    ) -> (r: Register)
        requires
            old(self).wf(),
            old(st).wf(),
        ensures
            lower_frame(*old(self), *final(self), *old(st), *final(st)),
            e.node is Binary ==> {
                &&& r == Register(old(st).next_register)
                &&& final(st).current_instructions@.len() == 0
                &&& final(st).blocks@.len() > old(st).blocks@.len()
                &&& final(st).blocks@.last().instructions@ == seq![
                    Instruction::Const(r, ConstValue::Bool(!(e.node->Binary_op is And))),
                ]
                &&& final(st).blocks@.last().terminator == Terminator::Jump(final(st).current_block_id)
            },
        decreases depth, e, 2nat,
    {
        let ghost l0 = *self;
        let ghost c0 = *st;
        let (is_and, left, right) = match &e.node {
            Expr::Binary { op, left, right } => (matches!(op, BinOp::And), left, right),
            _ => {
                return self.emit_unit(st);
            },
        };
        let result = st.alloc_register();
        let ghost c1 = *st;
        let lhs = self.lower_expr(st, module, left, depth);
        let ghost l2 = *self;
        let ghost c2 = *st;
        let rhs_block = st.new_block_id();
        let merge_block = st.new_block_id();
        let short_block = st.new_block_id();
        if is_and {
            st.finish_block(Terminator::Branch(lhs, rhs_block, short_block));
        } else {
            st.finish_block(Terminator::Branch(lhs, short_block, rhs_block));
        }
        st.start_block(rhs_block);
        let ghost c3 = *st;
        let rhs = self.lower_expr(st, module, right, depth);
        let ghost l4 = *self;
        let ghost c4 = *st;
        st.push_inst(Instruction::Copy(result, rhs));
        st.finish_block(Terminator::Jump(merge_block));
        st.start_block(short_block);
        st.push_inst(Instruction::Const(result, ConstValue::Bool(!is_and)));
        st.finish_block(Terminator::Jump(merge_block));
        st.start_block(merge_block);
        proof {
            assert(lower_frame(l0, l0, c0, c1));
            lemma_lower_frame_trans(l0, l0, l2, c0, c1, c2);
            assert(lower_frame(l2, l2, c2, c3));
            lemma_lower_frame_trans(l0, l2, l2, c0, c2, c3);
            lemma_lower_frame_trans(l0, l2, l4, c0, c3, c4);
            assert(lower_frame(l4, l4, c4, *st));
            lemma_lower_frame_trans(l0, l4, l4, c0, c4, *st);
        }
        result
    }

    /// Lower a block in a scope of its own; the structs its locals hold are
    /// released at its end, except the one it evaluates to.
    pub fn lower_block_expr(
        &mut self,
        st: &mut FunctionLowerCtx,
        module: &Module,
        b: &Block,
        depth: u32,
    ) -> (r: Register)
        requires
            old(self).wf(),
            old(st).wf(),
        ensures
            lower_frame(*old(self), *final(self), *old(st), *final(st)),
            b.tail_expr is None ==> final(st).current_instructions@.contains(Instruction::ConstUnit(r)),
            b.tail_expr is Some ==> super::value_of(*b.tail_expr.unwrap(), r, *final(st)),
            super::tail_string(*b) is Some && final(self).string_constants@.len() <= u32::MAX ==> super::has_string(
                final(self).string_constants@,
                super::tail_string(*b).unwrap(),
            ),
            forall|j: int| 0 <= j < b.stmts@.len() ==> super::stmt_lowered(#[trigger] b.stmts@[j], *final(st)),
        decreases depth, b, 3nat,
    {
        let ghost l0 = *self;
        let ghost c0 = *st;
        st.locals.push_scope();
        st.local_types.push_scope();
        let ghost c1 = *st;
        let mut i: usize = 0;
        while i < b.stmts.len()
            invariant
                i <= b.stmts@.len(),
                lower_frame(l0, *self, c1, *st),
                c1.locals.depth() == c0.locals.depth() + 1,
                c1.local_types.depth() == c0.local_types.depth() + 1,
                c1.blocks == c0.blocks,
                forall|j: int| 0 <= j < i ==> super::stmt_lowered(#[trigger] b.stmts@[j], *st),
            decreases b.stmts@.len() - i,
        {
            let ghost l2 = *self;
            let ghost c2 = *st;
            self.lower_stmt(st, module, &b.stmts[i], depth);
            proof {
                lemma_lower_frame_trans(l0, l2, *self, c1, c2, *st);
                assert(super::flows(c2, *st));
                assert forall|j: int| 0 <= j < i + 1 implies super::stmt_lowered(#[trigger] b.stmts@[j], *st) by {
                    if j < i {
                        lemma_stmt_flows(b.stmts@[j], c2, *st);
                    }
                }
            }
            i = i + 1;
        }
        let ghost l3 = *self;
        let ghost c3 = *st;
        let result = match &b.tail_expr {
            Some(t) => self.lower_expr(st, module, t, depth),
            None => self.emit_unit(st),
        };
        proof {
            lemma_lower_frame_trans(l0, l3, *self, c1, c3, *st);
        }
        let ghost l4 = *self;
        let ghost c4 = *st;
        let ghost hv = (l3, c3, c4);
        let entries = st.local_types.current_scope_entries();
        let mut k: usize = 0;
        while k < entries.len()
            invariant
                k <= entries@.len(),
                st.wf(),
                st.blocks == c4.blocks,
                st.locals == c4.locals,
                st.local_types == c4.local_types,
                st.register_types == c4.register_types,
                st.next_register == c4.next_register,
                *self == l4,
                super::current_kept(c4, *st),
                b.tail_expr is None ==> st.current_instructions@.contains(Instruction::ConstUnit(result)),
            decreases entries@.len() - k,
        {
            let ghost before = st.current_instructions@;
            let reg = match st.locals.get(entries[k].0.as_str()) {
                Some(r) => Some(*r),
                None => None,
            };
            if let Some(r) = reg {
                if r != result {
                    st.emit_release_for_type(&self.typer.types, r, entries[k].1.ty);
                    proof {
                        if b.tail_expr is None {
                            let w = choose|w: int| 0 <= w < before.len() && before[w] == Instruction::ConstUnit(result);
                            assert(st.current_instructions@[w] == before[w]);
                        }
                    }
                }
            }
            k = k + 1;
        }
        st.local_types.pop_scope();
        st.locals.pop_scope();
        proof {
            assert(lower_frame(l4, *self, c4, c4));
            assert(st.locals.depth() == c0.locals.depth());
            assert(super::flows(c3, c4));
            assert(super::flows(c4, *st));
            lemma_flows_trans(c3, c4, *st);
            assert forall|j: int| 0 <= j < b.stmts@.len() implies super::stmt_lowered(#[trigger] b.stmts@[j], *st) by {
                lemma_stmt_flows(b.stmts@[j], c3, *st);
            }
            if b.tail_expr is Some {
                assert(super::lowered_into(*b.tail_expr.unwrap(), result, hv, *st));
            }
        }
        result
    }

    /// Lower `let name: ty = value` (or a `const`): the name is bound to
    /// the value's register (a struct gets a fresh register of its own),
    /// with the written type or else the value's.
    fn lower_let(
        &mut self,
        st: &mut FunctionLowerCtx,
        module: &Module,
        name: &Spanned<String>,
        ty: &Option<Spanned<TypeExpr>>,
        value: &SpannedExpr,
        is_mut: bool,
        depth: u32,
    )
        requires
            old(self).wf(),
            old(st).wf(),
        ensures
            lower_frame(*old(self), *final(self), *old(st), *final(st)),
            scope_get(final(st).locals.scopes().last(), name.node@) is Some,
            exists|h: (Lowerer, FunctionLowerCtx, FunctionLowerCtx, Register)|
                #[trigger] super::expr_lowered(*value, h) && super::flows(h.2, *final(st)),
        decreases depth, value, 4nat,
    {
        let ghost l0 = *self;
        let ghost c0 = *st;
        let annotated: Option<TypeId> = match ty {
            Some(te) => Some(self.typer.resolve_type(te)),
            None => None,
        };
        let ghost l1 = *self;
        let reg = self.lower_expr(st, module, value, depth);
        let ghost l2 = *self;
        let ghost c2 = *st;
        let ghost hv = (l1, c0, c2, reg);
        let local_type = match annotated {
            Some(t) => Some(t),
            None => {
                let t = self.infer_expr_type(st, value);
                if t == TypeId(ERROR_ID) {
                    None
                } else {
                    Some(t)
                }
            },
        };
        let ghost l3 = *self;
        let ghost c3 = *st;
        let reg = match local_type {
            Some(t) => {
                if self.typer.types.is_struct(t) {
                    let fresh = st.alloc_typed_register(t);
                    st.push_inst(Instruction::Copy(fresh, reg));
                    fresh
                } else {
                    reg
                }
            },
            None => reg,
        };
        st.locals.insert(name.node.clone(), reg);
        if let Some(t) = local_type {
            st.local_types.insert(
                name.node.clone(),
                LocalInfo { ty: t, is_mut: is_mut, def_span: name.span },
            );
        }
        proof {
            assert(lower_frame(l0, l1, c0, c0));
            lemma_lower_frame_trans(l0, l1, l2, c0, c0, c2);
            lemma_lower_frame_trans(l0, l2, l3, c0, c2, c3);
            assert(lower_frame(l3, *self, c3, *st));
            lemma_lower_frame_trans(l0, l3, *self, c0, c3, *st);
            lemma_lower_frame_trans(l2, l3, *self, c2, c3, *st);
            assert(super::flows(c2, *st));
            assert(super::expr_lowered(*value, hv));
        }
    }

    /// Lower a statement; a `let` binds its name to the value's register (a
    /// struct gets a fresh register of its own), a `let` with a pattern binds
    /// the pattern's names to the value or the fields it names.
    pub fn lower_stmt(&mut self, st: &mut FunctionLowerCtx, module: &Module, s: &SpannedStmt, depth: u32)
        requires
            old(self).wf(),
            old(st).wf(),
        ensures
            lower_frame(*old(self), *final(self), *old(st), *final(st)),
            match s.node {
                Stmt::Let { name, .. } => scope_get(final(st).locals.scopes().last(), name.node@) is Some,
                Stmt::Const { name, .. } => scope_get(final(st).locals.scopes().last(), name.node@) is Some,
                Stmt::Defer { .. } => final(st).current_instructions == old(st).current_instructions && final(st).blocks
                    == old(st).blocks && final(st).locals == old(st).locals && final(st).next_register == old(
                    st,
                ).next_register,
                _ => true,
            },
            super::stmt_lowered(*s, *final(st)),
        decreases depth, s, 3nat,
    {
        let ghost l0 = *self;
        st.current_span = s.span;
        let ghost c0b = *st;
        match &s.node {
            Stmt::Expr(e) => {
                let r = self.lower_expr(st, module, e, depth);
                proof {
                    let h = (l0, c0b, *st, r);
                    assert(lowered_value(h.0, *e, h.1, h.2, h.3));
                    assert(super::flows(*st, *st));
                    assert(super::stmt_expr(*s) == Some(*e));
                    assert(super::expr_lowered(super::stmt_expr(*s).unwrap(), h) && super::flows(h.2, *st));
                }
            },
            Stmt::LetPattern { pattern, value, .. } => {
                let reg = self.lower_expr(st, module, value, depth);
                let ghost l1 = *self;
                let ghost c1 = *st;
                let ghost hv = (l0, c0b, c1, reg);
                let t = self.infer_expr_type(st, value);
                let ghost l2 = *self;
                let ghost c2 = *st;
                self.lower_pattern_binding(st, pattern, reg, Some(t));
                proof {
                    lemma_lower_frame_trans(l0, l1, l2, c0b, c1, c2);
                    lemma_lower_frame_trans(l0, l2, *self, c0b, c2, *st);
                    lemma_lower_frame_trans(l1, l2, *self, c1, c2, *st);
                    assert(super::flows(c1, *st));
                    assert(lowered_value(hv.0, *value, hv.1, hv.2, hv.3));
                    assert(super::stmt_expr(*s) == Some(*value));
                    assert(super::expr_lowered(super::stmt_expr(*s).unwrap(), hv) && super::flows(c1, *st));
                }
            },
            Stmt::Let { name, ty, value, is_mut } => {
                self.lower_let(st, module, name, ty, value, *is_mut, depth);
                proof {
                    let h = choose|h: (Lowerer, FunctionLowerCtx, FunctionLowerCtx, Register)|
                        #[trigger] super::expr_lowered(*value, h) && super::flows(h.2, *st);
                    assert(super::stmt_expr(*s) == Some(*value));
                    assert(super::expr_lowered(super::stmt_expr(*s).unwrap(), h) && super::flows(h.2, *st));
                }
            },
            Stmt::Const { name, ty, value } => {
                self.lower_let(st, module, name, ty, value, false, depth);
                proof {
                    let h = choose|h: (Lowerer, FunctionLowerCtx, FunctionLowerCtx, Register)|
                        #[trigger] super::expr_lowered(*value, h) && super::flows(h.2, *st);
                    assert(super::stmt_expr(*s) == Some(*value));
                    assert(super::expr_lowered(super::stmt_expr(*s).unwrap(), h) && super::flows(h.2, *st));
                }
            },
            Stmt::Defer { .. } => {},
        }
    }

    /// `if`: the condition branches to the two arms, each arm copies its value
    /// into one result register and jumps to a merge block; a local the arms
    /// leave in different registers is copied into a fresh one in both.
    fn lower_if(&mut self, st: &mut FunctionLowerCtx, module: &Module, e: &SpannedExpr, depth: u32) -> (r: Register)
        requires
            old(self).wf(),
            old(st).wf(),
        ensures
            lower_frame(*old(self), *final(self), *old(st), *final(st)),
            e.node is If ==> {
                &&& final(st).current_instructions@.len() == 0
                &&& final(st).blocks@.len() >= old(st).blocks@.len() + 3
                &&& final(st).blocks@.last().terminator == Terminator::Jump(final(st).current_block_id)
            },
        decreases depth, e, 2nat,
    {
        let ghost l0 = *self;
        let ghost c0 = *st;
        let (condition, then_branch, else_branch) = match &e.node {
            Expr::If { condition, then_branch, else_branch } => (condition, then_branch, else_branch),
            _ => {
                return self.emit_unit(st);
            },
        };
        let cond_reg = self.lower_expr(st, module, condition, depth);
        let ghost l1 = *self;
        let ghost c1 = *st;
        let then_block = st.new_block_id();
        let else_block = st.new_block_id();
        let merge_block = st.new_block_id();
        let result = st.alloc_register();
        let pre = st.locals.flatten();
        st.finish_block(Terminator::Branch(cond_reg, then_block, else_block));
        st.start_block(then_block);
        let ghost c2 = *st;
        proof {
            assert(lower_frame(l1, l1, c1, c2));
            lemma_lower_frame_trans(l0, l1, l1, c0, c1, c2);
        }
        let then_result = self.lower_block_expr(st, module, &then_branch.node, depth);
        let ghost l3 = *self;
        let ghost c3 = *st;
        proof {
            lemma_lower_frame_trans(l0, l1, l3, c0, c2, c3);
        }
        st.push_inst(Instruction::Copy(result, then_result));
        st.finish_block(Terminator::Jump(merge_block));
        let ghost ct = *st;
        let then_idx = st.blocks.len() - 1;
        let post_then = st.locals.flatten();
        let mut k: usize = 0;
        while k < pre.len()
            invariant
                k <= pre@.len(),
                st.wf(),
                st.blocks == ct.blocks,
                ct.blocks@.len() == c3.blocks@.len() + 1,
                ct.blocks@.last().instructions@ == c3.current_instructions@.push(Instruction::Copy(result, then_result)),
                st.blocks@.len() == then_idx + 1,
                then_idx >= c0.blocks@.len() + 1,
                lower_frame(l0, l3, c0, c3),
                forall|i: int| 0 <= i < c3.blocks@.len() ==> #[trigger] st.blocks@[i] == c3.blocks@[i],
                st.locals.depth() == c0.locals.depth(),
                st.local_types == c3.local_types,
                st.register_types == c3.register_types,
                st.next_register == c3.next_register,
                *self == l3,
            decreases pre@.len() - k,
        {
            st.locals.update(pre[k].0.as_str(), pre[k].1);
            k = k + 1;
        }
        st.start_block(else_block);
        let ghost c4 = *st;
        proof {
            assert(c4.blocks@[c3.blocks@.len() as int] == ct.blocks@.last());
            assert(current_moved(c3, c4));
            assert(lower_frame(l3, l3, c3, c4));
            lemma_lower_frame_trans(l0, l3, l3, c0, c3, c4);
        }
        match else_branch {
            Some(eb) => {
                let r = self.lower_expr(st, module, eb, depth);
                st.push_inst(Instruction::Copy(result, r));
            },
            None => {
                st.push_inst(Instruction::ConstUnit(result));
            },
        }
        let ghost l5 = *self;
        let ghost c5 = *st;
        proof {
            lemma_lower_frame_trans(l0, l3, l5, c0, c4, c5);
        }
        st.finish_block(Terminator::Jump(merge_block));
        let else_idx = st.blocks.len() - 1;
        let post_else = st.locals.flatten();
        let mut k: usize = 0;
        while k < pre.len()
            invariant
                k <= pre@.len(),
                st.wf(),
                then_idx < else_idx,
                else_idx < st.blocks@.len(),
                then_idx >= c0.blocks@.len() + 1,
                st.blocks@.len() == else_idx + 1,
                st.blocks@[else_idx as int].terminator == Terminator::Jump(merge_block),
                lower_frame(l0, l5, c0, c5),
                c5.blocks@.len() <= st.blocks@.len(),
                c0.blocks@.len() < c5.blocks@.len(),
                st.blocks@[c0.blocks@.len() as int] == c5.blocks@[c0.blocks@.len() as int],
                forall|i: int| 0 <= i < c0.blocks@.len() ==> #[trigger] st.blocks@[i] == c0.blocks@[i],
                st.locals.depth() == c0.locals.depth(),
                st.local_types == c5.local_types,
                c5.register_types@.len() <= st.register_types@.len(),
                super::regs_counted(c5) && st.register_types@.len() <= u32::MAX ==> super::regs_counted(*st),
                *self == l5,
            decreases pre@.len() - k,
        {
            let name = &pre[k].0;
            let pre_reg = pre[k].1;
            let then_reg = match find_binding(&post_then, name) {
                Some(j) => post_then[j].1,
                None => pre_reg,
            };
            let else_reg = match find_binding(&post_else, name) {
                Some(j) => post_else[j].1,
                None => pre_reg,
            };
            if then_reg != else_reg {
                let merge_reg = st.alloc_register();
                let span = st.current_span;
                self.append_to_block(st, then_idx, Instruction::Copy(merge_reg, then_reg), span);
                self.append_to_block(st, else_idx, Instruction::Copy(merge_reg, else_reg), span);
                st.locals.update(name.as_str(), merge_reg);
            } else if then_reg != pre_reg {
                st.locals.update(name.as_str(), then_reg);
            }
            k = k + 1;
        }
        st.start_block(merge_block);
        proof {
            assert(current_moved(c0, c5));
            assert(current_moved(c0, *st));
        }
        result
    }

    /// Append an instruction to a finished block.
    fn append_to_block(&self, st: &mut FunctionLowerCtx, idx: usize, inst: Instruction, span: Span)
        requires
            old(st).wf(),
            idx < old(st).blocks@.len(),
        ensures
            final(st).wf(),
            final(st).blocks@[idx as int].id == old(st).blocks@[idx as int].id,
            final(st).blocks@[idx as int].terminator == old(st).blocks@[idx as int].terminator,
            final(st).blocks@[idx as int].instructions@ == old(st).blocks@[idx as int].instructions@.push(inst),
            final(st).blocks@[idx as int].spans@ == old(st).blocks@[idx as int].spans@.push(span),
            final(st).current_block_id == old(st).current_block_id,
            final(st).blocks@.len() == old(st).blocks@.len(),
            forall|i: int|
                0 <= i < old(st).blocks@.len() && i != idx ==> #[trigger] final(st).blocks@[i] == old(st).blocks@[i],
            final(st).locals == old(st).locals,
            final(st).local_types == old(st).local_types,
            final(st).next_register == old(st).next_register,
            final(st).register_types == old(st).register_types,
            final(st).current_instructions == old(st).current_instructions,
            final(st).current_spans == old(st).current_spans,
    {
        let mut b = BasicBlock {
            id: BlockId(0),
            instructions: Vec::new(),
            spans: Vec::new(),
            terminator: Terminator::Unreachable,
        };
        st.blocks.set_and_swap(idx, &mut b);
        b.instructions.push(inst);
        b.spans.push(span);
        st.blocks.set(idx, b);
    }

    /// `while`: a condition block branches to the body or the exit; the body
    /// copies the locals it changed back into the registers the condition
    /// reads, and jumps back.
    fn lower_while(&mut self, st: &mut FunctionLowerCtx, module: &Module, e: &SpannedExpr, depth: u32) -> (r: Register)
        requires
            old(self).wf(),
            old(st).wf(),
        ensures
            lower_frame(*old(self), *final(self), *old(st), *final(st)),
            unit_value(*final(st), r),
            e.node is While ==> final(st).blocks@.len() >= old(st).blocks@.len() + 3 && final(st).blocks@.last().terminator
                == Terminator::Jump(BlockId(old(st).next_block_id)),
        decreases depth, e, 2nat,
    {
        let ghost l0 = *self;
        let ghost c0 = *st;
        let (condition, body, label) = match &e.node {
            Expr::While { condition, body, label } => (condition, body, label),
            _ => {
                return self.emit_unit(st);
            },
        };
        let cond_block = st.new_block_id();
        let body_block = st.new_block_id();
        let exit_block = st.new_block_id();
        st.finish_block(Terminator::Jump(cond_block));
        st.start_block(cond_block);
        let pre = st.locals.flatten();
        let ghost c1 = *st;
        let cond_reg = self.lower_expr(st, module, condition, depth);
        let ghost l2 = *self;
        let ghost c2 = *st;
        st.finish_block(Terminator::Branch(cond_reg, body_block, exit_block));
        st.start_block(body_block);
        let label_copy = match label {
            Some(l) => Some(l.clone()),
            None => None,
        };
        st.loop_stack.push(
            LoopContext {
                label: label_copy,
                continue_block: cond_block,
                break_block: exit_block,
                pre_loop_locals: super::control_flow::copy_bindings(&pre),
            },
        );
        let ghost c3 = *st;
        self.lower_block_expr(st, module, &body.node, depth);
        let ghost l4 = *self;
        let ghost c4 = *st;
        proof {
            assert(lower_frame(l0, l0, c0, c1));
            lemma_lower_frame_trans(l0, l0, l2, c0, c1, c2);
            assert(lower_frame(l2, l2, c2, c3));
            lemma_lower_frame_trans(l0, l2, l2, c0, c2, c3);
            lemma_lower_frame_trans(l0, l2, l4, c0, c3, c4);
        }
        st.loop_stack.pop();
        st.emit_loop_copyback(&pre);
        st.finish_block(Terminator::Jump(cond_block));
        st.start_block(exit_block);
        st.restore_locals(&pre);
        self.emit_unit(st)
    }
}

} // verus!
