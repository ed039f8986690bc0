use vstd::prelude::*;

use super::expr::lemma_lower_frame_trans;
use super::{lower_frame, FunctionLowerCtx, Lowerer};
use crate::ast::{Block, CallArg, Expr, Literal, MatchArm, Module, SpannedExpr, SpannedStmt, Stmt};
use crate::ir::{Instruction, Register};

verus! {

/// Whether no `defer` statement occurs in `e`.
pub open spec fn no_defer(e: SpannedExpr) -> bool
    decreases e, 0nat,
{
    match e.node {
        Expr::Literal(l) => match l {
            Literal::TemplateString { exprs, .. } => forall|i: int|
                0 <= i < exprs@.len() ==> no_defer(#[trigger] exprs@[i]),
            _ => true,
        },
        Expr::Ident(_) => true,
        Expr::Continue { .. } => true,
        Expr::Call { callee, args } => no_defer(*callee) && forall|i: int|
            0 <= i < args@.len() ==> no_defer(#[trigger] args@[i].value),
        Expr::MethodCall { object, args, .. } => no_defer(*object) && forall|i: int|
            0 <= i < args@.len() ==> no_defer(#[trigger] args@[i].value),
        Expr::StaticCall { args, .. } => forall|i: int| 0 <= i < args@.len() ==> no_defer(#[trigger] args@[i].value),
        Expr::Block(b) => no_defer_block(b),
        Expr::Return(v) => match v {
            Some(x) => no_defer(*x),
            None => true,
        },
        Expr::Break { value, .. } => match value {
            Some(x) => no_defer(*x),
            None => true,
        },
        Expr::Binary { left, right, .. } => no_defer(*left) && no_defer(*right),
        Expr::Assign { target, value } => no_defer(*target) && no_defer(*value),
        Expr::CompoundAssign { target, value, .. } => no_defer(*target) && no_defer(*value),
        Expr::Range { start, end, .. } => no_defer(*start) && no_defer(*end),
        Expr::IndexAccess { object, index } => no_defer(*object) && no_defer(*index),
        Expr::Unary { operand, .. } => no_defer(*operand),
        Expr::Cast { expr, .. } => no_defer(*expr),
        Expr::QuestionMark(inner) => no_defer(*inner),
        Expr::Grouped(inner) => no_defer(*inner),
        Expr::FieldAccess { object, .. } => no_defer(*object),
        Expr::If { condition, then_branch, else_branch } => no_defer(*condition) && no_defer_block(then_branch.node)
            && match else_branch {
            Some(x) => no_defer(*x),
            None => true,
        },
        Expr::IfLet { scrutinee, then_branch, else_branch, .. } => no_defer(*scrutinee) && no_defer_block(
            then_branch.node,
        ) && match else_branch {
            Some(x) => no_defer(*x),
            None => true,
        },
        Expr::While { condition, body, .. } => no_defer(*condition) && no_defer_block(body.node),
        Expr::Loop { body, .. } => no_defer_block(body.node),
        Expr::For { iter, body, .. } => no_defer(*iter) && no_defer_block(body.node),
        Expr::StructLiteral { fields, .. } => forall|i: int|
            0 <= i < fields@.len() ==> no_defer(#[trigger] fields@[i].1),
        Expr::EnumLiteral { args, .. } => forall|i: int| 0 <= i < args@.len() ==> no_defer(#[trigger] args@[i]),
        Expr::Match { scrutinee, arms } => no_defer(*scrutinee) && forall|i: int|
            0 <= i < arms@.len() ==> no_defer(#[trigger] arms@[i].body) && match arms@[i].guard {
                Some(g) => no_defer(*g),
                None => true,
            },
    }
}

/// Whether no `defer` statement occurs in the block `b`.
pub open spec fn no_defer_block(b: Block) -> bool
    decreases b, 0nat,
{
    &&& forall|i: int| 0 <= i < b.stmts@.len() ==> no_defer_stmt(#[trigger] b.stmts@[i])
    &&& match b.tail_expr {
        Some(t) => no_defer(*t),
        None => true,
    }
}

/// Whether the statement `s` is no `defer` and holds none.
pub open spec fn no_defer_stmt(s: SpannedStmt) -> bool
    decreases s, 0nat,
{
    match s.node {
        Stmt::Expr(e) => no_defer(e),
        Stmt::Let { value, .. } => no_defer(value),
        Stmt::Const { value, .. } => no_defer(value),
        Stmt::LetPattern { value, .. } => no_defer(value),
        Stmt::Defer { .. } => false,
    }
}

// A `defer` block runs when the function returns: the lowerer emits the
// bodies of all `defer` statements of a function after its body, the last
// one written first. The functions below walk a body from its end to its
// start and lower each deferred block as they meet it; a `defer` inside a
// deferred block is not run.
impl Lowerer {
    /// Lower the deferred blocks in a block, the last one first.
    pub fn lower_block_defers(&mut self, st: &mut FunctionLowerCtx, module: &Module, b: &Block, depth: u32)
        requires
            old(self).wf(),
            old(st).wf(),
        ensures
            lower_frame(*old(self), *final(self), *old(st), *final(st)),
            no_defer_block(*b) ==> *final(self) == *old(self) && *final(st) == *old(st),
        decreases b, 2nat,
    {
        let ghost l0 = *self;
        let ghost c0 = *st;
        if let Some(t) = &b.tail_expr {
            self.lower_expr_defers(st, module, t, depth);
        }
        let mut i: usize = b.stmts.len();
        while i > 0
            invariant
                i <= b.stmts@.len(),
                lower_frame(l0, *self, c0, *st),
                no_defer_block(*b) ==> *self == l0 && *st == c0,
            decreases i,
        {
            i = i - 1;
            let ghost l1 = *self;
            let ghost c1 = *st;
            self.lower_stmt_defers(st, module, &b.stmts[i], depth);
            proof {
                lemma_lower_frame_trans(l0, l1, *self, c0, c1, *st);
            }
        }
    }

    /// Lower the deferred blocks a statement holds, the last one first; a
    /// `defer` statement's own block is lowered here.
    pub fn lower_stmt_defers(&mut self, st: &mut FunctionLowerCtx, module: &Module, s: &SpannedStmt, depth: u32)
        requires
            old(self).wf(),
            old(st).wf(),
        ensures
            lower_frame(*old(self), *final(self), *old(st), *final(st)),
            s.node is Defer && s.node->Defer_body.node.tail_expr is None ==> exists|r: Register|
                #[trigger] final(st).current_instructions@.contains(Instruction::ConstUnit(r)),
            no_defer_stmt(*s) ==> *final(self) == *old(self) && *final(st) == *old(st),
        decreases s, 1nat,
    {
        match &s.node {
            Stmt::Expr(e) => self.lower_expr_defers(st, module, e, depth),
            Stmt::Let { value, .. } => self.lower_expr_defers(st, module, value, depth),
            Stmt::Const { value, .. } => self.lower_expr_defers(st, module, value, depth),
            Stmt::LetPattern { value, .. } => self.lower_expr_defers(st, module, value, depth),
            Stmt::Defer { body } => {
                let r = self.lower_block_expr(st, module, &body.node, depth);
                proof {
                    if body.node.tail_expr is None {
                        assert(st.current_instructions@.contains(Instruction::ConstUnit(r)));
                    }
                }
            },
        }
    }

    /// Lower the deferred blocks in a list of expressions, the last one first.
    fn lower_exprs_defers(&mut self, st: &mut FunctionLowerCtx, module: &Module, es: &Vec<SpannedExpr>, depth: u32)
        requires
            old(self).wf(),
            old(st).wf(),
        ensures
            lower_frame(*old(self), *final(self), *old(st), *final(st)),
            (forall|i: int| 0 <= i < es@.len() ==> no_defer(#[trigger] es@[i])) ==> *final(self) == *old(self) && *final(st) == *old(st),
        decreases es, 0nat,
    {
        let ghost l0 = *self;
        let ghost c0 = *st;
        let mut i: usize = es.len();
        while i > 0
            invariant
                i <= es@.len(),
                lower_frame(l0, *self, c0, *st),
                (forall|i: int| 0 <= i < es@.len() ==> no_defer(#[trigger] es@[i])) ==> *self == l0 && *st == c0,
            decreases i,
        {
            i = i - 1;
            let ghost l1 = *self;
            let ghost c1 = *st;
            self.lower_expr_defers(st, module, &es[i], depth);
            proof {
                lemma_lower_frame_trans(l0, l1, *self, c0, c1, *st);
            }
        }
    }

    /// Lower the deferred blocks in the arguments of a call, the last one
    /// first.
    fn lower_args_defers(&mut self, st: &mut FunctionLowerCtx, module: &Module, args: &Vec<CallArg>, depth: u32)
        requires
            old(self).wf(),
            old(st).wf(),
        ensures
            lower_frame(*old(self), *final(self), *old(st), *final(st)),
            (forall|i: int| 0 <= i < args@.len() ==> no_defer(#[trigger] args@[i].value)) ==> *final(self) == *old(self) && *final(st) == *old(st),
        decreases args, 0nat,
    {
        let ghost l0 = *self;
        let ghost c0 = *st;
        let mut i: usize = args.len();
        while i > 0
            invariant
                i <= args@.len(),
                lower_frame(l0, *self, c0, *st),
                (forall|i: int| 0 <= i < args@.len() ==> no_defer(#[trigger] args@[i].value)) ==> *self == l0 && *st == c0,
            decreases i,
        {
            i = i - 1;
            let ghost l1 = *self;
            let ghost c1 = *st;
            self.lower_expr_defers(st, module, &args[i].value, depth);
            proof {
                lemma_lower_frame_trans(l0, l1, *self, c0, c1, *st);
            }
        }
    }

    /// Lower the deferred blocks in the field values of a struct literal,
    /// the last one first.
    fn lower_fields_defers(
        &mut self,
        st: &mut FunctionLowerCtx,
        module: &Module,
        fields: &Vec<(String, SpannedExpr)>,
        depth: u32,
    )
        requires
            old(self).wf(),
            old(st).wf(),
        ensures
            lower_frame(*old(self), *final(self), *old(st), *final(st)),
            (forall|i: int| 0 <= i < fields@.len() ==> no_defer(#[trigger] fields@[i].1)) ==> *final(self) == *old(self) && *final(st) == *old(st),
        decreases fields, 0nat,
    {
        let ghost l0 = *self;
        let ghost c0 = *st;
        let mut i: usize = fields.len();
        while i > 0
            invariant
                i <= fields@.len(),
                lower_frame(l0, *self, c0, *st),
                (forall|i: int| 0 <= i < fields@.len() ==> no_defer(#[trigger] fields@[i].1)) ==> *self == l0 && *st == c0,
            decreases i,
        {
            i = i - 1;
            let ghost l1 = *self;
            let ghost c1 = *st;
            self.lower_expr_defers(st, module, &fields[i].1, depth);
            proof {
                lemma_lower_frame_trans(l0, l1, *self, c0, c1, *st);
            }
        }
    }

    /// Lower the deferred blocks in the arms of a `match`, the last one
    /// first (in an arm: its body, then its guard).
    fn lower_arms_defers(&mut self, st: &mut FunctionLowerCtx, module: &Module, arms: &Vec<MatchArm>, depth: u32)
        requires
            old(self).wf(),
            old(st).wf(),
        ensures
            lower_frame(*old(self), *final(self), *old(st), *final(st)),
            (forall|i: int|
                0 <= i < arms@.len() ==> no_defer(#[trigger] arms@[i].body) && match arms@[i].guard {
                    Some(g) => no_defer(*g),
                    None => true,
                }) ==> *final(self) == *old(self) && *final(st) == *old(st),
        decreases arms, 0nat,
    {
        let ghost l0 = *self;
        let ghost c0 = *st;
        let mut i: usize = arms.len();
        while i > 0
            invariant
                i <= arms@.len(),
                lower_frame(l0, *self, c0, *st),
                (forall|i: int|
                    0 <= i < arms@.len() ==> no_defer(#[trigger] arms@[i].body) && match arms@[i].guard {
                        Some(g) => no_defer(*g),
                        None => true,
                    }) ==> *self == l0 && *st == c0,
            decreases i,
        {
            i = i - 1;
            let ghost l1 = *self;
            let ghost c1 = *st;
            self.lower_expr_defers(st, module, &arms[i].body, depth);
            let ghost l2 = *self;
            let ghost c2 = *st;
            if let Some(g) = &arms[i].guard {
                self.lower_expr_defers(st, module, g, depth);
            }
            proof {
                lemma_lower_frame_trans(l1, l2, *self, c1, c2, *st);
                lemma_lower_frame_trans(l0, l1, *self, c0, c1, *st);
            }
        }
    }

    /// Lower the deferred blocks in an optional expression.
    fn lower_opt_defers(
        &mut self,
        st: &mut FunctionLowerCtx,
        module: &Module,
        e: &Option<Box<SpannedExpr>>,
        depth: u32,
    )
        requires
            old(self).wf(),
            old(st).wf(),
        ensures
            lower_frame(*old(self), *final(self), *old(st), *final(st)),
            match *e {
                Some(x) => no_defer(*x),
                None => true,
            } ==> *final(self) == *old(self) && *final(st) == *old(st),
        decreases e, 0nat,
    {
        if let Some(x) = e {
            self.lower_expr_defers(st, module, x, depth);
        }
    }

    /// Lower the deferred blocks in an expression, the last one first.
    pub fn lower_expr_defers(&mut self, st: &mut FunctionLowerCtx, module: &Module, e: &SpannedExpr, depth: u32)
        requires
            old(self).wf(),
            old(st).wf(),
        ensures
            lower_frame(*old(self), *final(self), *old(st), *final(st)),
            no_defer(*e) ==> *final(self) == *old(self) && *final(st) == *old(st),
        decreases e, 1nat,
    {
        let ghost l0 = *self;
        let ghost c0 = *st;
        match &e.node {
            Expr::Literal(Literal::TemplateString { exprs, .. }) => {
                self.lower_exprs_defers(st, module, exprs, depth);
            },
            Expr::Literal(_) | Expr::Ident(_) | Expr::Continue { .. } => {},
            Expr::Call { callee, args } => {
                self.lower_args_defers(st, module, args, depth);
                let ghost l1 = *self;
                let ghost c1 = *st;
                self.lower_expr_defers(st, module, callee, depth);
                proof {
                    lemma_lower_frame_trans(l0, l1, *self, c0, c1, *st);
                }
            },
            Expr::MethodCall { object, args, .. } => {
                self.lower_args_defers(st, module, args, depth);
                let ghost l1 = *self;
                let ghost c1 = *st;
                self.lower_expr_defers(st, module, object, depth);
                proof {
                    lemma_lower_frame_trans(l0, l1, *self, c0, c1, *st);
                }
            },
            Expr::StaticCall { args, .. } => {
                self.lower_args_defers(st, module, args, depth);
            },
            Expr::Block(b) => {
                self.lower_block_defers(st, module, b, depth);
            },
            Expr::Return(v) => {
                self.lower_opt_defers(st, module, v, depth);
            },
            Expr::Break { value, .. } => {
                self.lower_opt_defers(st, module, value, depth);
            },
            Expr::Binary { left, right, .. } => {
                self.lower_expr_defers(st, module, right, depth);
                let ghost l1 = *self;
                let ghost c1 = *st;
                self.lower_expr_defers(st, module, left, depth);
                proof {
                    lemma_lower_frame_trans(l0, l1, *self, c0, c1, *st);
                }
            },
            Expr::Assign { target, value } => {
                self.lower_expr_defers(st, module, value, depth);
                let ghost l1 = *self;
                let ghost c1 = *st;
                self.lower_expr_defers(st, module, target, depth);
                proof {
                    lemma_lower_frame_trans(l0, l1, *self, c0, c1, *st);
                }
            },
            Expr::CompoundAssign { target, value, .. } => {
                self.lower_expr_defers(st, module, value, depth);
                let ghost l1 = *self;
                let ghost c1 = *st;
                self.lower_expr_defers(st, module, target, depth);
                proof {
                    lemma_lower_frame_trans(l0, l1, *self, c0, c1, *st);
                }
            },
            Expr::Range { start, end, .. } => {
                self.lower_expr_defers(st, module, end, depth);
                let ghost l1 = *self;
                let ghost c1 = *st;
                self.lower_expr_defers(st, module, start, depth);
                proof {
                    lemma_lower_frame_trans(l0, l1, *self, c0, c1, *st);
                }
            },
            Expr::IndexAccess { object, index } => {
                self.lower_expr_defers(st, module, index, depth);
                let ghost l1 = *self;
                let ghost c1 = *st;
                self.lower_expr_defers(st, module, object, depth);
                proof {
                    lemma_lower_frame_trans(l0, l1, *self, c0, c1, *st);
                }
            },
            Expr::Unary { operand, .. } => {
                self.lower_expr_defers(st, module, operand, depth);
            },
            Expr::Cast { expr, .. } => {
                self.lower_expr_defers(st, module, expr, depth);
            },
            Expr::QuestionMark(inner) => {
                self.lower_expr_defers(st, module, inner, depth);
            },
            Expr::Grouped(inner) => {
                self.lower_expr_defers(st, module, inner, depth);
            },
            Expr::FieldAccess { object, .. } => {
                self.lower_expr_defers(st, module, object, depth);
            },
            Expr::If { condition, then_branch, else_branch } => {
                self.lower_opt_defers(st, module, else_branch, depth);
                let ghost l1 = *self;
                let ghost c1 = *st;
                self.lower_block_defers(st, module, &then_branch.node, depth);
                let ghost l2 = *self;
                let ghost c2 = *st;
                self.lower_expr_defers(st, module, condition, depth);
                proof {
                    lemma_lower_frame_trans(l1, l2, *self, c1, c2, *st);
                    lemma_lower_frame_trans(l0, l1, *self, c0, c1, *st);
                }
            },
            Expr::IfLet { scrutinee, then_branch, else_branch, .. } => {
                self.lower_opt_defers(st, module, else_branch, depth);
                let ghost l1 = *self;
                let ghost c1 = *st;
                self.lower_block_defers(st, module, &then_branch.node, depth);
                let ghost l2 = *self;
                let ghost c2 = *st;
                self.lower_expr_defers(st, module, scrutinee, depth);
                proof {
                    lemma_lower_frame_trans(l1, l2, *self, c1, c2, *st);
                    lemma_lower_frame_trans(l0, l1, *self, c0, c1, *st);
                }
            },
            Expr::While { condition, body, .. } => {
                self.lower_block_defers(st, module, &body.node, depth);
                let ghost l1 = *self;
                let ghost c1 = *st;
                self.lower_expr_defers(st, module, condition, depth);
                proof {
                    lemma_lower_frame_trans(l0, l1, *self, c0, c1, *st);
                }
            },
            Expr::Loop { body, .. } => {
                self.lower_block_defers(st, module, &body.node, depth);
            },
            Expr::For { iter, body, .. } => {
                self.lower_block_defers(st, module, &body.node, depth);
                let ghost l1 = *self;
                let ghost c1 = *st;
                self.lower_expr_defers(st, module, iter, depth);
                proof {
                    lemma_lower_frame_trans(l0, l1, *self, c0, c1, *st);
                }
            },
            Expr::StructLiteral { fields, .. } => {
                self.lower_fields_defers(st, module, fields, depth);
            },
            Expr::EnumLiteral { args, .. } => {
                self.lower_exprs_defers(st, module, args, depth);
            },
            Expr::Match { scrutinee, arms } => {
                self.lower_arms_defers(st, module, arms, depth);
                let ghost l1 = *self;
                let ghost c1 = *st;
                self.lower_expr_defers(st, module, scrutinee, depth);
                proof {
                    lemma_lower_frame_trans(l0, l1, *self, c0, c1, *st);
                }
            },
        }
    }
}

} // verus!
