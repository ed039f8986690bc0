use vstd::prelude::*;

use super::expr::lemma_lower_frame_trans;
use super::{lower_frame, next_id, unit_value, FunctionLowerCtx, LoopContext, Lowerer};
use crate::checker::typing::{ctx_of, written_ty};
use crate::ast::{BinOp, Expr, Module, SpannedExpr};
use crate::checker::str_is;
use crate::checker::typing::{lemma_variant_named, variant_named};
use crate::ir::{BlockId, ConstValue, Instruction, Register, Terminator};
use crate::scoped_locals::{scope_get, ScopedLocals};
use crate::types::{variant_index, variants_view, EnumVariant, KindView, TypeId, TypeKind};

verus! {

/// The tag of the first variant named `name`, or `default` when there is
/// none.
pub open spec fn tag_or(vs: Seq<(Seq<char>, Seq<(Seq<char>, TypeId)>)>, name: Seq<char>, default: usize) -> usize
    decreases vs.len(),
{
    if vs.len() == 0 {
        default
    } else if vs[0].0 == name {
        0
    } else {
        let rest = tag_or(vs.drop_first(), name, default);
        if rest == default && variant_named(vs.drop_first(), name) is None {
            default
        } else {
            (rest + 1) as usize
        }
    }
}

/// The position of the first variant named `name`, or `default` when no
/// variant has that name.
pub fn variant_tag_or(vs: &Vec<EnumVariant>, name: &str, default: usize) -> (r: usize)
    ensures
        r == tag_or(variants_view(vs@), name@, default),
{
    let n = String::from_str(name);
    let found = variant_index(vs, &n);
    proof {
        lemma_tag_or(vs@, name@, default, found);
    }
    match found {
        Some(i) => i,
        None => default,
    }
}

/// What `tag_or` gives, from where a left-to-right search finds the name.
pub(crate) proof fn lemma_tag_or(vs: Seq<EnumVariant>, name: Seq<char>, default: usize, r: Option<usize>)
    requires
        match r {
            Some(i) => i < vs.len() && vs[i as int].name@ == name && forall|j: int|
                0 <= j < i ==> vs[j].name@ != name,
            None => forall|j: int| 0 <= j < vs.len() ==> vs[j].name@ != name,
        },
    ensures
        tag_or(variants_view(vs), name, default) == match r {
            Some(i) => i,
            None => default,
        },
    decreases vs.len(),
{
    lemma_variant_named(vs, name, r);
    if vs.len() > 0 {
        let rest = vs.drop_first();
        assert(variants_view(rest) =~= variants_view(vs).drop_first());
        match r {
            Some(i) => {
                if i > 0 {
                    assert forall|j: int| 0 <= j < i - 1 implies rest[j].name@ != name by {
                        assert(rest[j] == vs[j + 1]);
                    }
                    lemma_tag_or(rest, name, default, Some((i - 1) as usize));
                    lemma_variant_named(rest, name, Some((i - 1) as usize));
                }
            },
            None => {
                assert forall|j: int| 0 <= j < rest.len() implies rest[j].name@ != name by {
                    assert(rest[j] == vs[j + 1]);
                }
                lemma_tag_or(rest, name, default, None);
                lemma_variant_named(rest, name, None);
            },
        }
    }
}

/// Each local visible in `l0` that `pre` names is bound in `l1` to the
/// register `pre` gives it (its last entry for the name); every other
/// local is bound as in `l0`.
pub open spec fn restored(l0: ScopedLocals<Register>, l1: ScopedLocals<Register>, pre: Seq<(String, Register)>) -> bool {
    forall|n: Seq<char>|
        #[trigger] l1.binding(n) == (if l0.binding(n) is Some && scope_get(pre, n) is Some {
            scope_get(pre, n)
        } else {
            l0.binding(n)
        })
}

/// The register a local `n` is bound to once the entries `pre` have been
/// restored over the locals `l0`.
pub open spec fn restored_binding(l0: ScopedLocals<Register>, pre: Seq<(String, Register)>, n: Seq<char>) -> Option<
    Register,
> {
    if l0.binding(n) is Some && scope_get(pre, n) is Some {
        scope_get(pre, n)
    } else {
        l0.binding(n)
    }
}

/// The copies that restore the entries `pre` over the locals `l0`, in
/// order: for each entry whose local is bound, at that point, to another
/// register, a copy of that register into the entry's.
pub open spec fn copyback_insts(l0: ScopedLocals<Register>, pre: Seq<(String, Register)>) -> Seq<Instruction>
    decreases pre.len(),
{
    if pre.len() == 0 {
        Seq::empty()
    } else {
        let k = pre.len() - 1;
        let prev = copyback_insts(l0, pre.drop_last());
        match restored_binding(l0, pre.drop_last(), pre[k].0@) {
            Some(cur) => if cur != pre[k].1 {
                prev.push(Instruction::Copy(pre[k].1, cur))
            } else {
                prev
            },
            None => prev,
        }
    }
}

/// Restoring one more entry of `pre`, with `update`, restores the longer
/// prefix.
proof fn lemma_restored_step(
    l0: ScopedLocals<Register>,
    a: ScopedLocals<Register>,
    b: ScopedLocals<Register>,
    pre: Seq<(String, Register)>,
    k: int,
)
    requires
        0 <= k < pre.len(),
        restored(l0, a, pre.take(k)),
        forall|n: Seq<char>| n != pre[k].0@ ==> #[trigger] b.binding(n) == a.binding(n),
        a.binding(pre[k].0@) is Some ==> b.binding(pre[k].0@) == Some(pre[k].1),
        a.binding(pre[k].0@) is None ==> b.binding(pre[k].0@) is None,
    ensures
        restored(l0, b, pre.take(k + 1)),
{
    let t = pre.take(k + 1);
    assert(t.drop_last() =~= pre.take(k));
    assert(t.last() == pre[k]);
    assert forall|n: Seq<char>| #[trigger] b.binding(n) == (if l0.binding(n) is Some && scope_get(t, n) is Some {
        scope_get(t, n)
    } else {
        l0.binding(n)
    }) by {
        assert(a.binding(n) == (if l0.binding(n) is Some && scope_get(pre.take(k), n) is Some {
            scope_get(pre.take(k), n)
        } else {
            l0.binding(n)
        }));
    }
}

/// Whether `i` is the instruction `target op= value` computes with: the
/// arithmetic or bitwise instruction of `op`; nothing (`Nop`) for the
/// comparison and logical operators, which have no compound form.
pub open spec fn compound_inst(op: BinOp, i: Instruction) -> bool {
    match op {
        BinOp::Add => i is Add,
        BinOp::Sub => i is Sub,
        BinOp::Mul => i is Mul,
        BinOp::Div => i is Div,
        BinOp::Mod => i is Mod,
        BinOp::Shl => i is Shl,
        BinOp::Shr => i is Shr,
        BinOp::BitAnd => i is BitAnd,
        BinOp::BitOr => i is BitOr,
        BinOp::BitXor => i is BitXor,
        _ => i is Nop,
    }
}

/// The last instruction of the current block casts a value into `r`, as
/// type `t`; `r` is the register allocated last.
pub open spec fn cast_into(c: FunctionLowerCtx, r: Register, t: TypeId) -> bool {
    &&& c.current_instructions@.len() > 0
    &&& c.current_instructions@.last() matches Instruction::Cast(d, _, u) && d == r && u == t
    &&& c.next_register == next_id(r.0)
}

/// The last instruction of the current block copies a value into `r`.
pub open spec fn copy_into(c: FunctionLowerCtx, r: Register) -> bool {
    &&& c.current_instructions@.len() > 0
    &&& c.current_instructions@.last() matches Instruction::Copy(d, _) && d == r
}

/// A copy of a list of bindings.
pub(crate) fn copy_bindings(v: &Vec<(String, Register)>) -> (r: Vec<(String, Register)>)
    ensures
        r@.len() == v@.len(),
        forall|i: int| 0 <= i < v@.len() ==> (#[trigger] r@[i]).0@ == v@[i].0@ && r@[i].1 == v@[i].1,
{
    let mut r: Vec<(String, Register)> = Vec::new();
    let mut i: usize = 0;
    while i < v.len()
        invariant
            i <= v@.len(),
            r@.len() == i,
            forall|j: int| 0 <= j < i ==> (#[trigger] r@[j]).0@ == v@[j].0@ && r@[j].1 == v@[j].1,
        decreases v@.len() - i,
    {
        r.push((v[i].0.clone(), v[i].1));
        i = i + 1;
    }
    r
}

/// Whether a loop labelled `ctx_label` is one a jump with `label` can
/// leave: any loop for no label, else a loop with that label.
pub open spec fn label_match(ctx_label: Option<String>, label: Option<String>) -> bool {
    match label {
        None => true,
        Some(l) => match ctx_label {
            Some(c) => c@ == l@,
            None => false,
        },
    }
}

/// The position of the innermost loop (the last in the stack) a jump with
/// `label` leaves, if any.
pub open spec fn innermost_loop(stack: Seq<LoopContext>, label: Option<String>) -> Option<int>
    decreases stack.len(),
{
    if stack.len() == 0 {
        None
    } else if label_match(stack.last().label, label) {
        Some(stack.len() - 1)
    } else {
        innermost_loop(stack.drop_last(), label)
    }
}

/// Whether a loop carries the label `label` (any loop, for no label).
fn label_matches(ctx_label: &Option<String>, label: &Option<String>) -> (r: bool)
    ensures
        r == label_match(*ctx_label, *label),
{
    match label {
        None => true,
        Some(l) => match ctx_label {
            Some(c) => *c == *l,
            None => false,
        },
    }
}

impl FunctionLowerCtx {
    /// Before jumping back to the head of a loop (or out of it), copy every
    /// local whose register changed in the loop back into the register it
    /// had on entry, and make that register the local's again.
    pub fn emit_loop_copyback(&mut self, pre: &Vec<(String, Register)>)
        requires
            old(self).wf(),
        ensures
            final(self).wf(),
            final(self).blocks == old(self).blocks,
            final(self).locals.depth() == old(self).locals.depth(),
            final(self).local_types == old(self).local_types,
            restored(old(self).locals, final(self).locals, pre@),
            final(self).current_block_id == old(self).current_block_id,
            final(self).next_register == old(self).next_register,
            final(self).register_types == old(self).register_types,
            old(self).current_instructions@.len() <= final(self).current_instructions@.len(),
            forall|j: int|
                0 <= j < old(self).current_instructions@.len() ==> #[trigger] final(self).current_instructions@[j]
                    == old(self).current_instructions@[j],
            forall|j: int|
                old(self).current_instructions@.len() <= j < final(self).current_instructions@.len()
                    ==> #[trigger] final(self).current_instructions@[j] is Copy,
            final(self).current_instructions@ == old(self).current_instructions@ + copyback_insts(
                old(self).locals,
                pre@,
            ),
    {
        let mut k: usize = 0;
        while k < pre.len()
            invariant
                k <= pre@.len(),
                self.wf(),
                self.blocks == old(self).blocks,
                self.locals.depth() == old(self).locals.depth(),
                self.local_types == old(self).local_types,
                restored(old(self).locals, self.locals, pre@.take(k as int)),
                self.current_block_id == old(self).current_block_id,
                self.next_register == old(self).next_register,
                self.register_types == old(self).register_types,
                old(self).current_instructions@.len() <= self.current_instructions@.len(),
                forall|j: int|
                    0 <= j < old(self).current_instructions@.len() ==> #[trigger] self.current_instructions@[j]
                        == old(self).current_instructions@[j],
                forall|j: int|
                    old(self).current_instructions@.len() <= j < self.current_instructions@.len()
                        ==> #[trigger] self.current_instructions@[j] is Copy,
                self.current_instructions@ == old(self).current_instructions@ + copyback_insts(
                    old(self).locals,
                    pre@.take(k as int),
                ),
            decreases pre@.len() - k,
        {
            let ghost before = self.locals;
            let ghost ib = self.current_instructions@;
            let name = &pre[k].0;
            let pre_reg = pre[k].1;
            let current = match self.locals.get(name.as_str()) {
                Some(r) => Some(*r),
                None => None,
            };
            if let Some(cur) = current {
                if cur != pre_reg {
                    self.push_inst(Instruction::Copy(pre_reg, cur));
                    self.locals.update(name.as_str(), pre_reg);
                    proof {
                        assert forall|j: int|
                            old(self).current_instructions@.len() <= j < self.current_instructions@.len()
                                implies #[trigger] self.current_instructions@[j] is Copy by {
                            if j < ib.len() {
                                assert(self.current_instructions@[j] == ib[j]);
                            }
                        }
                    }
                }
            }
            proof {
                lemma_restored_step(old(self).locals, before, self.locals, pre@, k as int);
                let p1 = pre@.take(k + 1);
                assert(p1.drop_last() =~= pre@.take(k as int));
                assert(p1[k as int] == pre@[k as int]);
                assert(before.binding(pre@[k as int].0@) == restored_binding(
                    old(self).locals,
                    pre@.take(k as int),
                    pre@[k as int].0@,
                ));
                let c1 = copyback_insts(old(self).locals, p1);
                let c0 = copyback_insts(old(self).locals, pre@.take(k as int));
                assert(ib == old(self).current_instructions@ + c0);
                if current is Some && current.unwrap() != pre_reg {
                    assert(c1 == c0.push(Instruction::Copy(pre_reg, current.unwrap())));
                    assert(self.current_instructions@ == ib.push(Instruction::Copy(pre_reg, current.unwrap())));
                } else {
                    assert(c1 == c0);
                    assert(self.current_instructions@ == ib);
                }
                assert(self.current_instructions@ =~= old(self).current_instructions@ + c1);
            }
            k = k + 1;
        }
        proof {
            assert(pre@.take(pre@.len() as int) =~= pre@);
        }
    }

    /// Make every local of `pre` live in the register it had there again.
    pub fn restore_locals(&mut self, pre: &Vec<(String, Register)>)
        requires
            old(self).wf(),
        ensures
            final(self).wf(),
            final(self).blocks == old(self).blocks,
            final(self).locals.depth() == old(self).locals.depth(),
            final(self).local_types == old(self).local_types,
            restored(old(self).locals, final(self).locals, pre@),
            final(self).current_instructions == old(self).current_instructions,
            final(self).current_block_id == old(self).current_block_id,
            final(self).next_register == old(self).next_register,
            final(self).register_types == old(self).register_types,
    {
        let mut k: usize = 0;
        while k < pre.len()
            invariant
                k <= pre@.len(),
                self.wf(),
                self.blocks == old(self).blocks,
                self.locals.depth() == old(self).locals.depth(),
                self.local_types == old(self).local_types,
                restored(old(self).locals, self.locals, pre@.take(k as int)),
                self.current_instructions == old(self).current_instructions,
                self.current_block_id == old(self).current_block_id,
                self.next_register == old(self).next_register,
                self.register_types == old(self).register_types,
            decreases pre@.len() - k,
        {
            let ghost before = self.locals;
            self.locals.update(pre[k].0.as_str(), pre[k].1);
            proof {
                lemma_restored_step(old(self).locals, before, self.locals, pre@, k as int);
            }
            k = k + 1;
        }
        proof {
            assert(pre@.take(pre@.len() as int) =~= pre@);
        }
    }

    /// The block a `break` (or, with `to_continue`, a `continue`) with this
    /// label jumps to, and the locals on entry to that loop: the innermost
    /// loop with the label, or the innermost loop for no label.
    pub fn loop_target(&self, label: &Option<String>, to_continue: bool) -> (r: Option<(BlockId, Vec<(String, Register)>)>)
        ensures
            match innermost_loop(self.loop_stack@, *label) {
                Some(i) => r matches Some((b, pre)) && b == (if to_continue {
                    self.loop_stack@[i].continue_block
                } else {
                    self.loop_stack@[i].break_block
                }) && pre@.len() == self.loop_stack@[i].pre_loop_locals@.len() && forall|j: int|
                    0 <= j < pre@.len() ==> (#[trigger] pre@[j]).0@ == self.loop_stack@[i].pre_loop_locals@[j].0@
                        && pre@[j].1 == self.loop_stack@[i].pre_loop_locals@[j].1,
                None => r is None,
            },
    {
        let mut i = self.loop_stack.len();
        proof {
            assert(self.loop_stack@.take(i as int) =~= self.loop_stack@);
        }
        while i > 0
            invariant
                i <= self.loop_stack@.len(),
                innermost_loop(self.loop_stack@, *label) == innermost_loop(self.loop_stack@.take(i as int), *label),
            decreases i,
        {
            proof {
                let t = self.loop_stack@.take(i as int);
                assert(t.drop_last() =~= self.loop_stack@.take(i - 1));
                assert(t.last() == self.loop_stack@[i - 1]);
            }
            let lc = &self.loop_stack[i - 1];
            if label_matches(&lc.label, label) {
                let target = if to_continue {
                    lc.continue_block
                } else {
                    lc.break_block
                };
                return Some((target, copy_bindings(&lc.pre_loop_locals)));
            }
            i = i - 1;
        }
        proof {
            assert(self.loop_stack@.take(0) =~= Seq::<LoopContext>::empty());
        }
        None
    }
}

impl Lowerer {
    /// Lower `break` or `continue`: copy changed locals back, then jump out
    /// of (or back to the head of) the loop it names, and go on in a fresh
    /// block that nothing reaches.  Outside any loop it lowers to the unit
    /// value alone.
    pub fn lower_loop_jump(&mut self, st: &mut FunctionLowerCtx, e: &SpannedExpr) -> (r: Register)
        requires
            old(self).wf(),
            old(st).wf(),
        ensures
            lower_frame(*old(self), *final(self), *old(st), *final(st)),
            unit_value(*final(st), r),
            match e.node {
                Expr::Break { label, .. } => match innermost_loop(old(st).loop_stack@, label) {
                    Some(i) => final(st).blocks@.len() == old(st).blocks@.len() + 1
                        && final(st).blocks@.last().terminator == Terminator::Jump(old(st).loop_stack@[i].break_block),
                    None => final(st).blocks == old(st).blocks,
                },
                Expr::Continue { label } => match innermost_loop(old(st).loop_stack@, label) {
                    Some(i) => final(st).blocks@.len() == old(st).blocks@.len() + 1
                        && final(st).blocks@.last().terminator == Terminator::Jump(old(st).loop_stack@[i].continue_block),
                    None => final(st).blocks == old(st).blocks,
                },
                _ => final(st).blocks == old(st).blocks,
            },
    {
        let target = match &e.node {
            Expr::Break { label, .. } => st.loop_target(label, false),
            Expr::Continue { label } => st.loop_target(label, true),
            _ => None,
        };
        if let Some((block, pre)) = target {
            st.emit_loop_copyback(&pre);
            st.finish_block(Terminator::Jump(block));
            let dead = st.new_block_id();
            st.start_block(dead);
        }
        self.emit_unit(st)
    }

    /// Lower `loop { body }`: the body in a block that ends by jumping back
    /// to itself (after copying changed locals back); `break` goes to the
    /// block after the loop, `continue` to the head of the body.
    pub fn lower_loop(&mut self, st: &mut FunctionLowerCtx, module: &Module, e: &SpannedExpr, depth: u32) -> (r: Register)
        requires
            old(self).wf(),
            old(st).wf(),
        ensures
            lower_frame(*old(self), *final(self), *old(st), *final(st)),
            unit_value(*final(st), r),
            e.node is Loop ==> final(st).blocks@.len() > old(st).blocks@.len() && final(st).blocks@.last().terminator
                == Terminator::Jump(BlockId(old(st).next_block_id)),
        decreases depth, e, 2nat,
    {
        let ghost l0 = *self;
        let ghost c0 = *st;
        let (body, label) = match &e.node {
            Expr::Loop { body, label } => (body, label),
            _ => {
                return self.emit_unit(st);
            },
        };
        let body_block = st.new_block_id();
        let exit_block = st.new_block_id();
        st.finish_block(Terminator::Jump(body_block));
        st.start_block(body_block);
        let pre = st.locals.flatten();
        let label_copy = match label {
            Some(l) => Some(l.clone()),
            None => None,
        };
        st.loop_stack.push(
            LoopContext {
                label: label_copy,
                continue_block: body_block,
                break_block: exit_block,
                pre_loop_locals: copy_bindings(&pre),
            },
        );
        let ghost c1 = *st;
        self.lower_block_expr(st, module, &body.node, depth);
        proof {
            assert(lower_frame(l0, l0, c0, c1));
            lemma_lower_frame_trans(l0, l0, *self, c0, c1, *st);
        }
        st.loop_stack.pop();
        st.emit_loop_copyback(&pre);
        st.finish_block(Terminator::Jump(body_block));
        st.start_block(exit_block);
        st.restore_locals(&pre);
        self.emit_unit(st)
    }

    /// Lower `for binding in start..end { body }` as a loop over a hidden
    /// counter `__for_iter_<binding>`: a condition block compares it with
    /// the end (`<`, or `<=` when inclusive), the body sees the binding as
    /// the counter's register, and an increment block adds one and jumps
    /// back; `continue` goes to the increment, `break` past the loop.  Only
    /// ranges are iterated: over anything else the loop lowers to the unit
    /// value.
    pub fn lower_for(&mut self, st: &mut FunctionLowerCtx, module: &Module, e: &SpannedExpr, depth: u32) -> (r: Register)
        requires
            old(self).wf(),
            old(st).wf(),
        ensures
            lower_frame(*old(self), *final(self), *old(st), *final(st)),
            unit_value(*final(st), r),
            e.node is For && e.node->For_iter.node is Range ==> final(st).blocks@.len() > old(st).blocks@.len()
                && final(st).blocks@.last().terminator is Jump,
        decreases depth, e, 2nat,
    {
        let ghost l0 = *self;
        let ghost c0 = *st;
        let (binding, iter, body) = match &e.node {
            Expr::For { binding, iter, body } => (binding, iter, body),
            _ => {
                return self.emit_unit(st);
            },
        };
        let (start, end, inclusive) = match &iter.node {
            Expr::Range { start, end, inclusive } => (start, end, *inclusive),
            _ => {
                return self.emit_unit(st);
            },
        };
        let iter_reg = self.lower_expr(st, module, start, depth);
        let ghost l1 = *self;
        let ghost c1 = *st;
        let end_reg = self.lower_expr(st, module, end, depth);
        let ghost l2 = *self;
        let ghost c2 = *st;
        proof {
            lemma_lower_frame_trans(l0, l1, l2, c0, c1, c2);
        }
        let mut iter_name = String::from_str("__for_iter_");
        iter_name.append(binding.as_str());
        st.locals.insert(iter_name.clone(), iter_reg);
        let cond_block = st.new_block_id();
        let body_block = st.new_block_id();
        let incr_block = st.new_block_id();
        let exit_block = st.new_block_id();
        st.finish_block(Terminator::Jump(cond_block));
        st.start_block(cond_block);
        let pre = st.locals.flatten();
        let cur = match st.locals.get(iter_name.as_str()) {
            Some(r) => *r,
            None => iter_reg,
        };
        let cond_reg = st.alloc_register();
        if inclusive {
            st.push_inst(Instruction::Le(cond_reg, cur, end_reg));
        } else {
            st.push_inst(Instruction::Lt(cond_reg, cur, end_reg));
        }
        st.finish_block(Terminator::Branch(cond_reg, body_block, exit_block));
        st.start_block(body_block);
        st.loop_stack.push(
            LoopContext {
                label: None,
                continue_block: incr_block,
                break_block: exit_block,
                pre_loop_locals: copy_bindings(&pre),
            },
        );
        st.locals.push_scope();
        st.locals.insert(binding.clone(), cur);
        self.lower_block_expr(st, module, &body.node, depth);
        st.locals.pop_scope();
        st.loop_stack.pop();
        st.emit_loop_copyback(&pre);
        st.finish_block(Terminator::Jump(incr_block));
        st.start_block(incr_block);
        let cur2 = match st.locals.get(iter_name.as_str()) {
            Some(r) => *r,
            None => iter_reg,
        };
        let one = st.alloc_register();
        st.push_inst(Instruction::Const(one, ConstValue::I32(1)));
        let next = st.alloc_register();
        st.push_inst(Instruction::Add(next, cur2, one));
        st.locals.update(iter_name.as_str(), next);
        st.emit_loop_copyback(&pre);
        st.finish_block(Terminator::Jump(cond_block));
        st.start_block(exit_block);
        st.restore_locals(&pre);
        self.emit_unit(st)
    }

    /// Lower `expr as Type` to a conversion into a register of the target
    /// type.
    pub fn lower_cast(&mut self, st: &mut FunctionLowerCtx, module: &Module, e: &SpannedExpr, depth: u32) -> (r: Register)
        requires
            old(self).wf(),
            old(st).wf(),
        ensures
            lower_frame(*old(self), *final(self), *old(st), *final(st)),
            e.node is Cast ==> cast_into(
                *final(st),
                r,
                written_ty(ctx_of(old(self).typer), e.node->Cast_target_type.node),
            ),
        decreases depth, e, 2nat,
    {
        let ghost l0 = *self;
        let ghost c0 = *st;
        let (inner, target) = match &e.node {
            Expr::Cast { expr, target_type } => (expr, target_type),
            _ => {
                return self.emit_unit(st);
            },
        };
        let src = self.lower_expr(st, module, inner, depth);
        let ghost l1 = *self;
        let ghost c1 = *st;
        let target_id = self.typer.resolve_type(target);
        let dst = st.alloc_typed_register(target_id);
        st.push_inst(Instruction::Cast(dst, src, target_id));
        proof {
            assert(lower_frame(l1, *self, c1, *st));
            lemma_lower_frame_trans(l0, l1, *self, c0, c1, *st);
        }
        dst
    }

    /// Lower `target op= value`: the operation on the target's and the
    /// value's registers, whose result becomes the local's register when
    /// the target is a local.  (The comparison and logical operators have no
    /// compound form and produce no instruction.)
    pub fn lower_compound_assign(&mut self, st: &mut FunctionLowerCtx, module: &Module, e: &SpannedExpr, depth: u32) -> (r: Register)
        requires
            old(self).wf(),
            old(st).wf(),
        ensures
            lower_frame(*old(self), *final(self), *old(st), *final(st)),
            unit_value(*final(st), r),
            e.node is CompoundAssign ==> final(st).current_instructions@.len() >= 2 && compound_inst(
                e.node->CompoundAssign_op,
                final(st).current_instructions@[final(st).current_instructions@.len() - 2],
            ),
        decreases depth, e, 2nat,
    {
        let ghost l0 = *self;
        let ghost c0 = *st;
        let (op, target, value) = match &e.node {
            Expr::CompoundAssign { op, target, value } => (op, target, value),
            _ => {
                return self.emit_unit(st);
            },
        };
        let t = self.lower_expr(st, module, target, depth);
        let ghost l1 = *self;
        let ghost c1 = *st;
        let v = self.lower_expr(st, module, value, depth);
        let ghost l2 = *self;
        let ghost c2 = *st;
        proof {
            lemma_lower_frame_trans(l0, l1, l2, c0, c1, c2);
        }
        let dst = st.alloc_register();
        let inst = match op {
            BinOp::Add => Instruction::Add(dst, t, v),
            BinOp::Sub => Instruction::Sub(dst, t, v),
            BinOp::Mul => Instruction::Mul(dst, t, v),
            BinOp::Div => Instruction::Div(dst, t, v),
            BinOp::Mod => Instruction::Mod(dst, t, v),
            BinOp::Shl => Instruction::Shl(dst, t, v),
            BinOp::Shr => Instruction::Shr(dst, t, v),
            BinOp::BitAnd => Instruction::BitAnd(dst, t, v),
            BinOp::BitOr => Instruction::BitOr(dst, t, v),
            BinOp::BitXor => Instruction::BitXor(dst, t, v),
            _ => Instruction::Nop,
        };
        st.push_inst(inst);
        if let Expr::Ident(name) = &target.node {
            st.locals.update(name.as_str(), dst);
        }
        self.emit_unit(st)
    }

    /// How `e?` treats a value of type `t`: `None` when `t` is no enum;
    /// otherwise the enum's family (1 for `Option`, 2 for `Result`, 0 for
    /// any other enum), the tag of the variant that holds the value (`Some`,
    /// `Ok`; 0 when there is none) and the tag of the one that returns early
    /// (`None`, `Err`; 1 when there is none).
    fn try_shape(&self, t: TypeId) -> (r: Option<(u8, usize, usize)>)
        ensures
            r is None <==> !(self.typer.types.kind(t) is Enum),
            match r {
                Some((family, ok_tag, fail_tag)) => family <= 2 && match self.typer.types.kind(t) {
                    KindView::Enum { name, variants } => {
                        &&& family == 1 <==> name == "Option"@
                        &&& family == 2 <==> name == "Result"@
                        &&& family == 1 ==> ok_tag == tag_or(variants, "Some"@, 0) && fail_tag == tag_or(
                            variants,
                            "None"@,
                            1,
                        )
                        &&& family == 2 ==> ok_tag == tag_or(variants, "Ok"@, 0) && fail_tag == tag_or(
                            variants,
                            "Err"@,
                            1,
                        )
                    },
                    _ => false,
                },
                None => true,
            },
    {
        proof {
            reveal_strlit("Option");
            reveal_strlit("Result");
            assert("Option"@[0] != "Result"@[0]);
        }
        match self.typer.types.resolve(t) {
            TypeKind::Enum { name, variants } => {
                if str_is(name, "Option") {
                    Some((1, variant_tag_or(variants, "Some", 0), variant_tag_or(variants, "None", 1)))
                } else if str_is(name, "Result") {
                    Some((2, variant_tag_or(variants, "Ok", 0), variant_tag_or(variants, "Err", 1)))
                } else {
                    Some((0, 0, 1))
                }
            },
            _ => None,
        }
    }

    /// `e?`: when `e` is an `Option` (`Result`), branch on its tag: `Some`
    /// (`Ok`) continues with the value in field 1, `None` (`Err`) returns a
    /// fresh `None` (an `Err` holding the same error) from the function at
    /// once.  Any other value passes through.
    pub fn lower_question_mark(&mut self, st: &mut FunctionLowerCtx, module: &Module, e: &SpannedExpr, depth: u32) -> (r: Register)
        requires
            old(self).wf(),
            old(st).wf(),
        ensures
            lower_frame(*old(self), *final(self), *old(st), *final(st)),
            e.node is QuestionMark ==> {
                ||| copy_into(*final(st), r)
                ||| (final(st).current_instructions@.len() == 0 && final(st).blocks@.len() > old(st).blocks@.len() && (
                final(st).blocks@.last().terminator is Return || final(st).blocks@.last().terminator
                    == Terminator::Jump(final(st).current_block_id)))
            },
        decreases depth, e, 2nat,
    {
        let ghost l0 = *self;
        let ghost c0 = *st;
        let inner = match &e.node {
            Expr::QuestionMark(inner) => inner,
            _ => {
                return self.emit_unit(st);
            },
        };
        let inner_reg = self.lower_expr(st, module, inner, depth);
        let ghost l1 = *self;
        let ghost c1 = *st;
        let inner_ty = self.infer_expr_type(st, inner);
        proof {
            lemma_lower_frame_trans(l0, l1, *self, c0, c1, *st);
        }
        let ghost l2 = *self;
        let ghost c2 = *st;
        let result = st.alloc_register();
        let (family, ok_tag, fail_tag) = match self.try_shape(inner_ty) {
            Some(shape) => shape,
            None => {
                st.push_inst(Instruction::Copy(result, inner_reg));
                proof {
                    assert(lower_frame(l2, *self, c2, *st));
                    lemma_lower_frame_trans(l0, l2, *self, c0, c2, *st);
                }
                return result;
            },
        };
        let tag_reg = st.alloc_register();
        st.push_inst(Instruction::Load(tag_reg, inner_reg, 0));
        let success_block = st.new_block_id();
        let error_block = st.new_block_id();
        let merge_block = st.new_block_id();
        let ghost c3 = *st;
        assert(lower_frame(l2, *self, c2, c3));
        if family == 0 {
            st.push_inst(Instruction::Copy(result, inner_reg));
            st.finish_block(Terminator::Jump(merge_block));
        } else {
            let ok_reg = st.alloc_register();
            st.push_inst(Instruction::Const(ok_reg, ConstValue::I32(ok_tag as i32)));
            let is_ok = st.alloc_register();
            st.push_inst(Instruction::Eq(is_ok, tag_reg, ok_reg));
            st.finish_block(Terminator::Branch(is_ok, success_block, error_block));
            let ghost c4 = *st;
            st.start_block(success_block);
            st.push_inst(Instruction::Load(result, inner_reg, 1));
            st.finish_block(Terminator::Jump(merge_block));
            let ghost c5 = *st;
            assert(lower_frame(l2, *self, c4, c5));
            st.start_block(error_block);
            let ret_ty = st.return_type;
            let out = st.alloc_register();
            st.push_inst(Instruction::Alloc(out, ret_ty));
            let fail_reg = st.alloc_register();
            st.push_inst(Instruction::Const(fail_reg, ConstValue::I32(fail_tag as i32)));
            st.push_inst(Instruction::Store(out, 0, fail_reg));
            if family == 2 {
                let err_val = st.alloc_register();
                st.push_inst(Instruction::Load(err_val, inner_reg, 1));
                st.push_inst(Instruction::Store(out, 1, err_val));
            }
            st.finish_block(Terminator::Return(out));
            proof {
                assert(lower_frame(l2, *self, c5, *st));
                assert(lower_frame(l2, *self, c3, c4));
                lemma_lower_frame_trans(l2, *self, *self, c3, c4, c5);
                lemma_lower_frame_trans(l2, *self, *self, c3, c5, *st);
            }
        }
        let ghost c6 = *st;
        st.start_block(merge_block);
        proof {
            assert(lower_frame(l2, *self, c6, *st));
            assert(lower_frame(l2, *self, c3, c6));
            lemma_lower_frame_trans(l2, *self, *self, c3, c6, *st);
            lemma_lower_frame_trans(l2, *self, *self, c2, c3, *st);
            lemma_lower_frame_trans(l0, l2, *self, c0, c2, *st);
        }
        result
    }
}

} // verus!
