use vstd::prelude::*;

use super::control_flow::{lemma_tag_or, tag_or};
use super::consts::int_const;
use super::expr::lemma_lower_frame_trans;
use super::{block_sets, defined_last, joins_into, lower_frame, next_id, stores_into, unit_value, FunctionLowerCtx, Lowerer};
use crate::checker::typing::{ctx_of, enum_variant_fields, lemma_variant_named, variant_named};
use crate::scoped_locals::scope_get;
use crate::types::{fields_view, variants_view, KindView};
use crate::ast::{CallArg, Expr, Literal, MatchArm, Module, Pattern, SpannedExpr};
use crate::checker::LocalInfo;
use crate::ir::{BlockId, ConstValue, Instruction, Register, Terminator};
use crate::scoped_locals::find_binding;
use crate::span::Spanned;
use crate::types::{field_index, variant_index, TypeId};

verus! {

/// What lowering the literal of a literal pattern leaves: the constant it
/// denotes, set into `r` by the last instruction (the unit value for a
/// template string).
pub open spec fn literal_set(l: Literal, c: FunctionLowerCtx, r: Register) -> bool {
    &&& defined_last(c, r)
    &&& match l {
        Literal::TemplateString { .. } => c.current_instructions@.last() == Instruction::ConstUnit(r),
        Literal::String(_) => c.current_instructions@.last() matches Instruction::Const(_, ConstValue::StringLiteral(_)),
        Literal::Int(s, suffix) => c.current_instructions@.last() == Instruction::Const(r, int_const(s@, suffix)),
        Literal::Bool(b) => c.current_instructions@.last() == Instruction::Const(r, ConstValue::Bool(b)),
        Literal::Char(ch) => c.current_instructions@.last() == Instruction::Const(r, ConstValue::Char(ch)),
    }
}

/// How many of a pattern list's first `n` sub-patterns are plain bindings.
pub open spec fn binding_count(fields: Seq<Spanned<Pattern>>, n: int) -> nat
    decreases n,
{
    if n <= 0 || n > fields.len() {
        0
    } else {
        binding_count(fields, n - 1) + if fields[n - 1].node is Binding {
            1nat
        } else {
            0nat
        }
    }
}

/// The tag and whether it carries fields of the variant `name` of an enum
/// with the variants `vs`, if it has one: its position, the first with that
/// name.
pub open spec fn variant_tag_of(vs: Seq<(Seq<char>, Seq<(Seq<char>, TypeId)>)>, name: Seq<char>) -> Option<(usize, bool)> {
    match variant_named(vs, name) {
        Some(fs) => Some((tag_or(vs, name, 0), fs.len() > 0)),
        None => None,
    }
}

/// Whether the first block finished between `c0` and `c1` ends by testing
/// the register its last instruction sets to whether `lhs` equals some
/// value: on a match it goes to a block other than the one `c1` is left
/// in, otherwise to that one.
pub open spec fn branches_on(c0: FunctionLowerCtx, c1: FunctionLowerCtx, lhs: Register) -> bool {
    let b = c1.blocks@[c0.blocks@.len() as int];
    &&& c1.blocks@.len() > c0.blocks@.len()
    &&& b.instructions@.len() > 0
    &&& b.terminator matches Terminator::Branch(m, t, f) && f == c1.current_block_id && t != f && (
    b.instructions@.last() matches Instruction::Eq(d, a, _) && d == m && a == lhs)
}

/// Whether a pattern always matches (so that no later arm is reached).
pub open spec fn irrefutable(p: Pattern) -> bool {
    p is Wildcard || p is Binding || p is Struct
}

/// The blocks finished by `c0` are the first blocks of `c1`.
pub open spec fn blocks_kept(c0: FunctionLowerCtx, c1: FunctionLowerCtx) -> bool {
    &&& c0.blocks@.len() <= c1.blocks@.len()
    &&& forall|i: int| 0 <= i < c0.blocks@.len() ==> #[trigger] c1.blocks@[i] == c0.blocks@[i]
}

/// What lowering one arm (from `c0` to `c1`) of a `match` on the value in
/// `scrut` (with its enum tag in `tag`) does: a literal arm, or an enum arm
/// whose variant is known, tests the value and branches; an arm that runs
/// finishes a block that sets `result` and jumps to `merge`.
pub open spec fn arm_lowered(
    arm: MatchArm,
    scrut: Register,
    tag: Option<Register>,
    result: Register,
    merge: BlockId,
    c0: FunctionLowerCtx,
    c1: FunctionLowerCtx,
) -> bool {
    let runs = c1.blocks@.len() > c0.blocks@.len() && c1.blocks@.last().terminator == Terminator::Jump(merge)
        && block_sets(c1.blocks@.last(), result);
    match arm.pattern.node {
        Pattern::Literal(_) => runs && branches_on(c0, c1, scrut),
        Pattern::Enum { .. } => c1 == c0 || (runs && tag is Some && branches_on(c0, c1, tag.unwrap())),
        _ => runs,
    }
}

/// How the arms of a `match` were lowered, through the states `hs`: the
/// arms up to and including the first that always matches (or all of them)
/// are lowered in order, each as `arm_lowered` says, and their blocks stay
/// the first blocks of `c1`.
pub open spec fn arms_lowered(
    arms: Seq<MatchArm>,
    scrut: Register,
    tag: Option<Register>,
    result: Register,
    merge: BlockId,
    hs: Seq<FunctionLowerCtx>,
    c1: FunctionLowerCtx,
) -> bool {
    let n = hs.len() - 1;
    &&& 1 <= hs.len() <= arms.len() + 1
    &&& forall|k: int| 0 <= k < n ==> arm_lowered(arms[k], scrut, tag, result, merge, #[trigger] hs[k], hs[k + 1])
    &&& forall|k: int| 0 <= k < n - 1 ==> !irrefutable(#[trigger] arms[k].pattern.node)
    &&& n < arms.len() ==> n > 0 && irrefutable(arms[n - 1].pattern.node)
    &&& forall|k: int| 0 <= k < hs.len() ==> blocks_kept(#[trigger] hs[k], c1)
}

/// A `match` lowered from `c0` to `c1` into the register `r`: its arms were
/// lowered as `arms_lowered` says, after the state `c0` led to, and every
/// arm that runs joins at the block `c1` goes on in.
pub open spec fn match_lowered(arms: Seq<MatchArm>, c0: FunctionLowerCtx, c1: FunctionLowerCtx, r: Register) -> bool {
    exists|w: (Register, Option<Register>, Seq<FunctionLowerCtx>)|
        #[trigger] arms_lowered(arms, w.0, w.1, r, c1.current_block_id, w.2, c1) && blocks_kept(c0, w.2[0])
}

proof fn lemma_blocks_kept_trans(a: FunctionLowerCtx, b: FunctionLowerCtx, c: FunctionLowerCtx)
    requires
        blocks_kept(a, b),
        blocks_kept(b, c),
    ensures
        blocks_kept(a, c),
{
    assert forall|i: int| 0 <= i < a.blocks@.len() implies #[trigger] c.blocks@[i] == a.blocks@[i] by {
        assert(c.blocks@[i] == b.blocks@[i]);
    }
}

/// Whether `name` is first declared at position `i` of the fields `fs`.
pub open spec fn first_field_at(fs: Seq<(Seq<char>, TypeId)>, name: Seq<char>, i: int) -> bool {
    &&& 0 <= i < fs.len()
    &&& fs[i].0 == name
    &&& forall|j: int| 0 <= j < i ==> fs[j].0 != name
}

/// Whether the instructions `after` appends to `before` load field `i` of
/// the value in `val`.
pub open spec fn loads_field(before: Seq<Instruction>, after: Seq<Instruction>, val: Register, i: int) -> bool {
    exists|j: int|
        before.len() <= j < after.len() && (#[trigger] after[j] matches Instruction::Load(_, s, f) && s == val
            && f == i as u32)
}

/// For a struct pattern of a struct the lowerer knows: each field pattern
/// that names a field of the struct loads that field (by its position) from
/// the value in `val`.
pub open spec fn struct_fields_loaded(
    l: Lowerer,
    pattern: Pattern,
    val: Register,
    before: Seq<Instruction>,
    after: Seq<Instruction>,
) -> bool {
    match pattern {
        Pattern::Struct { name, fields } => match scope_get(l.typer.structs@, name@) {
            Some(sty) => match l.typer.types.kind(sty) {
                KindView::Struct { fields: sfs, .. } => forall|k: int, i: int|
                    0 <= k < fields@.len() && #[trigger] first_field_at(sfs, fields@[k].0@, i) ==> loads_field(
                        before,
                        after,
                        val,
                        i,
                    ),
                _ => true,
            },
            None => true,
        },
        _ => true,
    }
}

impl Lowerer {
    /// Start a value of an enum: a fresh object whose field 0 holds the
    /// variant's tag.
    fn begin_enum_value(&self, st: &mut FunctionLowerCtx, enum_ty: TypeId, tag: usize) -> (dst: Register)
        requires
            self.wf(),
            old(st).wf(),
        ensures
            lower_frame(*self, *self, *old(st), *final(st)),
            final(st).blocks == old(st).blocks,
            dst == Register(old(st).next_register),
            final(st).current_instructions@ == old(st).current_instructions@ + seq![
                Instruction::Alloc(dst, enum_ty),
                Instruction::Const(Register(next_id(old(st).next_register)), ConstValue::I32(tag as i32)),
                Instruction::Store(dst, 0, Register(next_id(old(st).next_register))),
            ],
    {
        let dst = st.alloc_typed_register(enum_ty);
        st.push_inst(Instruction::Alloc(dst, enum_ty));
        let tag_reg = st.alloc_register();
        st.push_inst(Instruction::Const(tag_reg, ConstValue::I32(tag as i32)));
        st.push_inst(Instruction::Store(dst, 0, tag_reg));
        dst
    }

    /// The tag of the variant `variant` of the enum type `t` (its position
    /// among the variants), and whether it carries fields, when `t` is an
    /// enum with such a variant.
    pub fn variant_tag(&self, t: TypeId, variant: &String) -> (r: Option<(usize, bool)>)
        ensures
            r == match self.typer.types.kind(t) {
                KindView::Enum { variants, .. } => variant_tag_of(variants, variant@),
                _ => None,
            },
    {
        match self.typer.types.enum_variants(t) {
            Some(vs) => {
                let found = variant_index(vs, variant);
                proof {
                    lemma_variant_named(vs@, variant@, found);
                    lemma_tag_or(vs@, variant@, 0, found);
                }
                match found {
                    Some(tag) => Some((tag, vs[tag].fields.len() > 0)),
                    None => None,
                }
            },
            None => None,
        }
    }

    /// Build `Enum::Variant(args)` from call arguments: the tag, then each
    /// argument's value stored in fields 1, 2, ... in order.
    pub fn lower_enum_call(
        &mut self,
        st: &mut FunctionLowerCtx,
        module: &Module,
        enum_ty: TypeId,
        tag: usize,
        args: &Vec<CallArg>,
        depth: u32,
    ) -> (r: Register)
        requires
            old(self).wf(),
            old(st).wf(),
        ensures
            lower_frame(*old(self), *final(self), *old(st), *final(st)),
            r == Register(old(st).next_register),
            stores_into(*final(st), r),
        decreases depth, args, 1nat,
    {
        let ghost l0 = *self;
        let ghost c0 = *st;
        let dst = self.begin_enum_value(st, enum_ty, tag);
        let mut i: usize = 0;
        while i < args.len()
            invariant
                i <= args@.len(),
                lower_frame(l0, *self, c0, *st),
                dst == Register(c0.next_register),
                stores_into(*st, dst),
            decreases args@.len() - i,
        {
            let ghost l1 = *self;
            let ghost c1 = *st;
            let v = self.lower_expr(st, module, &args[i].value, depth);
            st.push_inst(Instruction::Store(dst, (i + 1) as u32, v));
            proof {
                lemma_lower_frame_trans(l0, l1, *self, c0, c1, *st);
            }
            i = i + 1;
        }
        dst
    }

    /// Build `Enum::Variant(args)` written as a variant literal: the tag,
    /// then each argument's value stored in fields 1, 2, ... in order.
    fn lower_enum_exprs(
        &mut self,
        st: &mut FunctionLowerCtx,
        module: &Module,
        enum_ty: TypeId,
        tag: usize,
        args: &Vec<SpannedExpr>,
        depth: u32,
    ) -> (r: Register)
        requires
            old(self).wf(),
            old(st).wf(),
        ensures
            lower_frame(*old(self), *final(self), *old(st), *final(st)),
            r == Register(old(st).next_register),
            stores_into(*final(st), r),
        decreases depth, args, 1nat,
    {
        let ghost l0 = *self;
        let ghost c0 = *st;
        let dst = self.begin_enum_value(st, enum_ty, tag);
        let mut i: usize = 0;
        while i < args.len()
            invariant
                i <= args@.len(),
                lower_frame(l0, *self, c0, *st),
                dst == Register(c0.next_register),
                stores_into(*st, dst),
            decreases args@.len() - i,
        {
            let ghost l1 = *self;
            let ghost c1 = *st;
            let v = self.lower_expr(st, module, &args[i], depth);
            st.push_inst(Instruction::Store(dst, (i + 1) as u32, v));
            proof {
                lemma_lower_frame_trans(l0, l1, *self, c0, c1, *st);
            }
            i = i + 1;
        }
        dst
    }

    /// Lower `Enum::Variant(args)` written as a variant literal; a variant
    /// that is not known lowers to the unit value.
    pub fn lower_enum_literal(&mut self, st: &mut FunctionLowerCtx, module: &Module, e: &SpannedExpr, depth: u32) -> (r: Register)
        requires
            old(self).wf(),
            old(st).wf(),
        ensures
            lower_frame(*old(self), *final(self), *old(st), *final(st)),
            e.node is EnumLiteral ==> if (scope_get(old(self).typer.enums@, e.node->EnumLiteral_enum_name@) matches Some(
                et,
            ) && enum_variant_fields(ctx_of(old(self).typer), et, e.node->EnumLiteral_variant@) is Some) {
                r == Register(old(st).next_register) && stores_into(*final(st), r)
            } else {
                unit_value(*final(st), r)
            },
        decreases depth, e, 2nat,
    {
        let (enum_name, variant, args) = match &e.node {
            Expr::EnumLiteral { enum_name, variant, args } => (enum_name, variant, args),
            _ => {
                return self.emit_unit(st);
            },
        };
        let et = match find_binding(&self.typer.enums, enum_name) {
            Some(i) => Some(self.typer.enums[i].1),
            None => None,
        };
        if let Some(et) = et {
            if let Some((tag, _)) = self.variant_tag(et, variant) {
                return self.lower_enum_exprs(st, module, et, tag, args, depth);
            }
        }
        self.emit_unit(st)
    }

    /// The register holding the value a literal pattern is compared with.
    fn lower_literal_pattern(&mut self, st: &mut FunctionLowerCtx, lit: &Literal) -> (r: Register)
        requires
            old(self).wf(),
            old(st).wf(),
        ensures
            lower_frame(*old(self), *final(self), *old(st), *final(st)),
            literal_set(*lit, *final(st), r),
            final(st).blocks == old(st).blocks,
    {
        let c = match lit {
            Literal::TemplateString { .. } => {
                return self.emit_unit(st);
            },
            Literal::Int(s, suffix) => super::consts::parse_int_const(s, *suffix),
            Literal::Bool(b) => ConstValue::Bool(*b),
            Literal::String(s) => ConstValue::StringLiteral(self.intern_string_constant(s)),
            Literal::Char(ch) => ConstValue::Char(*ch),
        };
        let r = st.alloc_register();
        st.push_inst(Instruction::Const(r, c));
        r
    }

    /// Bind the names of a pattern to the value in `val` (of type `ty`, when
    /// known): a binding names the value itself, the field patterns of a
    /// struct pattern the fields they name, loaded into fresh registers.
    pub fn lower_pattern_binding(
        &self,
        st: &mut FunctionLowerCtx,
        pattern: &Spanned<Pattern>,
        val: Register,
        ty: Option<TypeId>,
    )
        requires
            self.wf(),
            old(st).wf(),
        ensures
            lower_frame(*self, *self, *old(st), *final(st)),
            pattern.node is Binding ==> final(st).locals.binding(pattern.node->Binding_0@) == Some(val),
            !(pattern.node is Binding) && !(pattern.node is Struct) ==> *final(st) == *old(st),
            final(st).blocks == old(st).blocks,
            old(st).current_instructions@.len() <= final(st).current_instructions@.len(),
            forall|j: int|
                0 <= j < old(st).current_instructions@.len() ==> #[trigger] final(st).current_instructions@[j]
                    == old(st).current_instructions@[j],
            struct_fields_loaded(
                *self,
                pattern.node,
                val,
                old(st).current_instructions@,
                final(st).current_instructions@,
            ),
        decreases pattern,
    {
        match &pattern.node {
            Pattern::Binding(name) => {
                st.locals.insert(name.clone(), val);
                if let Some(t) = ty {
                    st.local_types.insert(
                        name.clone(),
                        LocalInfo { ty: t, is_mut: false, def_span: pattern.span },
                    );
                }
            },
            Pattern::Struct { name, fields } => {
                if let Some(i) = find_binding(&self.typer.structs, name) {
                    let sty = self.typer.structs[i].1;
                    if let Some(sfs) = self.typer.types.struct_fields(sty) {
                        let ghost i0 = old(st).current_instructions@;
                        let ghost sv = fields_view(sfs@);
                        let mut k: usize = 0;
                        while k < fields.len()
                            invariant
                                k <= fields@.len(),
                                lower_frame(*self, *self, *old(st), *st),
                                st.blocks == old(st).blocks,
                                self.wf(),
                                pattern.node is Struct,
                                *fields == pattern.node->Struct_fields,
                                i0 == old(st).current_instructions@,
                                sv == fields_view(sfs@),
                                i0.len() <= st.current_instructions@.len(),
                                forall|j: int| 0 <= j < i0.len() ==> #[trigger] st.current_instructions@[j] == i0[j],
                                forall|k2: int, i: int|
                                    0 <= k2 < k && #[trigger] first_field_at(sv, fields@[k2].0@, i) ==> loads_field(
                                        i0,
                                        st.current_instructions@,
                                        val,
                                        i,
                                    ),
                            decreases fields@.len() - k,
                        {
                            let ghost c1 = st.current_instructions@;
                            let fi = field_index(sfs, &fields[k].0);
                            if let Some(idx) = fi {
                                let ft = sfs[idx].1;
                                let fr = st.alloc_typed_register(ft);
                                st.push_inst(Instruction::Load(fr, val, idx as u32));
                                let ghost c2 = st.current_instructions@;
                                self.lower_pattern_binding(st, &fields[k].1, fr, Some(ft));
                                proof {
                                    let cn = st.current_instructions@;
                                    assert(cn[c1.len() as int] == c2[c1.len() as int]);
                                    assert(loads_field(i0, cn, val, idx as int));
                                    assert forall|j: int| 0 <= j < c1.len() implies #[trigger] cn[j] == c1[j] by {
                                        assert(cn[j] == c2[j]);
                                    }
                                }
                            }
                            proof {
                                let cn = st.current_instructions@;
                                assert(c1.len() <= cn.len());
                                assert(forall|j: int| 0 <= j < c1.len() ==> #[trigger] cn[j] == c1[j]);
                                assert forall|k2: int, i: int|
                                    0 <= k2 < k + 1 && #[trigger] first_field_at(sv, fields@[k2].0@, i) implies loads_field(
                                    i0,
                                    cn,
                                    val,
                                    i,
                                ) by {
                                    if k2 < k {
                                        let j = choose|j: int|
                                            i0.len() <= j < c1.len() && (#[trigger] c1[j] matches Instruction::Load(
                                                _,
                                                s,
                                                f,
                                            ) && s == val && f == i as u32);
                                        assert(cn[j] == c1[j]);
                                    } else {
                                        assert forall|j: int| 0 <= j < sv.len() implies #[trigger] sv[j].0
                                            == sfs@[j].0@ by {}
                                        assert(sv[i].0 == sfs@[i].0@);
                                        if let Some(idx) = fi {
                                            assert(sv[idx as int].0 == sfs@[idx as int].0@);
                                            assert(i == idx);
                                        }
                                    }
                                }
                            }
                            k = k + 1;
                        }
                    }
                }
            },
            _ => {},
        }
    }

    /// The tag of a variant of the enum type `t` and the types of its
    /// fields, when `t` is an enum with such a variant.
    fn variant_info(&self, t: TypeId, variant: &String) -> (r: Option<(usize, Vec<TypeId>)>)
        ensures
            match self.typer.types.kind(t) {
                KindView::Enum { variants, .. } => match variant_named(variants, variant@) {
                    Some(fs) => r matches Some((tag, fts)) && tag == tag_or(variants, variant@, 0) && fts@.len()
                        == fs.len() && forall|i: int| 0 <= i < fs.len() ==> #[trigger] fts@[i] == fs[i].1,
                    None => r is None,
                },
                _ => r is None,
            },
    {
        match self.typer.types.enum_variants(t) {
            Some(vs) => {
                let found = variant_index(vs, variant);
                proof {
                    lemma_variant_named(vs@, variant@, found);
                    lemma_tag_or(vs@, variant@, 0, found);
                }
                match found {
                    Some(tag) => {
                        let fs = &vs[tag].fields;
                        let mut fts: Vec<TypeId> = Vec::new();
                        let mut k: usize = 0;
                        while k < fs.len()
                            invariant
                                k <= fs@.len(),
                                fts@.len() == k,
                                forall|i: int| 0 <= i < k ==> #[trigger] fts@[i] == fs@[i].1,
                            decreases fs@.len() - k,
                        {
                            fts.push(fs[k].1);
                            k = k + 1;
                        }
                        proof {
                            assert forall|i: int| 0 <= i < fs@.len() implies #[trigger] fts@[i] == fields_view(fs@)[i].1 by {}
                        }
                        Some((tag, fts))
                    },
                    None => None,
                }
            },
            None => None,
        }
    }

    /// Bind the sub-patterns of a variant pattern that are plain bindings to
    /// the variant's fields, loaded from fields 1, 2, ... of the value in
    /// `scrut`, with the fields' types.
    fn bind_variant_fields(
        &self,
        st: &mut FunctionLowerCtx,
        fields: &Vec<Spanned<Pattern>>,
        scrut: Register,
        fts: &Vec<TypeId>,
    )
        requires
            old(st).wf(),
        ensures
            final(st).wf(),
            final(st).blocks == old(st).blocks,
            final(st).locals.depth() == old(st).locals.depth(),
            final(st).local_types.depth() == old(st).local_types.depth(),
            old(st).register_types@.len() <= final(st).register_types@.len(),
            super::regs_counted(*old(st)) && final(st).register_types@.len() <= u32::MAX ==> super::regs_counted(
                *final(st),
            ),
            final(st).current_instructions@.len() == old(st).current_instructions@.len() + binding_count(
                fields@,
                fields@.len() as int,
            ),
            forall|j: int|
                0 <= j < old(st).current_instructions@.len() ==> #[trigger] final(st).current_instructions@[j]
                    == old(st).current_instructions@[j],
            forall|j: int|
                old(st).current_instructions@.len() <= j < final(st).current_instructions@.len() ==> (
                #[trigger] final(st).current_instructions@[j] matches Instruction::Load(_, s, _) && s == scrut),
    {
        let mut k: usize = 0;
        while k < fields.len()
            invariant
                k <= fields@.len(),
                st.wf(),
                st.blocks == old(st).blocks,
                st.locals.depth() == old(st).locals.depth(),
                st.local_types.depth() == old(st).local_types.depth(),
                old(st).register_types@.len() <= st.register_types@.len(),
                super::regs_counted(*old(st)) && st.register_types@.len() <= u32::MAX ==> super::regs_counted(*st),
                st.current_instructions@.len() == old(st).current_instructions@.len() + binding_count(fields@, k as int),
                forall|j: int|
                    0 <= j < old(st).current_instructions@.len() ==> #[trigger] st.current_instructions@[j]
                        == old(st).current_instructions@[j],
                forall|j: int|
                    old(st).current_instructions@.len() <= j < st.current_instructions@.len() ==> (
                    #[trigger] st.current_instructions@[j] matches Instruction::Load(_, s, _) && s == scrut),
            decreases fields@.len() - k,
        {
            let ghost before = st.current_instructions@;
            if let Pattern::Binding(name) = &fields[k].node {
                let fr = st.alloc_register();
                st.push_inst(Instruction::Load(fr, scrut, (k + 1) as u32));
                st.locals.insert(name.clone(), fr);
                if k < fts.len() {
                    st.local_types.insert(
                        name.clone(),
                        LocalInfo { ty: fts[k], is_mut: false, def_span: fields[k].span },
                    );
                }
            }
            k = k + 1;
        }
    }

    /// Lower `if let pattern = scrutinee { .. } else ..`: a variant pattern
    /// compares the value's tag with the variant's and binds the fields in
    /// the then-block; a variant the value's type does not have goes to the
    /// else branch; any other pattern always takes the then-block.  Both
    /// branches copy their value into the result register.
    pub fn lower_if_let(&mut self, st: &mut FunctionLowerCtx, module: &Module, e: &SpannedExpr, depth: u32) -> (r: Register)
        requires
            old(self).wf(),
            old(st).wf(),
        ensures
            lower_frame(*old(self), *final(self), *old(st), *final(st)),
            e.node is IfLet ==> joins_into(*old(st), *final(st), r),
        decreases depth, e, 2nat,
    {
        let ghost l0 = *self;
        let ghost c0 = *st;
        let (pattern, scrutinee, then_branch, else_branch) = match &e.node {
            Expr::IfLet { pattern, scrutinee, then_branch, else_branch } => (
                pattern,
                scrutinee,
                then_branch,
                else_branch,
            ),
            _ => {
                return self.emit_unit(st);
            },
        };
        let scrut = self.lower_expr(st, module, scrutinee, depth);
        let ghost l1 = *self;
        let ghost c1 = *st;
        let sty = self.infer_expr_type(st, scrutinee);
        let result = st.alloc_register();
        let then_block = st.new_block_id();
        let else_block = st.new_block_id();
        let merge = st.new_block_id();
        let ghost l2 = *self;
        let ghost c2 = *st;
        proof {
            lemma_lower_frame_trans(l0, l1, l2, c0, c1, c2);
        }
        match &pattern.node {
            Pattern::Enum { variant, fields, .. } => {
                match self.variant_info(sty, variant) {
                    Some((tag, fts)) => {
                        let tag_reg = st.alloc_register();
                        st.push_inst(Instruction::Load(tag_reg, scrut, 0));
                        let expected = st.alloc_register();
                        st.push_inst(Instruction::Const(expected, ConstValue::I32(tag as i32)));
                        let same = st.alloc_register();
                        st.push_inst(Instruction::Eq(same, tag_reg, expected));
                        st.finish_block(Terminator::Branch(same, then_block, else_block));
                        st.start_block(then_block);
                        st.locals.push_scope();
                        st.local_types.push_scope();
                        self.bind_variant_fields(st, fields, scrut, &fts);
                        let then_result = self.lower_block_expr(st, module, &then_branch.node, depth);
                        st.push_inst(Instruction::Copy(result, then_result));
                        st.local_types.pop_scope();
                        st.locals.pop_scope();
                        st.finish_block(Terminator::Jump(merge));
                    },
                    None => {
                        st.finish_block(Terminator::Jump(else_block));
                    },
                }
            },
            _ => {
                st.finish_block(Terminator::Jump(then_block));
                st.start_block(then_block);
                let ghost c3 = *st;
                let then_result = self.lower_block_expr(st, module, &then_branch.node, depth);
                proof {
                    assert(lower_frame(l2, l2, c2, c3));
                    lemma_lower_frame_trans(l0, l2, *self, c0, c3, *st);
                }
                st.push_inst(Instruction::Copy(result, then_result));
                st.finish_block(Terminator::Jump(merge));
            },
        }
        let ghost l4 = *self;
        let ghost c4 = *st;
        st.start_block(else_block);
        let ghost c5 = *st;
        match else_branch {
            Some(eb) => {
                let r = self.lower_expr(st, module, eb, depth);
                st.push_inst(Instruction::Copy(result, r));
            },
            None => {
                st.push_inst(Instruction::ConstUnit(result));
            },
        }
        proof {
            assert(lower_frame(l4, l4, c4, c5));
            lemma_lower_frame_trans(l0, l4, l4, c0, c4, c5);
            lemma_lower_frame_trans(l0, l4, *self, c0, c5, *st);
        }
        st.finish_block(Terminator::Jump(merge));
        st.start_block(merge);
        result
    }

    /// Lower a `match`: the arms are tried in order, each in a block of its
    /// own; an arm with a literal pattern compares the value with the
    /// literal, one with a variant pattern compares the value's tag (field
    /// 0) with the variant's and loads the bound fields (fields 1, 2, ...);
    /// a wildcard, binding or struct pattern always matches and ends the
    /// chain.  Every arm copies its value into the result register and jumps
    /// to a common block; when no arm matches the result is the unit value.
    pub fn lower_match(&mut self, st: &mut FunctionLowerCtx, module: &Module, e: &SpannedExpr, depth: u32) -> (r: Register)
        requires
            old(self).wf(),
            old(st).wf(),
        ensures
            lower_frame(*old(self), *final(self), *old(st), *final(st)),
            e.node is Match ==> joins_into(*old(st), *final(st), r),
            e.node is Match ==> match_lowered(e.node->Match_arms@, *old(st), *final(st), r),
        decreases depth, e, 2nat,
    {
        let ghost l0 = *self;
        let ghost c0 = *st;
        let (scrutinee, arms) = match &e.node {
            Expr::Match { scrutinee, arms } => (scrutinee, arms),
            _ => {
                return self.emit_unit(st);
            },
        };
        let scrut = self.lower_expr(st, module, scrutinee, depth);
        let sty = self.infer_expr_type(st, scrutinee);
        let result = st.alloc_register();
        let merge = st.new_block_id();
        let tag_reg = if self.typer.types.is_enum(sty) {
            let t = st.alloc_register();
            st.push_inst(Instruction::Load(t, scrut, 0));
            Some(t)
        } else {
            None
        };
        let ghost hs0 = *st;
        let ghost mut hs: Seq<FunctionLowerCtx> = seq![hs0];
        proof {
            assert(blocks_kept(c0, hs0));
        }
        let mut i: usize = 0;
        let mut done = false;
        while i < arms.len() && !done
            invariant
                i <= arms@.len(),
                lower_frame(l0, *self, c0, *st),
                e.node is Match,
                *arms == e.node->Match_arms,
                done ==> st.blocks@.len() > c0.blocks@.len() && st.blocks@.last().terminator == Terminator::Jump(merge)
                    && block_sets(st.blocks@.last(), result),
                hs.len() == i + 1,
                hs[0] == hs0,
                blocks_kept(c0, hs0),
                hs[i as int] == *st,
                forall|k: int| 0 <= k < i ==> arm_lowered(arms@[k], scrut, tag_reg, result, merge, #[trigger] hs[k], hs[k + 1]),
                forall|k: int| 0 <= k < i - 1 ==> !irrefutable(#[trigger] arms@[k].pattern.node),
                done == (i > 0 && irrefutable(arms@[i - 1].pattern.node)),
                forall|k: int| 0 <= k < hs.len() ==> blocks_kept(#[trigger] hs[k], *st),
            decreases arms@.len() - i,
        {
            let ghost l1 = *self;
            let ghost c1 = *st;
            done = self.lower_match_arm(st, module, &arms[i], scrut, sty, tag_reg, result, merge, depth);
            proof {
                lemma_lower_frame_trans(l0, l1, *self, c0, c1, *st);
                assert(blocks_kept(c1, *st));
                assert forall|k: int| 0 <= k < hs.len() implies blocks_kept(#[trigger] hs[k], *st) by {
                    lemma_blocks_kept_trans(hs[k], c1, *st);
                }
                assert(arm_lowered(arms@[i as int], scrut, tag_reg, result, merge, c1, *st));
                hs = hs.push(*st);
                assert(blocks_kept(*st, *st));
            }
            i = i + 1;
        }
        let ghost cl = *st;
        if !done {
            st.push_inst(Instruction::ConstUnit(result));
            st.finish_block(Terminator::Jump(merge));
        }
        st.start_block(merge);
        proof {
            assert(blocks_kept(cl, *st));
            assert forall|k: int| 0 <= k < hs.len() implies blocks_kept(#[trigger] hs[k], *st) by {
                lemma_blocks_kept_trans(hs[k], cl, *st);
            }
            assert(arms_lowered(arms@, scrut, tag_reg, result, merge, hs, *st));
            assert(st.current_block_id == merge);
            let w = (scrut, tag_reg, hs);
            assert(arms_lowered(arms@, w.0, w.1, result, st.current_block_id, w.2, *st) && blocks_kept(c0, w.2[0]));
        }
        result
    }

    /// Lower one arm of a `match` whose value is in `scrut`; returns whether
    /// the arm always matches (so that no later arm is reached).
    fn lower_match_arm(
        &mut self,
        st: &mut FunctionLowerCtx,
        module: &Module,
        arm: &MatchArm,
        scrut: Register,
        sty: TypeId,
        tag_reg: Option<Register>,
        result: Register,
        merge: BlockId,
        depth: u32,
    ) -> (irrefutable: bool)
        requires
            old(self).wf(),
            old(st).wf(),
        ensures
            lower_frame(*old(self), *final(self), *old(st), *final(st)),
            irrefutable == (arm.pattern.node is Wildcard || arm.pattern.node is Binding || arm.pattern.node is Struct),
            (final(st).blocks@.len() > old(st).blocks@.len() && final(st).blocks@.last().terminator == Terminator::Jump(merge)
                && block_sets(final(st).blocks@.last(), result)) || (arm.pattern.node is Enum && *final(st) == *old(st)),
            arm.pattern.node is Literal ==> branches_on(*old(st), *final(st), scrut),
            arm.pattern.node is Enum ==> *final(st) == *old(st) || (tag_reg is Some && branches_on(
                *old(st),
                *final(st),
                tag_reg.unwrap(),
            )),
        decreases depth, arm, 1nat,
    {
        let ghost l0 = *self;
        let ghost c0 = *st;
        match &arm.pattern.node {
            Pattern::Wildcard | Pattern::Binding(_) => {
                st.locals.push_scope();
                st.local_types.push_scope();
                if let Pattern::Binding(name) = &arm.pattern.node {
                    st.locals.insert(name.clone(), scrut);
                    st.local_types.insert(
                        name.clone(),
                        LocalInfo { ty: sty, is_mut: false, def_span: arm.pattern.span },
                    );
                }
                let body = self.lower_expr(st, module, &arm.body, depth);
                st.push_inst(Instruction::Copy(result, body));
                st.local_types.pop_scope();
                st.locals.pop_scope();
                st.finish_block(Terminator::Jump(merge));
                true
            },
            Pattern::Literal(lit) => {
                let lit_reg = self.lower_literal_pattern(st, lit);
                let matches_reg = st.alloc_register();
                st.push_inst(Instruction::Eq(matches_reg, scrut, lit_reg));
                let matched = st.new_block_id();
                let next = st.new_block_id();
                st.finish_block(Terminator::Branch(matches_reg, matched, next));
                let ghost bb = st.blocks@.last();
                st.start_block(matched);
                let ghost l1 = *self;
                let ghost c1 = *st;
                let body = self.lower_expr(st, module, &arm.body, depth);
                st.push_inst(Instruction::Copy(result, body));
                st.finish_block(Terminator::Jump(merge));
                st.start_block(next);
                proof {
                    lemma_lower_frame_trans(l0, l1, *self, c0, c1, *st);
                    assert(st.blocks@[c0.blocks@.len() as int] == bb);
                    assert(branches_on(c0, *st, scrut));
                }
                false
            },
            Pattern::Enum { variant, fields, .. } => {
                let info = self.variant_info(sty, variant);
                match (tag_reg, info) {
                    (Some(tr), Some((tag, fts))) => {
                        let expected = st.alloc_register();
                        st.push_inst(Instruction::Const(expected, ConstValue::I32(tag as i32)));
                        let matches_reg = st.alloc_register();
                        st.push_inst(Instruction::Eq(matches_reg, tr, expected));
                        let matched = st.new_block_id();
                        let next = st.new_block_id();
                        st.finish_block(Terminator::Branch(matches_reg, matched, next));
                        let ghost bb = st.blocks@.last();
                        st.start_block(matched);
                        st.locals.push_scope();
                        st.local_types.push_scope();
                        self.bind_variant_fields(st, fields, scrut, &fts);
                        let body = self.lower_expr(st, module, &arm.body, depth);
                        st.push_inst(Instruction::Copy(result, body));
                        st.local_types.pop_scope();
                        st.locals.pop_scope();
                        st.finish_block(Terminator::Jump(merge));
                        st.start_block(next);
                        proof {
                            assert(st.blocks@[c0.blocks@.len() as int] == bb);
                            assert(branches_on(c0, *st, tr));
                        }
                        false
                    },
                    _ => false,
                }
            },
            Pattern::Struct { .. } => {
                st.locals.push_scope();
                st.local_types.push_scope();
                self.lower_pattern_binding(st, &arm.pattern, scrut, Some(sty));
                let body = self.lower_expr(st, module, &arm.body, depth);
                st.push_inst(Instruction::Copy(result, body));
                st.local_types.pop_scope();
                st.locals.pop_scope();
                st.finish_block(Terminator::Jump(merge));
                true
            },
        }
    }
}

} // verus!
