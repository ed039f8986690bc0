use vstd::prelude::*;

use super::expr::{clean, operation_reports, 
    binop_method, binop_name, immutable_appended, lemma_appended_kept, lemma_body_frame_refl, lemma_body_frame_trans,
    mismatch_appended, mismatch_report, operator_appended, operator_report, own_report, undefined_appended,
};
use super::typing::{binary_ty, cast_allowed, cast_ty, ctx_kind, ctx_of, env_of, err_ty, expr_ty, in_family, op_method, ty_name, unary_ty, TyCtx, lemma_field_ty, lemma_variant_named, unwrapped_ty};
use super::expr::{appended_one, binop_text, unary_text};
use super::mangled;
use super::{mangle, str_is, Checker, LocalInfo};
use crate::ast::{BinOp, Expr, SpannedExpr, UnaryOp};
use crate::diagnostic::CheckerDiagnostic;
use crate::scoped_locals::ScopedLocals;
use crate::types::{field_index, kind_is_integer, kind_is_numeric, variant_index, TypeId, TypeKind, ERROR_ID};

verus! {

/// What applying the binary operator of `e` to operands of types `l` and
/// `r` reports, from `before` to `after`: nothing when an operand has the
/// error type (errors do not cascade) or the operation is well typed or
/// overloaded; otherwise exactly one report, a type mismatch at the right
/// operand when the types differ, else an invalid operator type.
pub open spec fn binary_reported(
    x: TyCtx,
    e: SpannedExpr,
    l: TypeId,
    r: TypeId,
    before: Seq<CheckerDiagnostic>,
    after: Seq<CheckerDiagnostic>,
) -> bool {
    match e.node {
        Expr::Binary { op, right, .. } => if l != err_ty() && r != err_ty() && !(op_method(op) is Some
            && x.0.lookup(mangled(ty_name(x, l), op_method(op).unwrap())) is Some) && binary_ty(x, op, l, r)
            == err_ty() {
            &&& appended_one(before, after)
            &&& if l != r {
                mismatch_report(after.last(), right.span, ty_name(x, l), ty_name(x, r))
            } else {
                operator_report(after.last(), e.span, binop_text(op), ty_name(x, l))
            }
        } else {
            after == before
        },
        _ => true,
    }
}

/// What casting a value of type `s` to type `d` as `e` says reports:
/// nothing when either type is the error type or the cast is allowed, else
/// exactly one invalid operator type at the cast value.
pub open spec fn cast_reported(
    x: TyCtx,
    e: SpannedExpr,
    s: TypeId,
    d: TypeId,
    before: Seq<CheckerDiagnostic>,
    after: Seq<CheckerDiagnostic>,
) -> bool {
    match e.node {
        Expr::Cast { expr, .. } => if s != err_ty() && d != err_ty() && !cast_allowed(x, s, d) {
            appended_one(before, after) && operator_report(
                after.last(),
                expr.span,
                "as"@,
                ty_name(x, s) + " as "@ + ty_name(x, d),
            )
        } else {
            after == before
        },
        _ => true,
    }
}

/// A value of any integer type cast to `char` is a `char`, and the cast
/// reports nothing.
pub proof fn law_integer_to_char_cast(
    x: TyCtx,
    s: TypeId,
    e: SpannedExpr,
    before: Seq<CheckerDiagnostic>,
    after: Seq<CheckerDiagnostic>,
)
    requires
        kind_is_integer(ctx_kind(x, s)),
        s != TypeId(ERROR_ID),
        e.node is Cast,
        cast_reported(x, e, s, TypeId(12), before, after),
    ensures
        cast_ty(x, s, TypeId(12)) == TypeId(12),
        after == before,
{
}

/// The casts the language allows give the written type and report
/// nothing: between numeric types, from `bool` or `char` to an integer
/// type, and between the pointer types (`RawPtr` to and from `MutRawPtr`
/// and `CStr`).
pub proof fn law_allowed_casts(
    x: TyCtx,
    s: TypeId,
    d: TypeId,
    e: SpannedExpr,
    before: Seq<CheckerDiagnostic>,
    after: Seq<CheckerDiagnostic>,
)
    requires
        s != TypeId(ERROR_ID),
        d != TypeId(ERROR_ID),
        e.node is Cast,
        cast_reported(x, e, s, d, before, after),
        (kind_is_numeric(ctx_kind(x, s)) && kind_is_numeric(ctx_kind(x, d))) || ((s == TypeId(11) || s
            == TypeId(12)) && kind_is_integer(ctx_kind(x, d))) || (s == TypeId(14) && (d == TypeId(15) || d
            == TypeId(16))) || ((s == TypeId(15) || s == TypeId(16)) && d == TypeId(14)),
    ensures
        cast_ty(x, s, d) == d,
        after == before,
{
}

/// What applying the unary operator of `e` to an operand of type `t`
/// reports: nothing when the operand has the error type or the operation
/// is well typed, else exactly one invalid operator type.
pub open spec fn unary_reported(
    x: TyCtx,
    e: SpannedExpr,
    t: TypeId,
    before: Seq<CheckerDiagnostic>,
    after: Seq<CheckerDiagnostic>,
) -> bool {
    match e.node {
        Expr::Unary { op, .. } => if t != err_ty() && unary_ty(x, op, t) == err_ty() {
            appended_one(before, after) && operator_report(after.last(), e.span, unary_text(op), ty_name(x, t))
        } else {
            after == before
        },
        _ => true,
    }
}

/// The name of an operator's variant, in lower case (`add`, `bitand`, ...),
/// as compound-assignment diagnostics show it.
pub open spec fn binop_variant_text(op: BinOp) -> Seq<char> {
    match op {
        BinOp::Add => "add"@,
        BinOp::Sub => "sub"@,
        BinOp::Mul => "mul"@,
        BinOp::Div => "div"@,
        BinOp::Mod => "mod"@,
        BinOp::Shl => "shl"@,
        BinOp::Shr => "shr"@,
        BinOp::BitAnd => "bitand"@,
        BinOp::BitOr => "bitor"@,
        BinOp::BitXor => "bitxor"@,
        BinOp::Eq => "eq"@,
        BinOp::Ne => "ne"@,
        BinOp::Lt => "lt"@,
        BinOp::Le => "le"@,
        BinOp::Gt => "gt"@,
        BinOp::Ge => "ge"@,
        BinOp::And => "and"@,
        BinOp::Or => "or"@,
    }
}

/// Whether `name` is `base` or starts with `base` followed by `$`.
pub fn in_family_exec(name: &String, base: &str) -> (r: bool)
    ensures
        r == in_family(name@, base@),
{
    if str_is(name, base) {
        return true;
    }
    let st = name.as_str();
    let n = st.unicode_len();
    let m = base.unicode_len();
    if n <= m {
        return false;
    }
    let mut i: usize = 0;
    while i < m
        invariant
            i <= m,
            m < n,
            n == name@.len(),
            m == base@.len(),
            st@ == name@,
            forall|j: int| 0 <= j < i ==> name@[j] == base@[j],
        decreases m - i,
    {
        if st.get_char(i) != base.get_char(i) {
            assert(name@.take(m + 1int)[i as int] != base@.push('$')[i as int]);
            return false;
        }
        i = i + 1;
    }
    let last = st.get_char(m);
    if last != '$' {
        assert(name@.take(m + 1int)[m as int] != base@.push('$')[m as int]);
        return false;
    }
    assert(name@.take(m + 1int) =~= base@.push('$'));
    true
}

/// Whether a compound assignment with `op` applies to a value of type
/// `t`: the bitwise ones to integers, the others to numbers.
pub open spec fn compound_applies(x: TyCtx, op: BinOp, t: TypeId) -> bool {
    if op is BitAnd || op is BitOr || op is BitXor {
        kind_is_integer(ctx_kind(x, t))
    } else {
        kind_is_numeric(ctx_kind(x, t))
    }
}

/// What checking `target op= value` reports, for a local as target: an
/// unknown name; else an immutable local, an operator that does not apply
/// to the local's type, and a value of another type.
pub open spec fn compound_reported(
    x: TyCtx,
    env: Map<Seq<char>, LocalInfo>,
    e: SpannedExpr,
    before: Seq<CheckerDiagnostic>,
    after: Seq<CheckerDiagnostic>,
) -> bool {
    match e.node {
        Expr::CompoundAssign { op, target, value } => match target.node {
            Expr::Ident(name) => if env.dom().contains(name@) {
                let t = env[name@].ty;
                let v = expr_ty(x, env, *value);
                &&& !env[name@].is_mut ==> immutable_appended(before, after, target.span, name@)
                &&& !compound_applies(x, op, t) && t != err_ty() ==> operator_appended(
                    before,
                    after,
                    e.span,
                    binop_variant_text(op),
                    ty_name(x, t),
                )
                &&& v != t && v != err_ty() && t != err_ty() ==> mismatch_appended(
                    before,
                    after,
                    value.span,
                    ty_name(x, t),
                    ty_name(x, v),
                )
            } else {
                undefined_appended(before, after, target.span, name@)
            },
            _ => true,
        },
        _ => true,
    }
}

/// What checking `start..end` reports: ends of two types, and ends that
/// are not integers.
pub open spec fn range_reported(
    x: TyCtx,
    env: Map<Seq<char>, LocalInfo>,
    e: SpannedExpr,
    before: Seq<CheckerDiagnostic>,
    after: Seq<CheckerDiagnostic>,
) -> bool {
    match e.node {
        Expr::Range { start, end, .. } => {
            let s = expr_ty(x, env, *start);
            let t = expr_ty(x, env, *end);
            &&& s != err_ty() && t != err_ty() && s != t ==> mismatch_appended(
                before,
                after,
                end.span,
                ty_name(x, s),
                ty_name(x, t),
            )
            &&& s != err_ty() && t != err_ty() && !kind_is_integer(ctx_kind(x, s)) ==> operator_appended(
                before,
                after,
                e.span,
                "range"@,
                ty_name(x, s),
            )
        },
        _ => true,
    }
}

/// What checking a `for` reports: iterating over something that is not a
/// range (and not already in error).
pub open spec fn for_reported(
    x: TyCtx,
    env: Map<Seq<char>, LocalInfo>,
    e: SpannedExpr,
    before: Seq<CheckerDiagnostic>,
    after: Seq<CheckerDiagnostic>,
) -> bool {
    match e.node {
        Expr::For { iter, .. } => {
            let t = expr_ty(x, env, *iter);
            !(iter.node is Range) && t != err_ty() ==> operator_appended(before, after, iter.span, "for-in"@, ty_name(x, t))
        },
        _ => true,
    }
}

pub fn binop_variant_name(op: BinOp) -> (s: String)
    ensures
        s@ == binop_variant_text(op),
{
    let t = match op {
        BinOp::Add => "add",
        BinOp::Sub => "sub",
        BinOp::Mul => "mul",
        BinOp::Div => "div",
        BinOp::Mod => "mod",
        BinOp::Shl => "shl",
        BinOp::Shr => "shr",
        BinOp::BitAnd => "bitand",
        BinOp::BitOr => "bitor",
        BinOp::BitXor => "bitxor",
        BinOp::Eq => "eq",
        BinOp::Ne => "ne",
        BinOp::Lt => "lt",
        BinOp::Le => "le",
        BinOp::Gt => "gt",
        BinOp::Ge => "ge",
        BinOp::And => "and",
        BinOp::Or => "or",
    };
    proof {
        reveal_strlit("add");
        reveal_strlit("sub");
        reveal_strlit("mul");
        reveal_strlit("div");
        reveal_strlit("mod");
        reveal_strlit("shl");
        reveal_strlit("shr");
        reveal_strlit("bitand");
        reveal_strlit("bitor");
        reveal_strlit("bitxor");
        reveal_strlit("eq");
        reveal_strlit("ne");
        reveal_strlit("lt");
        reveal_strlit("le");
        reveal_strlit("gt");
        reveal_strlit("ge");
        reveal_strlit("and");
        reveal_strlit("or");
    }
    String::from_str(t)
}

impl Checker {
    /// Check `target op= value`: the target must be a mutable local of a
    /// numeric type (an integer type for the bitwise operators), and the
    /// value must have the target's type; an unknown name is reported.  Any
    /// other target is not checked.
    pub fn check_compound_assign(&mut self, e: &SpannedExpr, locals: &mut ScopedLocals<LocalInfo>) -> (t: TypeId)
        requires
            old(self).well_formed(),
            e.node is CompoundAssign,
        ensures
            Self::body_frame(*old(self), *final(self)),
            final(locals).scopes() == old(locals).scopes(),
            t == expr_ty(ctx_of(*old(self)), env_of(*old(locals)), *e),
            compound_reported(
                ctx_of(*old(self)),
                env_of(*old(locals)),
                *e,
                old(self).diagnostics.diagnostics@,
                final(self).diagnostics.diagnostics@,
            ),
        decreases e, 1nat,
    {
        let ghost s0 = *self;
        proof {
            lemma_body_frame_refl(s0);
        }
        let (op, target, value) = match &e.node {
            Expr::CompoundAssign { op, target, value } => (op, target, value),
            _ => {
                return TypeId(0);
            },
        };
        let val_ty = self.check_expr(value, locals);
        let ghost s1 = *self;
        if let Expr::Ident(name) = &target.node {
            let info = match locals.get(name.as_str()) {
                Some(i) => Some(*i),
                None => None,
            };
            match info {
                Some(info) => {
                    if !info.is_mut {
                        self.report(
                            CheckerDiagnostic::ImmutableAssignment { span: target.span, name: name.clone() },
                        );
                        proof {
                            let d = self.diagnostics.diagnostics@;
                            let i = s1.diagnostics.diagnostics@.len() as int;
                            assert(d[i] matches CheckerDiagnostic::ImmutableAssignment { span: sp, name: n } && sp
                                == target.span && n@ == name@);
                            assert(immutable_appended(s0.diagnostics.diagnostics@, d, target.span, name@));
                        }
                    }
                    let ghost s2 = *self;
                    proof {
                        if info.is_mut {
                            lemma_body_frame_refl(s1);
                        }
                    }
                    let target_ty = info.ty;
                    let valid = match op {
                        BinOp::BitAnd | BinOp::BitOr | BinOp::BitXor => self.types.is_integer_type(target_ty),
                        _ => self.types.is_numeric(target_ty),
                    };
                    if !valid && target_ty != TypeId(ERROR_ID) {
                        let ty = self.types.display_name(target_ty);
                        self.report(
                            CheckerDiagnostic::InvalidOperatorType { span: e.span, op: binop_variant_name(*op), ty },
                        );
                        proof {
                            let d = self.diagnostics.diagnostics@;
                            assert(operator_report(d[d.len() - 1], e.span, binop_variant_text(*op), ty_name(ctx_of(s0), target_ty)));
                        }
                    }
                    let ghost s3 = *self;
                    proof {
                        if valid || target_ty == TypeId(ERROR_ID) {
                            lemma_body_frame_refl(s2);
                        }
                        lemma_body_frame_trans(s1, s2, s3);
                        lemma_appended_kept(s0, s2, s3);
                    }
                    if val_ty != target_ty && val_ty != TypeId(ERROR_ID) && target_ty != TypeId(ERROR_ID) {
                        self.report_mismatch(value.span, target_ty, val_ty);
                        proof {
                            let d = self.diagnostics.diagnostics@;
                            assert(mismatch_report(d[d.len() - 1], value.span, ty_name(ctx_of(s0), target_ty), ty_name(ctx_of(s0), val_ty)));
                        }
                    }
                    proof {
                        lemma_body_frame_trans(s1, s3, *self);
                        lemma_body_frame_trans(s0, s1, *self);
                        lemma_appended_kept(s0, s3, *self);
                    }
                },
                None => {
                    self.report(CheckerDiagnostic::UndefinedVariable { span: target.span, name: name.clone() });
                    proof {
                        lemma_body_frame_trans(s0, s1, *self);
                        let d = self.diagnostics.diagnostics@;
                        let i = s1.diagnostics.diagnostics@.len() as int;
                        assert(d[i] matches CheckerDiagnostic::UndefinedVariable { span: sp, name: n } && sp
                            == target.span && n@ == name@);
                        assert(undefined_appended(s0.diagnostics.diagnostics@, d, target.span, name@));
                    }
                },
            }
        }
        TypeId(0)
    }

    /// Check `object[index]`: the index must be an integer; a string's
    /// elements are characters, and nothing else can be indexed.
    pub fn check_index(&mut self, e: &SpannedExpr, locals: &mut ScopedLocals<LocalInfo>) -> (t: TypeId)
        requires
            old(self).well_formed(),
            e.node is IndexAccess,
        ensures
            Self::body_frame(*old(self), *final(self)),
            final(locals).scopes() == old(locals).scopes(),
            t == expr_ty(ctx_of(*old(self)), env_of(*old(locals)), *e),
        decreases e, 1nat,
    {
        let ghost s0 = *self;
        proof {
            lemma_body_frame_refl(s0);
        }
        let (object, index) = match &e.node {
            Expr::IndexAccess { object, index } => (object, index),
            _ => {
                return TypeId(ERROR_ID);
            },
        };
        let ot = self.check_expr(object, locals);
        let ghost s1 = *self;
        let it = self.check_expr(index, locals);
        let ghost s2 = *self;
        proof {
            lemma_body_frame_trans(s0, s1, s2);
        }
        if ot == TypeId(ERROR_ID) || it == TypeId(ERROR_ID) {
            return TypeId(ERROR_ID);
        }
        if !self.types.is_integer_type(it) {
            let ty = self.types.display_name(it);
            self.report(CheckerDiagnostic::InvalidOperatorType { span: index.span, op: String::from_str("index"), ty });
            proof {
                lemma_body_frame_trans(s0, s2, *self);
            }
            return TypeId(ERROR_ID);
        }
        if self.types.is_string(ot) {
            TypeId(12)
        } else {
            let ty = self.types.display_name(ot);
            self.report(CheckerDiagnostic::InvalidOperatorType { span: e.span, op: String::from_str("index"), ty });
            proof {
                lemma_body_frame_trans(s0, s2, *self);
            }
            TypeId(ERROR_ID)
        }
    }

    /// Check `start..end`: both ends must have the same type, an integer
    /// type; a range has the unit type (ranges serve `for` loops).
    pub fn check_range(&mut self, e: &SpannedExpr, locals: &mut ScopedLocals<LocalInfo>) -> (t: TypeId)
        requires
            old(self).well_formed(),
            e.node is Range,
        ensures
            Self::body_frame(*old(self), *final(self)),
            final(locals).scopes() == old(locals).scopes(),
            t == expr_ty(ctx_of(*old(self)), env_of(*old(locals)), *e),
            range_reported(
                ctx_of(*old(self)),
                env_of(*old(locals)),
                *e,
                old(self).diagnostics.diagnostics@,
                final(self).diagnostics.diagnostics@,
            ),
        decreases e, 1nat,
    {
        let ghost s0 = *self;
        proof {
            lemma_body_frame_refl(s0);
        }
        let (start, end) = match &e.node {
            Expr::Range { start, end, .. } => (start, end),
            _ => {
                return TypeId(0);
            },
        };
        let st = self.check_expr(start, locals);
        let ghost s1 = *self;
        let et = self.check_expr(end, locals);
        let ghost s2 = *self;
        proof {
            lemma_body_frame_trans(s0, s1, s2);
        }
        if st == TypeId(ERROR_ID) || et == TypeId(ERROR_ID) {
            return TypeId(0);
        }
        if st != et {
            self.report_mismatch(end.span, st, et);
            proof {
                let d = self.diagnostics.diagnostics@;
                assert(mismatch_report(d[d.len() - 1], end.span, ty_name(ctx_of(s0), st), ty_name(ctx_of(s0), et)));
            }
        }
        let ghost s3 = *self;
        proof {
            if st == et {
                lemma_body_frame_refl(s2);
            }
            lemma_body_frame_trans(s0, s2, s3);
        }
        if !self.types.is_integer_type(st) {
            let ty = self.types.display_name(st);
            self.report(CheckerDiagnostic::InvalidOperatorType { span: e.span, op: String::from_str("range"), ty });
            proof {
                lemma_body_frame_trans(s0, s3, *self);
                lemma_appended_kept(s0, s3, *self);
                let d = self.diagnostics.diagnostics@;
                assert(operator_report(d[d.len() - 1], e.span, "range"@, ty_name(ctx_of(s0), st)));
            }
        }
        TypeId(0)
    }

    /// Check `for binding in iter { body }`: over a range the binding has
    /// the type of the range's start (checked again for it); anything else
    /// cannot be iterated (the error is reported unless its type is already
    /// the error type) and the binding has the error type.  The body is
    /// checked in a scope of its own holding the binding.
    pub fn check_for(&mut self, e: &SpannedExpr, locals: &mut ScopedLocals<LocalInfo>) -> (t: TypeId)
        requires
            old(self).well_formed(),
            e.node is For,
        ensures
            Self::body_frame(*old(self), *final(self)),
            final(locals).scopes() == old(locals).scopes(),
            t == expr_ty(ctx_of(*old(self)), env_of(*old(locals)), *e),
            for_reported(
                ctx_of(*old(self)),
                env_of(*old(locals)),
                *e,
                old(self).diagnostics.diagnostics@,
                final(self).diagnostics.diagnostics@,
            ),
        decreases e, 1nat,
    {
        let ghost s0 = *self;
        let ghost sc0 = locals.scopes();
        proof {
            lemma_body_frame_refl(s0);
        }
        let (binding, iter, body) = match &e.node {
            Expr::For { binding, iter, body } => (binding, iter, body),
            _ => {
                return TypeId(0);
            },
        };
        let iter_ty = self.check_expr(iter, locals);
        let ghost s1 = *self;
        let elem_ty = match &iter.node {
            Expr::Range { start, .. } => self.check_expr(start, locals),
            _ => {
                if iter_ty != TypeId(ERROR_ID) {
                    let ty = self.types.display_name(iter_ty);
                    self.report(
                        CheckerDiagnostic::InvalidOperatorType { span: iter.span, op: String::from_str("for-in"), ty },
                    );
                    proof {
                        let d = self.diagnostics.diagnostics@;
                        assert(operator_report(d[d.len() - 1], iter.span, "for-in"@, ty_name(ctx_of(s0), iter_ty)));
                    }
                } else {
                    proof {
                        lemma_body_frame_refl(s1);
                    }
                }
                TypeId(ERROR_ID)
            },
        };
        let ghost s2 = *self;
        proof {
            lemma_body_frame_trans(s0, s1, s2);
        }
        locals.push_scope();
        locals.insert(binding.clone(), LocalInfo { ty: elem_ty, is_mut: false, def_span: e.span });
        self.check_block(&body.node, locals);
        locals.pop_scope();
        assert(locals.scopes() =~= sc0);
        proof {
            lemma_body_frame_trans(s0, s2, *self);
            lemma_appended_kept(s0, s2, *self);
        }
        TypeId(0)
    }

    /// Check `expr as Type`: casts are allowed between numeric types, from
    /// `bool` or `char` to an integer type, from an integer type to `char`,
    /// and between `RawPtr` and `MutRawPtr` or `CStr`; any other cast is
    /// reported and has the error type.
    pub fn check_cast(&mut self, e: &SpannedExpr, locals: &mut ScopedLocals<LocalInfo>) -> (t: TypeId)
        requires
            old(self).well_formed(),
            e.node is Cast,
        ensures
            Self::body_frame(*old(self), *final(self)),
            final(locals).scopes() == old(locals).scopes(),
            t == expr_ty(ctx_of(*old(self)), env_of(*old(locals)), *e),
            own_report(
                ctx_of(*old(self)),
                env_of(*old(locals)),
                *e,
                final(self).diagnostics.diagnostics@.last(),
            ),
        decreases e, 1nat,
    {
        let ghost s0 = *self;
        proof {
            lemma_body_frame_refl(s0);
        }
        let (inner, target) = match &e.node {
            Expr::Cast { expr, target_type } => (expr, target_type),
            _ => {
                return TypeId(ERROR_ID);
            },
        };
        let s = self.check_expr(inner, locals);
        let ghost s1 = *self;
        let d = self.resolve_type(target);
        let ghost s2 = *self;
        assert(Self::body_frame(s1, s2));
        proof {
            lemma_body_frame_trans(s0, s1, s2);
        }
        let t = self.apply_cast(e, s, d);
        proof {
            lemma_body_frame_trans(s0, s2, *self);
        }
        t
    }

    /// Cast a value of type `s` to type `d` as `e` says: a type that is the
    /// error type gives the error type and no report; a cast the rules
    /// refuse is reported once and gives the error type; an allowed cast
    /// gives `d`.
    pub fn apply_cast(&mut self, e: &SpannedExpr, s: TypeId, d: TypeId) -> (t: TypeId)
        requires
            old(self).well_formed(),
            e.node is Cast,
        ensures
            Self::body_frame(*old(self), *final(self)),
            t == cast_ty(ctx_of(*old(self)), s, d),
            cast_reported(
                ctx_of(*old(self)),
                *e,
                s,
                d,
                old(self).diagnostics.diagnostics@,
                final(self).diagnostics.diagnostics@,
            ),
            final(self).diagnostics.diagnostics@ == old(self).diagnostics.diagnostics@ ==> final(self).diagnostics
                == old(self).diagnostics,
    {
        let ghost s2 = *self;
        proof {
            lemma_body_frame_refl(s2);
        }
        let inner = match &e.node {
            Expr::Cast { expr, .. } => expr,
            _ => {
                return TypeId(ERROR_ID);
            },
        };
        if s == TypeId(ERROR_ID) || d == TypeId(ERROR_ID) {
            return TypeId(ERROR_ID);
        }
        let valid = (self.types.is_numeric(s) && self.types.is_numeric(d)) || (s == TypeId(11)
            && self.types.is_integer_type(d)) || (s == TypeId(12) && self.types.is_integer_type(d))
            || (self.types.is_integer_type(s) && d == TypeId(12)) || (s == TypeId(14) && d == TypeId(
            15,
        )) || (s == TypeId(15) && d == TypeId(14)) || (s == TypeId(14) && d == TypeId(16)) || (s
            == TypeId(16) && d == TypeId(14));
        if !valid {
            let mut shown = self.types.display_name(s);
            shown.append(" as ");
            let dn = self.types.display_name(d);
            shown.append(dn.as_str());
            self.report(
                CheckerDiagnostic::InvalidOperatorType { span: inner.span, op: String::from_str("as"), ty: shown },
            );
            return TypeId(ERROR_ID);
        }
        d
    }

    /// Type-check a binary operation: both operands, then the operator on their types (or a user method that overloads it).
    pub fn check_binary(&mut self, e: &SpannedExpr, locals: &mut ScopedLocals<LocalInfo>) -> (t: TypeId)
        requires
            old(self).well_formed(),
            e.node is Binary,
        ensures
            Self::body_frame(*old(self), *final(self)),
            final(locals).scopes() == old(locals).scopes(),
            t == expr_ty(ctx_of(*old(self)), env_of(*old(locals)), *e),
            own_report(
                ctx_of(*old(self)),
                env_of(*old(locals)),
                *e,
                final(self).diagnostics.diagnostics@.last(),
            ),
            clean(ctx_of(*old(self)), env_of(*old(locals)), *e) ==> final(self).diagnostics
                == old(self).diagnostics,
            operation_reports(
                ctx_of(*old(self)),
                env_of(*old(locals)),
                *e,
                old(self).diagnostics.diagnostics@,
                final(self).diagnostics.diagnostics@,
            ),
        decreases e, 1nat,
    {
        let ghost s0 = *self;
        proof {
            lemma_body_frame_refl(s0);
        }
        let (op, left, right) = match &e.node {
            Expr::Binary { op, left, right } => (op, left, right),
            _ => {
                return TypeId(ERROR_ID);
            },
        };
        let lt = self.check_expr(left, locals);
        let ghost s1 = *self;
        let rt = self.check_expr(right, locals);
        let ghost s2 = *self;
        proof {
            lemma_body_frame_trans(s0, s1, s2);
        }
        let t = self.apply_binary(e, lt, rt);
        proof {
            lemma_body_frame_trans(s0, s2, *self);
        }
        t
    }

    /// Apply the operator of a binary operation to operands of types `lt`
    /// and `rt`: an operand of the error type gives the error type and no
    /// report; a method that overloads the operator gives its return type;
    /// otherwise the operator's rule decides, and an ill-typed operation is
    /// reported once.
    pub fn apply_binary(&mut self, e: &SpannedExpr, lt: TypeId, rt: TypeId) -> (t: TypeId)
        requires
            old(self).well_formed(),
            e.node is Binary,
        ensures
            Self::body_frame(*old(self), *final(self)),
            t == binary_ty(ctx_of(*old(self)), e.node->Binary_op, lt, rt),
            binary_reported(
                ctx_of(*old(self)),
                *e,
                lt,
                rt,
                old(self).diagnostics.diagnostics@,
                final(self).diagnostics.diagnostics@,
            ),
            final(self).diagnostics.diagnostics@ == old(self).diagnostics.diagnostics@ ==> final(self).diagnostics
                == old(self).diagnostics,
    {
        let ghost s2 = *self;
        proof {
            lemma_body_frame_refl(s2);
        }
        let (op, right) = match &e.node {
            Expr::Binary { op, right, .. } => (op, right),
            _ => {
                return TypeId(ERROR_ID);
            },
        };
        if lt == TypeId(ERROR_ID) || rt == TypeId(ERROR_ID) {
            return TypeId(ERROR_ID);
        }
        if let Some(m) = binop_method(*op) {
            let tn = self.types.display_name(lt);
            let mname = String::from_str(m);
            let key = mangle(&tn, &mname);
            if let Some(sig) = self.functions.get_by_key(&key) {
                return sig.return_type;
            }
        }
        if lt != rt {
            self.report_mismatch(right.span, lt, rt);
            return TypeId(ERROR_ID);
        }
        let valid = match op {
            BinOp::Add | BinOp::Sub | BinOp::Mul | BinOp::Div | BinOp::Mod | BinOp::Shl
            | BinOp::Shr => self.types.is_numeric(lt),
            BinOp::BitAnd | BinOp::BitOr | BinOp::BitXor => self.types.is_integer_type(lt),
            BinOp::Eq | BinOp::Ne | BinOp::Lt | BinOp::Le | BinOp::Gt | BinOp::Ge => true,
            BinOp::And | BinOp::Or => lt == TypeId(11),
        };
        if !valid {
            let tn = self.types.display_name(lt);
            self.report(
                CheckerDiagnostic::InvalidOperatorType { span: e.span, op: binop_name(*op), ty: tn },
            );
            return TypeId(ERROR_ID);
        }
        match op {
            BinOp::Eq | BinOp::Ne | BinOp::Lt | BinOp::Le | BinOp::Gt | BinOp::Ge
            | BinOp::And | BinOp::Or => TypeId(11),
            _ => lt,
        }
    }

    /// Type-check a unary operation: its operand, then the operator on its type.
    pub fn check_unary(&mut self, e: &SpannedExpr, locals: &mut ScopedLocals<LocalInfo>) -> (t: TypeId)
        requires
            old(self).well_formed(),
            e.node is Unary,
        ensures
            Self::body_frame(*old(self), *final(self)),
            final(locals).scopes() == old(locals).scopes(),
            t == expr_ty(ctx_of(*old(self)), env_of(*old(locals)), *e),
            own_report(
                ctx_of(*old(self)),
                env_of(*old(locals)),
                *e,
                final(self).diagnostics.diagnostics@.last(),
            ),
            clean(ctx_of(*old(self)), env_of(*old(locals)), *e) ==> final(self).diagnostics
                == old(self).diagnostics,
            operation_reports(
                ctx_of(*old(self)),
                env_of(*old(locals)),
                *e,
                old(self).diagnostics.diagnostics@,
                final(self).diagnostics.diagnostics@,
            ),
        decreases e, 1nat,
    {
        let ghost s0 = *self;
        proof {
            lemma_body_frame_refl(s0);
        }
        let (op, operand) = match &e.node {
            Expr::Unary { op, operand } => (op, operand),
            _ => {
                return TypeId(ERROR_ID);
            },
        };
        let t = self.check_expr(operand, locals);
        let ghost s1 = *self;
        let r = self.apply_unary(e, t);
        proof {
            lemma_body_frame_trans(s0, s1, *self);
        }
        r
    }

    /// Apply the operator of a unary operation to an operand of type `t`:
    /// an operand of the error type gives the error type and no report;
    /// otherwise the operator's rule decides, and an ill-typed operation is
    /// reported once.
    pub fn apply_unary(&mut self, e: &SpannedExpr, t: TypeId) -> (r: TypeId)
        requires
            old(self).well_formed(),
            e.node is Unary,
        ensures
            Self::body_frame(*old(self), *final(self)),
            r == unary_ty(ctx_of(*old(self)), e.node->Unary_op, t),
            unary_reported(
                ctx_of(*old(self)),
                *e,
                t,
                old(self).diagnostics.diagnostics@,
                final(self).diagnostics.diagnostics@,
            ),
            final(self).diagnostics.diagnostics@ == old(self).diagnostics.diagnostics@ ==> final(self).diagnostics
                == old(self).diagnostics,
    {
        let ghost s1 = *self;
        proof {
            lemma_body_frame_refl(s1);
        }
        let op = match &e.node {
            Expr::Unary { op, .. } => op,
            _ => {
                return TypeId(ERROR_ID);
            },
        };
        if t == TypeId(ERROR_ID) {
            return TypeId(ERROR_ID);
        }
        let (valid, sym) = match op {
            UnaryOp::Neg => (self.types.is_signed_or_float(t), "-"),
            UnaryOp::Not => (t == TypeId(11), "!"),
            UnaryOp::BitNot => (self.types.is_integer_type(t), "~"),
        };
        if !valid {
            let tn = self.types.display_name(t);
            self.report(
                CheckerDiagnostic::InvalidOperatorType {
                    span: e.span,
                    op: String::from_str(sym),
                    ty: tn,
                },
            );
            return TypeId(ERROR_ID);
        }
        match op {
            UnaryOp::Not => TypeId(11),
            _ => t,
        }
    }

    /// Type-check a field access: the object, then the field on its struct type.
    pub fn check_field_access(&mut self, e: &SpannedExpr, locals: &mut ScopedLocals<LocalInfo>) -> (t: TypeId)
        requires
            old(self).well_formed(),
            e.node is FieldAccess,
        ensures
            Self::body_frame(*old(self), *final(self)),
            final(locals).scopes() == old(locals).scopes(),
            t == expr_ty(ctx_of(*old(self)), env_of(*old(locals)), *e),
            own_report(
                ctx_of(*old(self)),
                env_of(*old(locals)),
                *e,
                final(self).diagnostics.diagnostics@.last(),
            ),
        decreases e, 1nat,
    {
        let ghost s0 = *self;
        proof {
            lemma_body_frame_refl(s0);
        }
        let (object, field) = match &e.node {
            Expr::FieldAccess { object, field } => (object, field),
            _ => {
                return TypeId(ERROR_ID);
            },
        };
        let obj_ty = self.check_expr(object, locals);
        let ghost s1 = *self;
        if obj_ty == TypeId(ERROR_ID) {
            return TypeId(ERROR_ID);
        }
        let (sname, fty) = match self.types.resolve(obj_ty) {
            TypeKind::Struct { name, fields, .. } => {
                let r = field_index(fields, field);
                proof {
                    lemma_field_ty(fields@, field@, r);
                }
                match r {
                    Some(j) => (Some(name.clone()), Some(fields[j].1)),
                    None => (Some(name.clone()), None),
                }
            },
            _ => (None, None),
        };
        match (sname, fty) {
            (_, Some(ft)) => ft,
            (Some(sn), None) => {
                self.report(
                    CheckerDiagnostic::UnknownField { span: e.span, name: sn, field: field.clone() },
                );
                proof {
                    lemma_body_frame_trans(s0, s1, *self);
                }
                TypeId(ERROR_ID)
            },
            (None, None) => {
                let tn = self.types.display_name(obj_ty);
                self.report(CheckerDiagnostic::FieldAccessOnNonStruct { span: e.span, ty: tn });
                proof {
                    lemma_body_frame_trans(s0, s1, *self);
                }
                TypeId(ERROR_ID)
            },
        }
    }

    /// The type of `e?` when `e` has type `t`: what the `Some` of an
    /// `Option` or the `Ok` of a `Result` holds; any other type is left as
    /// it is.
    pub fn unwrapped_type(&self, t: TypeId) -> (r: TypeId)
        ensures
            r == unwrapped_ty(ctx_of(*self), t),
    {
        match self.types.resolve(t) {
            TypeKind::Enum { name, variants } => {
                let want = if in_family_exec(name, "Option") {
                    Some("Some")
                } else if in_family_exec(name, "Result") {
                    Some("Ok")
                } else {
                    None
                };
                if let Some(v) = want {
                    let vname = String::from_str(v);
                    let found = variant_index(variants, &vname);
                    proof {
                        lemma_variant_named(variants@, vname@, found);
                    }
                    if let Some(i) = found {
                        if variants[i].fields.len() > 0 {
                            return variants[i].fields[0].1;
                        }
                    }
                }
                t
            },
            _ => t,
        }
    }
}

} // verus!
