use vstd::prelude::*;

use super::expr::{
    arg_values, copy_fields, count_appended, lemma_body_frame_refl, lemma_body_frame_symbols,
    lemma_body_frame_trans, lemma_count_kept, lemma_env_same, lemma_mismatch_widen, mismatch_appended,
    mismatch_report, values_reported,
};
use super::typing::{
    err_ty, ty_name, arms_ty, ctx_of, enum_variant_fields, env_of, expr_ty, lemma_field_ty, lemma_variant_named,
    let_pats_env, let_pattern_env, let_struct_pats_env, nth_field_ty, pats_env, pattern_env,
    struct_pats_env,
};
use super::expr::is_unsuffixed_int_literal;
use super::{mangle, Checker, FunctionSig, LocalInfo};
use crate::ast::{CallArg, Expr, Pattern, SpannedExpr};
use crate::diagnostic::{decimal, to_decimal, CheckerDiagnostic};
use crate::scoped_locals::{find_binding, ScopedLocals};
use crate::span::{Span, Spanned};
use crate::symbol_table::{DefinitionInfo, SymbolKind};
use crate::types::{field_index, fields_view, variant_index, TypeId, ERROR_ID};

verus! {

impl Checker {
    /// The field types of the variant `variant` of the enum type `t`, when
    /// `t` is an enum with such a variant.
    pub fn variant_field_types(&self, t: TypeId, variant: &String) -> (r: Option<Vec<TypeId>>)
        ensures
            match r {
                Some(fts) => enum_variant_fields(ctx_of(*self), t, variant@) matches Some(fs) && fts@.len()
                    == fs.len() && forall|i: int| 0 <= i < fs.len() ==> #[trigger] fts@[i] == fs[i].1,
                None => enum_variant_fields(ctx_of(*self), t, variant@) is None,
            },
    {
        match self.types.enum_variants(t) {
            Some(vs) => {
                let r = variant_index(vs, variant);
                proof {
                    lemma_variant_named(vs@, variant@, r);
                }
                match r {
                    Some(j) => {
                        let fs = &vs[j].fields;
                        let mut fts: Vec<TypeId> = Vec::new();
                        let mut i: usize = 0;
                        while i < fs.len()
                            invariant
                                i <= fs@.len(),
                                fts@.len() == i,
                                forall|k: int| 0 <= k < i ==> #[trigger] fts@[k] == fs@[k].1,
                            decreases fs@.len() - i,
                        {
                            fts.push(fs[i].1);
                            i = i + 1;
                        }
                        proof {
                            assert forall|k: int| 0 <= k < fields_view(fs@).len() implies #[trigger] fts@[k]
                                == fields_view(fs@)[k].1 by {}
                        }
                        Some(fts)
                    },
                    None => None,
                }
            },
            None => None,
        }
    }

    /// Check the arguments of a variant constructor `Enum::Variant(..)`:
    /// a wrong number of them is reported, then each is checked against the
    /// type of its field.
    pub fn check_variant_call_args(
        &mut self,
        span: Span,
        fts: &Vec<TypeId>,
        args: &Vec<CallArg>,
        locals: &mut ScopedLocals<LocalInfo>,
    )
        requires
            old(self).well_formed(),
        ensures
            Self::body_frame(*old(self), *final(self)),
            final(locals).scopes() == old(locals).scopes(),
            args@.len() != fts@.len() ==> count_appended(
                old(self).diagnostics.diagnostics@,
                final(self).diagnostics.diagnostics@,
                span,
                fts@.len(),
                args@.len(),
            ),
            values_reported(
                ctx_of(*old(self)),
                env_of(*old(locals)),
                fts@,
                arg_values(args@),
                old(self).diagnostics.diagnostics@,
                final(self).diagnostics.diagnostics@,
            ),
        decreases args, 1nat,
    {
        let ghost s0 = *self;
        proof {
            lemma_body_frame_refl(s0);
        }
        if args.len() != fts.len() {
            let d = CheckerDiagnostic::ArgumentCountMismatch {
                span,
                expected: to_decimal(fts.len()),
                found: to_decimal(args.len()),
            };
            self.report(d);
            proof {
                let dd = self.diagnostics.diagnostics@;
                assert(dd[dd.len() - 1] matches CheckerDiagnostic::ArgumentCountMismatch { span: sp, expected: ex, found: fo }
                    && sp == span && ex@ == decimal(fts@.len()) && fo@ == decimal(args@.len()));
            }
        }
        let ghost s1 = *self;
        self.check_ctor_args(fts, args, locals);
        proof {
            lemma_body_frame_trans(s0, s1, *self);
            let d0 = s0.diagnostics.diagnostics@;
            let d1 = s1.diagnostics.diagnostics@;
            let dn = self.diagnostics.diagnostics@;
            if args@.len() != fts@.len() {
                lemma_count_kept(d0, d1, dn, span, fts@.len(), args@.len());
            }
            let x = ctx_of(s0);
            let env = env_of(*old(locals));
            let vals = arg_values(args@);
            assert forall|j: int| 0 <= j < vals.len() && j < fts@.len() implies {
                let v = expr_ty(x, env, #[trigger] vals[j]);
                v != fts@[j] && v != err_ty() && fts@[j] != err_ty() ==> mismatch_appended(
                    d0,
                    dn,
                    vals[j].span,
                    ty_name(x, fts@[j]),
                    ty_name(x, v),
                )
            } by {
                let v = expr_ty(x, env, vals[j]);
                if v != fts@[j] && v != err_ty() && fts@[j] != err_ty() {
                    lemma_mismatch_widen(d0, d1, dn, dn, vals[j].span, ty_name(x, fts@[j]), ty_name(x, v));
                }
            }
        }
    }

    /// Check the arguments of a variant literal against the types of the
    /// variant's fields, by position; a wrong number of them is reported
    /// first.
    fn check_variant_exprs(
        &mut self,
        span: Span,
        fts: &Vec<TypeId>,
        args: &Vec<SpannedExpr>,
        locals: &mut ScopedLocals<LocalInfo>,
    )
        requires
            old(self).well_formed(),
        ensures
            Self::body_frame(*old(self), *final(self)),
            final(locals).scopes() == old(locals).scopes(),
            args@.len() != fts@.len() ==> count_appended(
                old(self).diagnostics.diagnostics@,
                final(self).diagnostics.diagnostics@,
                span,
                fts@.len(),
                args@.len(),
            ),
            values_reported(
                ctx_of(*old(self)),
                env_of(*old(locals)),
                fts@,
                args@,
                old(self).diagnostics.diagnostics@,
                final(self).diagnostics.diagnostics@,
            ),
        decreases args, 0nat,
    {
        let ghost s0 = *self;
        let ghost x = ctx_of(*self);
        let ghost env = env_of(*locals);
        proof {
            lemma_body_frame_refl(s0);
        }
        if args.len() != fts.len() {
            let d = CheckerDiagnostic::ArgumentCountMismatch {
                span,
                expected: to_decimal(fts.len()),
                found: to_decimal(args.len()),
            };
            self.report(d);
            proof {
                let dd = self.diagnostics.diagnostics@;
                assert(dd[dd.len() - 1] matches CheckerDiagnostic::ArgumentCountMismatch { span: sp, expected: ex, found: fo }
                    && sp == span && ex@ == decimal(fts@.len()) && fo@ == decimal(args@.len()));
            }
        }
        let ghost sc = *self;
        let mut i: usize = 0;
        while i < args.len()
            invariant
                i <= args@.len(),
                Self::body_frame(s0, *self),
                Self::body_frame(sc, *self),
                s0.diagnostics.diagnostics@.len() <= sc.diagnostics.diagnostics@.len(),
                locals.scopes() == old(locals).scopes(),
                x == ctx_of(s0),
                env == env_of(*old(locals)),
                args@.len() != fts@.len() ==> count_appended(
                    s0.diagnostics.diagnostics@,
                    sc.diagnostics.diagnostics@,
                    span,
                    fts@.len(),
                    args@.len(),
                ),
                values_reported(
                    x,
                    env,
                    fts@,
                    args@.take(i as int),
                    s0.diagnostics.diagnostics@,
                    self.diagnostics.diagnostics@,
                ),
            decreases args@.len() - i,
        {
            let ghost s2 = *self;
            let arg_ty = self.check_expr(&args[i], locals);
            let ghost s3 = *self;
            if i < fts.len() {
                let ft = fts[i];
                if arg_ty != ft && arg_ty != TypeId(ERROR_ID) && ft != TypeId(ERROR_ID) {
                    self.report_mismatch(args[i].span, ft, arg_ty);
                    proof {
                        let d = self.diagnostics.diagnostics@;
                        assert(mismatch_report(d[d.len() - 1], args[i as int].span, ty_name(x, ft), ty_name(x, arg_ty)));
                        assert(mismatch_appended(s3.diagnostics.diagnostics@, d, args[i as int].span, ty_name(x, ft), ty_name(x, arg_ty)));
                    }
                }
            }
            proof {
                lemma_body_frame_trans(s2, s3, *self);
                lemma_body_frame_trans(s0, s2, *self);
                lemma_body_frame_trans(sc, s2, *self);
                let d0 = s0.diagnostics.diagnostics@;
                let d2 = s2.diagnostics.diagnostics@;
                let d3 = s3.diagnostics.diagnostics@;
                let dn = self.diagnostics.diagnostics@;
                let vals = args@;
                assert forall|j: int| 0 <= j < vals.take(i + 1).len() && j < fts@.len() implies {
                    let v = expr_ty(x, env, #[trigger] vals.take(i + 1)[j]);
                    v != fts@[j] && v != err_ty() && fts@[j] != err_ty() ==> mismatch_appended(
                        d0,
                        dn,
                        vals.take(i + 1)[j].span,
                        ty_name(x, fts@[j]),
                        ty_name(x, v),
                    )
                } by {
                    let v = expr_ty(x, env, vals.take(i + 1)[j]);
                    if v != fts@[j] && v != err_ty() && fts@[j] != err_ty() {
                        if j < i {
                            assert(vals.take(i + 1)[j] == vals.take(i as int)[j]);
                            lemma_mismatch_widen(d0, d0, d2, dn, vals[j].span, ty_name(x, fts@[j]), ty_name(x, v));
                        } else {
                            lemma_mismatch_widen(d0, d3, dn, dn, vals[j].span, ty_name(x, fts@[j]), ty_name(x, v));
                        }
                    }
                }
            }
            i = i + 1;
        }
        proof {
            assert(args@.take(i as int) =~= args@);
            if args@.len() != fts@.len() {
                lemma_count_kept(
                    s0.diagnostics.diagnostics@,
                    sc.diagnostics.diagnostics@,
                    self.diagnostics.diagnostics@,
                    span,
                    fts@.len(),
                    args@.len(),
                );
            }
        }
    }

    /// Check `Enum::Variant(args)`: the arguments of a known variant against
    /// its fields, an unknown variant of a known enum, or else a static
    /// function `Enum__Variant`; an unknown name is reported.
    pub fn check_enum_literal(&mut self, e: &SpannedExpr, locals: &mut ScopedLocals<LocalInfo>) -> (t: TypeId)
        requires
            old(self).well_formed(),
            e.node is EnumLiteral,
        ensures
            Self::body_frame(*old(self), *final(self)),
            final(locals).scopes() == old(locals).scopes(),
            t == expr_ty(ctx_of(*old(self)), env_of(*old(locals)), *e),
        decreases e, 1nat,
    {
        let ghost s0 = *self;
        proof {
            lemma_body_frame_refl(s0);
        }
        let (enum_name, variant, args) = match &e.node {
            Expr::EnumLiteral { enum_name, variant, args } => (enum_name, variant, args),
            _ => {
                return TypeId(ERROR_ID);
            },
        };
        match find_binding(&self.enums, enum_name) {
            Some(i) => {
                let et = self.enums[i].1;
                if !self.types.is_enum(et) {
                    return TypeId(ERROR_ID);
                }
                match self.variant_field_types(et, variant) {
                    Some(fts) => {
                        self.check_variant_exprs(e.span, &fts, args, locals);
                    },
                    None => {
                        self.report(
                            CheckerDiagnostic::UnknownField {
                                span: e.span,
                                name: enum_name.clone(),
                                field: variant.clone(),
                            },
                        );
                    },
                }
                et
            },
            None => {
                let key = mangle(enum_name, variant);
                let found = match self.functions.get_by_key(&key) {
                    Some(sig) => Some(sig.duplicate()),
                    None => None,
                };
                match found {
                    Some(sig) => self.check_positional_call(e.span, &sig, args, locals),
                    None => {
                        self.report(
                            CheckerDiagnostic::UndefinedStruct { span: e.span, name: enum_name.clone() },
                        );
                        TypeId(ERROR_ID)
                    },
                }
            },
        }
    }

    /// Check the arguments of a call made with positional arguments only:
    /// each against the type of its parameter; one more argument than there
    /// are parameters is reported once and ends the checking; every required
    /// parameter left without an argument is reported, in order.
    fn check_positional_call(
        &mut self,
        call_span: Span,
        sig: &FunctionSig,
        args: &Vec<SpannedExpr>,
        locals: &mut ScopedLocals<LocalInfo>,
    ) -> (t: TypeId)
        requires
            old(self).well_formed(),
        ensures
            Self::body_frame(*old(self), *final(self)),
            final(locals).scopes() == old(locals).scopes(),
            t == sig.return_type,
        decreases args, 0nat,
    {
        let ghost s0 = *self;
        proof {
            lemma_body_frame_refl(s0);
        }
        let n = sig.params.len();
        let mut i: usize = 0;
        while i < args.len()
            invariant
                i <= args@.len(),
                i <= n,
                n == sig.params@.len(),
                s0 == *old(self),
                Self::body_frame(s0, *self),
                locals.scopes() == old(locals).scopes(),
            decreases args@.len() - i,
        {
            let ghost s1 = *self;
            if i == n {
                self.report(
                    CheckerDiagnostic::ArgumentCountMismatch {
                        span: call_span,
                        expected: to_decimal(n),
                        found: to_decimal(args.len()),
                    },
                );
                proof {
                    lemma_body_frame_trans(s0, s1, *self);
                }
                return sig.return_type;
            }
            let param_ty = sig.params[i].1;
            let arg_ty = self.check_expr(&args[i], locals);
            let ghost s2 = *self;
            let coercible = is_unsuffixed_int_literal(&args[i].node) && self.types.is_integer_type(
                param_ty,
            );
            if arg_ty != param_ty && arg_ty != TypeId(ERROR_ID) && param_ty != TypeId(ERROR_ID)
                && !coercible {
                self.report_mismatch(args[i].span, param_ty, arg_ty);
            }
            proof {
                lemma_body_frame_trans(s1, s2, *self);
                lemma_body_frame_trans(s0, s1, *self);
            }
            i = i + 1;
        }
        let mut p: usize = args.len();
        while p < n
            invariant
                p <= n,
                n == sig.params@.len(),
                Self::body_frame(s0, *self),
                locals.scopes() == old(locals).scopes(),
            decreases n - p,
        {
            let required = if p < sig.has_default.len() {
                !sig.has_default[p]
            } else {
                true
            };
            if required {
                let ghost s1 = *self;
                self.report(
                    CheckerDiagnostic::MissingRequiredArgument {
                        span: call_span,
                        name: sig.params[p].0.clone(),
                    },
                );
                proof {
                    lemma_body_frame_trans(s0, s1, *self);
                }
            }
            p = p + 1;
        }
        sig.return_type
    }

    /// Record the names a pattern binds, matched against a value of type
    /// `t`, in the innermost scope: a binding takes the type of what it
    /// matches, the fields of a variant or struct pattern the types of
    /// their fields.
    pub fn check_pattern(&self, p: &Spanned<Pattern>, t: TypeId, locals: &mut ScopedLocals<LocalInfo>)
        ensures
            final(locals).depth() == old(locals).depth(),
            final(locals).scopes().drop_last() == old(locals).scopes().drop_last(),
            env_of(*final(locals)) == pattern_env(ctx_of(*self), env_of(*old(locals)), *p, t),
        decreases p, 1nat,
    {
        match &p.node {
            Pattern::Wildcard => {},
            Pattern::Literal(_) => {},
            Pattern::Binding(name) => {
                let ghost before = *locals;
                let info = LocalInfo { ty: t, is_mut: false, def_span: p.span };
                locals.insert(name.clone(), info);
                proof {
                    assert(env_of(*locals) =~= env_of(before).insert(name@, info));
                }
            },
            Pattern::Enum { enum_name, variant, fields } => {
                let et: Option<TypeId> = match enum_name {
                    Some(n) => match find_binding(&self.enums, n) {
                        Some(i) => Some(self.enums[i].1),
                        None => None,
                    },
                    None => if self.types.is_enum(t) {
                        Some(t)
                    } else {
                        None
                    },
                };
                match et {
                    Some(et) => {
                        match self.types.enum_variants(et) {
                            Some(vs) => {
                                let r = variant_index(vs, variant);
                                proof {
                                    lemma_variant_named(vs@, variant@, r);
                                }
                                match r {
                                    Some(j) => self.check_subpatterns(fields, &vs[j].fields, locals),
                                    None => {},
                                }
                            },
                            None => {},
                        }
                    },
                    None => {
                        if t == TypeId(ERROR_ID) {
                            let none: Vec<(String, TypeId)> = Vec::new();
                            assert(fields_view(none@) =~= Seq::empty());
                            self.check_subpatterns(fields, &none, locals);
                        }
                    },
                }
            },
            Pattern::Struct { name, fields } => {
                let st = match find_binding(&self.structs, name) {
                    Some(i) => self.structs[i].1,
                    None => t,
                };
                match self.types.struct_fields(st) {
                    Some(sfs) => self.check_struct_subpatterns(fields, sfs, locals),
                    None => {},
                }
            },
        }
    }

    /// Record the names the sub-patterns of a variant pattern bind, the
    /// `i`-th matched against the `i`-th field type (the error type past
    /// the last field).
    fn check_subpatterns(
        &self,
        pats: &Vec<Spanned<Pattern>>,
        fs: &Vec<(String, TypeId)>,
        locals: &mut ScopedLocals<LocalInfo>,
    )
        ensures
            final(locals).depth() == old(locals).depth(),
            final(locals).scopes().drop_last() == old(locals).scopes().drop_last(),
            env_of(*final(locals)) == pats_env(
                ctx_of(*self),
                env_of(*old(locals)),
                pats@,
                fields_view(fs@),
                pats@.len(),
            ),
        decreases pats, 0nat,
    {
        let ghost env0 = env_of(*locals);
        let ghost x = ctx_of(*self);
        let mut i: usize = 0;
        while i < pats.len()
            invariant
                i <= pats@.len(),
                locals.depth() == old(locals).depth(),
                locals.scopes().drop_last() == old(locals).scopes().drop_last(),
                env0 == env_of(*old(locals)),
                x == ctx_of(*self),
                env_of(*locals) == pats_env(x, env0, pats@, fields_view(fs@), i as nat),
            decreases pats@.len() - i,
        {
            let ft = if i < fs.len() {
                fs[i].1
            } else {
                TypeId(ERROR_ID)
            };
            assert(nth_field_ty(fields_view(fs@), i as int) == ft);
            self.check_pattern(&pats[i], ft, locals);
            i = i + 1;
        }
    }

    /// Record the names the field patterns of a struct pattern bind, each
    /// matched against the type of the field it names (the error type for
    /// a field the struct does not have).
    fn check_struct_subpatterns(
        &self,
        pats: &Vec<(String, Spanned<Pattern>)>,
        sfs: &Vec<(String, TypeId)>,
        locals: &mut ScopedLocals<LocalInfo>,
    )
        ensures
            final(locals).depth() == old(locals).depth(),
            final(locals).scopes().drop_last() == old(locals).scopes().drop_last(),
            env_of(*final(locals)) == struct_pats_env(
                ctx_of(*self),
                env_of(*old(locals)),
                pats@,
                fields_view(sfs@),
                pats@.len(),
            ),
        decreases pats, 0nat,
    {
        let ghost env0 = env_of(*locals);
        let ghost x = ctx_of(*self);
        let mut i: usize = 0;
        while i < pats.len()
            invariant
                i <= pats@.len(),
                locals.depth() == old(locals).depth(),
                locals.scopes().drop_last() == old(locals).scopes().drop_last(),
                env0 == env_of(*old(locals)),
                x == ctx_of(*self),
                env_of(*locals) == struct_pats_env(x, env0, pats@, fields_view(sfs@), i as nat),
            decreases pats@.len() - i,
        {
            let r = field_index(sfs, &pats[i].0);
            proof {
                lemma_field_ty(sfs@, pats@[i as int].0@, r);
            }
            let ft = match r {
                Some(j) => sfs[j].1,
                None => TypeId(ERROR_ID),
            };
            self.check_pattern(&pats[i].1, ft, locals);
            i = i + 1;
        }
    }

    /// Bind the names of the pattern of `let pattern = value` (the value of
    /// type `t`) in the innermost scope, and record each binding for the
    /// editor: a binding takes `t`; the field patterns of a struct pattern
    /// take the types of the fields they name (the error type for a struct
    /// or field that does not exist); the sub-patterns of a variant pattern
    /// take the error type.
    pub fn check_pattern_bindings(
        &mut self,
        p: &Spanned<Pattern>,
        t: TypeId,
        is_mut: bool,
        locals: &mut ScopedLocals<LocalInfo>,
    )
        requires
            old(self).well_formed(),
        ensures
            Self::body_frame(*old(self), *final(self)),
            final(locals).depth() == old(locals).depth(),
            final(locals).scopes().drop_last() == old(locals).scopes().drop_last(),
            env_of(*final(locals)) == let_pattern_env(ctx_of(*old(self)), env_of(*old(locals)), *p, t, is_mut),
        decreases p, 1nat,
    {
        let ghost s0 = *self;
        proof {
            lemma_body_frame_refl(s0);
        }
        match &p.node {
            Pattern::Wildcard => {},
            Pattern::Literal(_) => {},
            Pattern::Binding(name) => {
                let ghost before = *locals;
                let info = LocalInfo { ty: t, is_mut, def_span: p.span };
                locals.insert(name.clone(), info);
                proof {
                    assert(env_of(*locals) =~= env_of(before).insert(name@, info));
                }
                self.symbol_table.record_definition(
                    p.span,
                    DefinitionInfo {
                        name: name.clone(),
                        kind: SymbolKind::LocalVariable,
                        def_span: p.span,
                        type_id: Some(t),
                    },
                );
                self.symbol_table.record_expr_type(p.span, t);
                proof {
                    lemma_body_frame_symbols(s0, *self);
                }
            },
            Pattern::Enum { fields, .. } => {
                self.let_subpatterns(fields, is_mut, locals);
            },
            Pattern::Struct { name, fields } => {
                let st = match find_binding(&self.structs, name) {
                    Some(i) => self.structs[i].1,
                    None => TypeId(ERROR_ID),
                };
                let sfs = match self.types.struct_fields(st) {
                    Some(fs) => Some(copy_fields(fs)),
                    None => None,
                };
                if let Some(sfs) = sfs {
                    self.let_struct_subpatterns(fields, &sfs, is_mut, locals);
                }
            },
        }
    }

    /// Bind the sub-patterns of a variant pattern in a `let`, each with the
    /// error type.
    fn let_subpatterns(&mut self, pats: &Vec<Spanned<Pattern>>, is_mut: bool, locals: &mut ScopedLocals<LocalInfo>)
        requires
            old(self).well_formed(),
        ensures
            Self::body_frame(*old(self), *final(self)),
            final(locals).depth() == old(locals).depth(),
            final(locals).scopes().drop_last() == old(locals).scopes().drop_last(),
            env_of(*final(locals)) == let_pats_env(
                ctx_of(*old(self)),
                env_of(*old(locals)),
                pats@,
                is_mut,
                pats@.len(),
            ),
        decreases pats, 0nat,
    {
        let ghost s0 = *self;
        let ghost env0 = env_of(*locals);
        let ghost x = ctx_of(*self);
        proof {
            lemma_body_frame_refl(s0);
        }
        let mut i: usize = 0;
        while i < pats.len()
            invariant
                i <= pats@.len(),
                Self::body_frame(s0, *self),
                ctx_of(*self) == x,
                x == ctx_of(*old(self)),
                locals.depth() == old(locals).depth(),
                locals.scopes().drop_last() == old(locals).scopes().drop_last(),
                env0 == env_of(*old(locals)),
                env_of(*locals) == let_pats_env(x, env0, pats@, is_mut, i as nat),
            decreases pats@.len() - i,
        {
            let ghost s1 = *self;
            self.check_pattern_bindings(&pats[i], TypeId(ERROR_ID), is_mut, locals);
            proof {
                lemma_body_frame_trans(s0, s1, *self);
            }
            i = i + 1;
        }
    }

    /// Bind the field patterns of a struct pattern in a `let`, each with the
    /// type of the field it names (the error type for a field the struct
    /// does not have).
    fn let_struct_subpatterns(
        &mut self,
        pats: &Vec<(String, Spanned<Pattern>)>,
        sfs: &Vec<(String, TypeId)>,
        is_mut: bool,
        locals: &mut ScopedLocals<LocalInfo>,
    )
        requires
            old(self).well_formed(),
        ensures
            Self::body_frame(*old(self), *final(self)),
            final(locals).depth() == old(locals).depth(),
            final(locals).scopes().drop_last() == old(locals).scopes().drop_last(),
            env_of(*final(locals)) == let_struct_pats_env(
                ctx_of(*old(self)),
                env_of(*old(locals)),
                pats@,
                fields_view(sfs@),
                is_mut,
                pats@.len(),
            ),
        decreases pats, 0nat,
    {
        let ghost s0 = *self;
        let ghost env0 = env_of(*locals);
        let ghost x = ctx_of(*self);
        proof {
            lemma_body_frame_refl(s0);
        }
        let mut i: usize = 0;
        while i < pats.len()
            invariant
                i <= pats@.len(),
                Self::body_frame(s0, *self),
                ctx_of(*self) == x,
                x == ctx_of(*old(self)),
                locals.depth() == old(locals).depth(),
                locals.scopes().drop_last() == old(locals).scopes().drop_last(),
                env0 == env_of(*old(locals)),
                env_of(*locals) == let_struct_pats_env(x, env0, pats@, fields_view(sfs@), is_mut, i as nat),
            decreases pats@.len() - i,
        {
            let r = field_index(sfs, &pats[i].0);
            proof {
                lemma_field_ty(sfs@, pats@[i as int].0@, r);
            }
            let ft = match r {
                Some(j) => sfs[j].1,
                None => TypeId(ERROR_ID),
            };
            let ghost s1 = *self;
            self.check_pattern_bindings(&pats[i].1, ft, is_mut, locals);
            proof {
                lemma_body_frame_trans(s0, s1, *self);
            }
            i = i + 1;
        }
    }

    /// Check `if let pattern = scrutinee { .. } else ..`: the then-block
    /// in a scope of its own with the names the pattern binds; with an else
    /// branch of another type than the block's, that is reported, and the
    /// expression has the block's type (the unit type without an else
    /// branch).
    pub fn check_if_let(&mut self, e: &SpannedExpr, locals: &mut ScopedLocals<LocalInfo>) -> (t: TypeId)
        requires
            old(self).well_formed(),
            e.node is IfLet,
        ensures
            Self::body_frame(*old(self), *final(self)),
            final(locals).scopes() == old(locals).scopes(),
            t == expr_ty(ctx_of(*old(self)), env_of(*old(locals)), *e),
        decreases e, 1nat,
    {
        let ghost s0 = *self;
        let ghost sc0 = locals.scopes();
        proof {
            lemma_body_frame_refl(s0);
        }
        let (pattern, scrutinee, then_branch, else_branch) = match &e.node {
            Expr::IfLet { pattern, scrutinee, then_branch, else_branch } => (
                pattern,
                scrutinee,
                then_branch,
                else_branch,
            ),
            _ => {
                return TypeId(ERROR_ID);
            },
        };
        let st = self.check_expr(scrutinee, locals);
        let ghost s1 = *self;
        locals.push_scope();
        proof {
            lemma_env_same(*locals, *old(locals));
        }
        self.check_pattern(pattern, st, locals);
        let then_ty = self.check_block(&then_branch.node, locals);
        locals.pop_scope();
        assert(locals.scopes() =~= sc0);
        let ghost s2 = *self;
        proof {
            lemma_body_frame_trans(s0, s1, s2);
        }
        match else_branch {
            Some(else_expr) => {
                let else_ty = self.check_expr(else_expr, locals);
                let ghost s3 = *self;
                if then_ty != else_ty && then_ty != TypeId(ERROR_ID) && else_ty != TypeId(ERROR_ID) {
                    self.report_mismatch(else_expr.span, then_ty, else_ty);
                }
                proof {
                    lemma_body_frame_trans(s2, s3, *self);
                    lemma_body_frame_trans(s0, s2, *self);
                }
                then_ty
            },
            None => TypeId(0),
        }
    }

    /// Check a `match`: each arm in a scope of its own with the names its
    /// pattern binds; a guard must be a `bool`; every arm whose body is not
    /// of the never type must have the type of the first such arm, which is
    /// the type of the `match` (the unit type when there is none).
    pub fn check_match(&mut self, e: &SpannedExpr, locals: &mut ScopedLocals<LocalInfo>) -> (t: TypeId)
        requires
            old(self).well_formed(),
            e.node is Match,
        ensures
            Self::body_frame(*old(self), *final(self)),
            final(locals).scopes() == old(locals).scopes(),
            t == expr_ty(ctx_of(*old(self)), env_of(*old(locals)), *e),
        decreases e, 1nat,
    {
        let ghost s0 = *self;
        let ghost x = ctx_of(*self);
        let ghost env = env_of(*locals);
        let ghost sc0 = locals.scopes();
        proof {
            lemma_body_frame_refl(s0);
        }
        let (scrutinee, arms) = match &e.node {
            Expr::Match { scrutinee, arms } => (scrutinee, arms),
            _ => {
                return TypeId(ERROR_ID);
            },
        };
        let st = self.check_expr(scrutinee, locals);
        let mut result: Option<TypeId> = None;
        let mut i: usize = 0;
        while i < arms.len()
            invariant
                i <= arms@.len(),
                Self::body_frame(s0, *self),
                ctx_of(*self) == x,
                locals.scopes() == sc0,
                env == env_of(*old(locals)),
                sc0 == old(locals).scopes(),
                st == expr_ty(x, env, **scrutinee),
                result == arms_ty(x, env, st, arms@, i as nat),
                e.node is Match,
                *arms == e.node->Match_arms,
                **scrutinee == *e.node->Match_scrutinee,
            decreases arms@.len() - i,
        {
            let ghost s1 = *self;
            locals.push_scope();
            proof {
                lemma_env_same(*locals, *old(locals));
            }
            self.check_pattern(&arms[i].pattern, st, locals);
            proof {
                lemma_body_frame_refl(s1);
            }
            if let Some(guard) = &arms[i].guard {
                let gt = self.check_expr(guard, locals);
                let ghost sg = *self;
                if gt != TypeId(11) && gt != TypeId(ERROR_ID) {
                    let found = self.types.display_name(gt);
                    self.report(
                        CheckerDiagnostic::TypeMismatch {
                            span: guard.span,
                            expected: String::from_str("bool"),
                            found,
                        },
                    );
                }
                proof {
                    lemma_body_frame_trans(s1, sg, *self);
                }
            }
            let ghost s2 = *self;
            let body_ty = self.check_expr(&arms[i].body, locals);
            let ghost s3 = *self;
            locals.pop_scope();
            assert(locals.scopes() =~= sc0);
            if body_ty != TypeId(17) {
                match result {
                    None => {
                        result = Some(body_ty);
                    },
                    Some(prev) => {
                        if body_ty != prev && body_ty != TypeId(ERROR_ID) && prev != TypeId(ERROR_ID) {
                            self.report_mismatch(arms[i].body.span, prev, body_ty);
                        }
                    },
                }
            }
            proof {
                lemma_body_frame_trans(s1, s2, s3);
                lemma_body_frame_trans(s1, s3, *self);
                lemma_body_frame_trans(s0, s1, *self);
            }
            i = i + 1;
        }
        match result {
            Some(t) => t,
            None => TypeId(0),
        }
    }
}

} // verus!
