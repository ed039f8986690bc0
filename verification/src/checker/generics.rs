//! Generic functions and their instances: the templates of generic items,
//! substituting type arguments for type parameters, inferring type
//! arguments from argument types, and registering an instance of a generic
//! function under its mangled name.

use vstd::prelude::*;

use super::collect::{declared_ty, defaults_of, type_report};
use crate::scoped_locals::bind;
use crate::types::{fields_view, KindView, TypeKind};
use super::{builtin_type_id, builtin_type_named, leading_required, mangle, mangled, str_is, Checker, FunctionKind, FunctionSig};
use crate::ast::{Block, EnumVariantDef, Param, StructField, TypeExpr, VariantKind};
use crate::diagnostic::{decimal, to_decimal};
use crate::types::{variants_view, EnumVariant};
use crate::diagnostic::CheckerDiagnostic;
use crate::scoped_locals::{find_binding, scope_get};
use crate::span::{Span, Spanned};
use crate::types::{kind_name, TypeId, ERROR_ID};

verus! {

/// A type parameter of a generic item, with the interfaces it must
/// implement.
pub struct TypeParam {
    pub name: String,
    pub bounds: Vec<String>,
}

/// A generic function, kept as written until it is instantiated.
pub struct GenericFunctionDef {
    pub type_params: Vec<TypeParam>,
    pub ast_params: Vec<Param>,
    pub ast_return_type: Option<Spanned<TypeExpr>>,
    pub ast_body: Spanned<Block>,
    pub span: Span,
}

/// A generic struct, kept as written until it is instantiated.
pub struct GenericStructDef {
    pub type_params: Vec<TypeParam>,
    pub fields: Vec<StructField>,
    pub span: Span,
}

/// A generic enum, kept as written until it is instantiated.
pub struct GenericEnumDef {
    pub type_params: Vec<TypeParam>,
    pub variants: Vec<EnumVariantDef>,
    pub span: Span,
}

/// A method an interface declares.
pub struct InterfaceMethodDef {
    pub name: String,
    pub params: Vec<Param>,
    pub return_type: Option<Spanned<TypeExpr>>,
}

/// A generic interface (such as `Iterator<T>`).
pub struct GenericInterfaceDef {
    pub name: String,
    pub type_params: Vec<TypeParam>,
    pub methods: Vec<InterfaceMethodDef>,
    pub span: Span,
}

/// A method of a generic impl block, kept as written until it is
/// instantiated.
pub struct GenericImplMethod {
    pub type_params: Vec<TypeParam>,
    pub method_name: String,
    pub ast_params: Vec<Param>,
    pub ast_return_type: Option<Spanned<TypeExpr>>,
    pub ast_body: Spanned<Block>,
    pub span: Span,
    pub is_pub: bool,
}

/// The name an instance is registered under: the base name, then `$` and
/// the name of each type argument, in order.
pub open spec fn mono_key(c: Checker, base: Seq<char>, args: Seq<TypeId>) -> Seq<char>
    decreases args.len(),
{
    if args.len() == 0 {
        base
    } else {
        mono_key(c, base, args.drop_last()) + "$"@ + kind_name(c.types.kind(args.last()))
    }
}

/// The substitution that gives each type parameter its type argument.
pub open spec fn subst_of(tps: Seq<TypeParam>, args: Seq<TypeId>) -> Seq<(String, TypeId)> {
    Seq::new(tps.len(), |i: int| (tps[i].name, args[i]))
}

/// The type argument a written type names, when it names a type parameter.
pub open spec fn subst_hit(subst: Seq<(String, TypeId)>, te: TypeExpr) -> Option<TypeId> {
    match te {
        TypeExpr::Named(n) => scope_get(subst, n@),
        TypeExpr::Unit => None,
    }
}

/// The type a written type stands for under a substitution: the type
/// argument of a type parameter, else the type it declares.
pub open spec fn subst_ty(c: Checker, subst: Seq<(String, TypeId)>, te: TypeExpr) -> TypeId {
    match subst_hit(subst, te) {
        Some(t) => t,
        None => declared_ty(c, te),
    }
}

/// What resolving a written type under a substitution reports: nothing for
/// a type parameter, else an unknown type.
pub open spec fn subst_report(c: Checker, subst: Seq<(String, TypeId)>, te: Spanned<TypeExpr>) -> Seq<
    CheckerDiagnostic,
> {
    if subst_hit(subst, te.node) is Some {
        Seq::empty()
    } else {
        type_report(c, te)
    }
}

/// What resolving the types of the first `n` parameters under a
/// substitution reports, in order.
pub open spec fn subst_params_reports(c: Checker, subst: Seq<(String, TypeId)>, params: Seq<Param>, n: int) -> Seq<
    CheckerDiagnostic,
>
    decreases n,
{
    if n <= 0 || n > params.len() {
        Seq::empty()
    } else {
        subst_params_reports(c, subst, params, n - 1) + subst_report(c, subst, params[n - 1].ty)
    }
}

/// The signature of the instance of `g` for the type arguments `args`,
/// registered under `key`: each parameter and the return type resolved
/// under the substitution, the defaults and receiver as written.
pub open spec fn mono_sig(c: Checker, g: GenericFunctionDef, args: Seq<TypeId>, key: Seq<char>, sig: FunctionSig) -> bool {
    let subst = subst_of(g.type_params@, args);
    let params = g.ast_params@;
    &&& sig.name@ == key
    &&& sig.params@.len() == params.len()
    &&& forall|i: int|
        0 <= i < params.len() ==> (#[trigger] sig.params@[i]).0@ == params[i].name@ && sig.params@[i].1 == subst_ty(
            c,
            subst,
            params[i].ty.node,
        )
    &&& sig.return_type == match g.ast_return_type {
        Some(t) => subst_ty(c, subst, t.node),
        None => TypeId(0),
    }
    &&& sig.kind == FunctionKind::UserDefined
    &&& sig.has_default@ == defaults_of(params)
    &&& sig.required_params == leading_required(defaults_of(params))
    &&& sig.is_method == (params.len() > 0 && params[0].is_self)
    &&& sig.is_mut_method == (params.len() > 0 && params[0].is_self && params[0].is_mut)
    &&& sig.def_span == g.span
}

/// Whether a name written as a type looks like a type parameter: it names
/// no built-in type, struct, enum or type alias.
pub open spec fn looks_like_param(c: Checker, name: Seq<char>) -> bool {
    &&& builtin_type_named(name) is None
    &&& scope_get(c.structs@, name) is None
    &&& scope_get(c.enums@, name) is None
    &&& scope_get(c.type_aliases@, name) is None
}

/// The inferred type arguments after matching the written type `te` with
/// the type `t`: a type parameter not inferred yet is inferred to be `t`.
pub open spec fn unify_step(c: Checker, te: TypeExpr, t: TypeId, m: Seq<(String, TypeId)>) -> Seq<(String, TypeId)> {
    match te {
        TypeExpr::Named(n) => if looks_like_param(c, n@) && scope_get(m, n@) is None {
            m.push((n, t))
        } else {
            m
        },
        TypeExpr::Unit => m,
    }
}

/// The type arguments inferred from the first `n` arguments: each
/// argument whose type is not the error type is matched with its
/// parameter's written type.
pub open spec fn inferred_after(c: Checker, params: Seq<Param>, arg_types: Seq<TypeId>, n: int) -> Seq<(String, TypeId)>
    decreases n,
{
    if n <= 0 {
        Seq::empty()
    } else {
        let m = inferred_after(c, params, arg_types, n - 1);
        if n - 1 < params.len() && n - 1 < arg_types.len() && arg_types[n - 1] != TypeId(ERROR_ID) {
            unify_step(c, params[n - 1].ty.node, arg_types[n - 1], m)
        } else {
            m
        }
    }
}

/// The written type that names the type `t`: `()` for the unit type (the
/// type with id 0), else its name.
pub open spec fn type_expr_names(c: Checker, t: TypeId, te: TypeExpr) -> bool {
    if t == TypeId(0) {
        te == TypeExpr::Unit
    } else {
        te matches TypeExpr::Named(n) && n@ == kind_name(c.types.kind(t))
    }
}

impl Checker {
    /// The name an instance of `base` for these type arguments is
    /// registered under.
    pub fn mangle_name(&self, base: &String, type_args: &Vec<TypeId>) -> (s: String)
        ensures
            s@ == mono_key(*self, base@, type_args@),
    {
        let mut name = base.clone();
        let mut i: usize = 0;
        while i < type_args.len()
            invariant
                i <= type_args@.len(),
                name@ == mono_key(*self, base@, type_args@.take(i as int)),
            decreases type_args@.len() - i,
        {
            name.append("$");
            let tn = self.types.display_name(type_args[i]);
            name.append(tn.as_str());
            proof {
                assert(type_args@.take(i + 1).drop_last() =~= type_args@.take(i as int));
            }
            i = i + 1;
        }
        proof {
            assert(type_args@.take(type_args@.len() as int) =~= type_args@);
        }
        name
    }

    /// Resolve a written type under a substitution: a type parameter gives
    /// its type argument, any other type resolves as written.
    pub fn resolve_type_with_subst(&mut self, ty: &Spanned<TypeExpr>, subst: &Vec<(String, TypeId)>) -> (t: TypeId)
        ensures
            Self::resolve_frame(*old(self), *final(self)),
            t == subst_ty(*old(self), subst@, ty.node),
            final(self).diagnostics.diagnostics@ == old(self).diagnostics.diagnostics@ + subst_report(
                *old(self),
                subst@,
                *ty,
            ),
    {
        if let TypeExpr::Named(n) = &ty.node {
            if let Some(i) = find_binding(subst, n) {
                proof {
                    assert(old(self).diagnostics.diagnostics@ + subst_report(*old(self), subst@, *ty)
                        =~= old(self).diagnostics.diagnostics@);
                }
                return subst[i].1;
            }
        }
        let t = self.resolve_type(ty);
        proof {
            if resolved_type_some(*old(self), ty.node) {
                assert(old(self).diagnostics.diagnostics@ + subst_report(*old(self), subst@, *ty)
                    =~= old(self).diagnostics.diagnostics@);
            }
        }
        t
    }

    /// Match a parameter's written type with the type of its argument: a
    /// name that looks like a type parameter and has no type yet gets the
    /// argument's type.
    pub fn unify_type_expr_with_concrete(
        &self,
        type_expr: &TypeExpr,
        concrete: TypeId,
        inferred: &mut Vec<(String, TypeId)>,
    )
        ensures
            final(inferred)@ == unify_step(*self, *type_expr, concrete, old(inferred)@),
    {
        if let TypeExpr::Named(name) = type_expr {
            let builtin = builtin_type_id(name);
            if builtin.is_none() && find_binding(&self.structs, name).is_none() && find_binding(
                &self.enums,
                name,
            ).is_none() && find_binding(&self.type_aliases, name).is_none() && find_binding(
                inferred,
                name,
            ).is_none() {
                inferred.push((name.clone(), concrete));
            }
        }
    }

    /// Infer the type arguments of a call of `g` from the types of its
    /// arguments: each argument whose type is known is matched with its
    /// parameter's written type; the result gives each type parameter its
    /// inferred type, or is `None` when one was not inferred.
    pub fn infer_type_args(&self, g: &GenericFunctionDef, arg_types: &Vec<TypeId>) -> (r: Option<Vec<TypeId>>)
        ensures
            ({
                let m = inferred_after(*self, g.ast_params@, arg_types@, arg_types@.len() as int);
                match r {
                    Some(v) => v@.len() == g.type_params@.len() && forall|i: int|
                        0 <= i < v@.len() ==> scope_get(m, (#[trigger] g.type_params@[i]).name@) == Some(v@[i]),
                    None => exists|i: int|
                        0 <= i < g.type_params@.len() && scope_get(m, (#[trigger] g.type_params@[i]).name@) is None,
                }
            }),
    {
        let mut inferred: Vec<(String, TypeId)> = Vec::new();
        let mut i: usize = 0;
        while i < arg_types.len()
            invariant
                i <= arg_types@.len(),
                inferred@ == inferred_after(*self, g.ast_params@, arg_types@, i as int),
            decreases arg_types@.len() - i,
        {
            if i < g.ast_params.len() && arg_types[i] != TypeId(ERROR_ID) {
                self.unify_type_expr_with_concrete(&g.ast_params[i].ty.node, arg_types[i], &mut inferred);
            }
            i = i + 1;
        }
        let ghost m = inferred@;
        let mut result: Vec<TypeId> = Vec::new();
        let mut j: usize = 0;
        while j < g.type_params.len()
            invariant
                j <= g.type_params@.len(),
                inferred@ == m,
                m == inferred_after(*self, g.ast_params@, arg_types@, arg_types@.len() as int),
                result@.len() == j,
                forall|k: int| 0 <= k < j ==> scope_get(m, (#[trigger] g.type_params@[k]).name@) == Some(result@[k]),
            decreases g.type_params@.len() - j,
        {
            match find_binding(&inferred, &g.type_params[j].name) {
                Some(k) => {
                    result.push(inferred[k].1);
                },
                None => {
                    assert(scope_get(m, g.type_params@[j as int].name@) is None);
                    return None;
                },
            }
            j = j + 1;
        }
        Some(result)
    }

    /// The written type that names `ty`: `()` for the unit type, else the
    /// type's name.
    pub fn type_id_to_type_expr(&self, ty: TypeId, span: Span) -> (te: Spanned<TypeExpr>)
        ensures
            type_expr_names(*self, ty, te.node),
            te.span == span,
    {
        let name = self.types.display_name(ty);
        if ty.0 == 0 {
            Spanned { node: TypeExpr::Unit, span }
        } else {
            Spanned { node: TypeExpr::Named(name), span }
        }
    }

    /// Register the instance of the generic function `g` for the type
    /// arguments `type_args` under its mangled name, and return that name.
    /// An instance already registered is reused; a wrong number of type
    /// arguments gives `None`.
    pub fn monomorphize_function(&mut self, base_name: &String, g: &GenericFunctionDef, type_args: &Vec<TypeId>) -> (r:
        Option<String>)
        requires
            old(self).well_formed(),
        ensures
            final(self).well_formed(),
            final(self).structs == old(self).structs,
            final(self).enums == old(self).enums,
            final(self).type_aliases == old(self).type_aliases,
            final(self).types.kinds() == old(self).types.kinds(),
            ({
                let key = mono_key(*old(self), base_name@, type_args@);
                match r {
                    Some(k) => k@ == key && final(self).functions.lookup(key) is Some,
                    None => type_args@.len() != g.type_params@.len() && final(self).functions == old(self).functions
                        && final(self).diagnostics == old(self).diagnostics,
                }
            }),
            ({
                let key = mono_key(*old(self), base_name@, type_args@);
                old(self).functions.lookup(key) is Some ==> r is Some && final(self).functions == old(self).functions
                    && final(self).diagnostics == old(self).diagnostics
            }),
            ({
                let key = mono_key(*old(self), base_name@, type_args@);
                old(self).functions.lookup(key) is None && type_args@.len() == g.type_params@.len() ==> r is Some
                    && mono_sig(*old(self), *g, type_args@, key, final(self).functions.lookup(key).unwrap())
                    && final(self).diagnostics.diagnostics@ == old(self).diagnostics.diagnostics@
                    + subst_params_reports(
                    *old(self),
                    subst_of(g.type_params@, type_args@),
                    g.ast_params@,
                    g.ast_params@.len() as int,
                ) + match g.ast_return_type {
                    Some(t) => subst_report(*old(self), subst_of(g.type_params@, type_args@), t),
                    None => Seq::empty(),
                }
            }),
            forall|k: Seq<char>|
                k != mono_key(*old(self), base_name@, type_args@) ==> #[trigger] final(self).functions.lookup(k)
                    == old(self).functions.lookup(k),
    {
        let ghost s0 = *self;
        let key = self.mangle_name(base_name, type_args);
        if self.functions.get_by_key(&key).is_some() {
            return Some(key);
        }
        if type_args.len() != g.type_params.len() {
            return None;
        }
        let mut subst: Vec<(String, TypeId)> = Vec::new();
        let mut i: usize = 0;
        while i < g.type_params.len()
            invariant
                i <= g.type_params@.len(),
                type_args@.len() == g.type_params@.len(),
                subst@ =~= subst_of(g.type_params@, type_args@).take(i as int),
            decreases g.type_params@.len() - i,
        {
            subst.push((g.type_params[i].name.clone(), type_args[i]));
            i = i + 1;
        }
        proof {
            assert(subst_of(g.type_params@, type_args@).take(g.type_params@.len() as int) =~= subst_of(
                g.type_params@,
                type_args@,
            ));
        }
        let ghost sub = subst@;
        let params = &g.ast_params;
        let mut resolved: Vec<(String, TypeId)> = Vec::new();
        let mut defaults: Vec<bool> = Vec::new();
        let mut i: usize = 0;
        while i < params.len()
            invariant
                i <= params@.len(),
                subst@ == sub,
                resolved@.len() == i,
                defaults@ =~= defaults_of(params@).take(i as int),
                forall|j: int|
                    0 <= j < i ==> (#[trigger] resolved@[j]).0@ == params@[j].name@ && resolved@[j].1 == subst_ty(
                        s0,
                        sub,
                        params@[j].ty.node,
                    ),
                Self::resolve_frame(s0, *self),
                self.well_formed(),
                self.diagnostics.diagnostics@ == s0.diagnostics.diagnostics@ + subst_params_reports(
                    s0,
                    sub,
                    params@,
                    i as int,
                ),
            decreases params@.len() - i,
        {
            let ghost s1 = *self;
            let t = self.resolve_type_with_subst(&params[i].ty, &subst);
            proof {
                assert(self.diagnostics.diagnostics@ =~= s0.diagnostics.diagnostics@ + subst_params_reports(
                    s0,
                    sub,
                    params@,
                    i + 1,
                ));
            }
            resolved.push((params[i].name.clone(), t));
            defaults.push(params[i].default_value.is_some());
            i = i + 1;
        }
        assert(defaults@ =~= defaults_of(params@));
        let mut required: usize = 0;
        while required < defaults.len() && !defaults[required]
            invariant
                required <= defaults@.len(),
                forall|j: int| 0 <= j < required ==> !defaults@[j],
            decreases defaults@.len() - required,
        {
            required = required + 1;
        }
        proof {
            super::collect::lemma_leading_required(defaults@, required as int);
        }
        let is_method = params.len() > 0 && params[0].is_self;
        let is_mut_method = is_method && params[0].is_mut;
        let ghost s2 = *self;
        let ret_ty = match &g.ast_return_type {
            Some(t) => self.resolve_type_with_subst(t, &subst),
            None => TypeId(0),
        };
        proof {
            assert(self.diagnostics.diagnostics@ =~= s0.diagnostics.diagnostics@ + subst_params_reports(
                s0,
                sub,
                params@,
                params@.len() as int,
            ) + match g.ast_return_type {
                Some(t) => subst_report(s0, sub, t),
                None => Seq::empty(),
            });
        }
        let sig = FunctionSig {
            name: key.clone(),
            params: resolved,
            return_type: ret_ty,
            kind: FunctionKind::UserDefined,
            required_params: required,
            has_default: defaults,
            is_method,
            is_mut_method,
            is_pub: false,
            source_file_id: g.span.file_id,
            def_span: g.span,
        };
        self.functions.insert(key.clone(), sig);
        Some(key)
    }
}

/// The fields of an instance of a generic struct: each field's written type
/// resolved under the substitution.
pub open spec fn subst_fields(c: Checker, subst: Seq<(String, TypeId)>, fields: Seq<StructField>) -> Seq<
    (Seq<char>, TypeId),
> {
    fields.map_values(|f: StructField| (f.name@, subst_ty(c, subst, f.ty.node)))
}

/// What resolving the first `n` field types under a substitution reports,
/// in order.
pub open spec fn subst_fields_reports(c: Checker, subst: Seq<(String, TypeId)>, fields: Seq<StructField>, n: int) -> Seq<
    CheckerDiagnostic,
>
    decreases n,
{
    if n <= 0 || n > fields.len() {
        Seq::empty()
    } else {
        subst_fields_reports(c, subst, fields, n - 1) + subst_report(c, subst, fields[n - 1].ty)
    }
}

/// What resolving the first `n` written types under a substitution reports,
/// in order.
pub open spec fn subst_types_reports(c: Checker, subst: Seq<(String, TypeId)>, types: Seq<Spanned<TypeExpr>>, n: int) -> Seq<
    CheckerDiagnostic,
>
    decreases n,
{
    if n <= 0 || n > types.len() {
        Seq::empty()
    } else {
        subst_types_reports(c, subst, types, n - 1) + subst_report(c, subst, types[n - 1])
    }
}

/// The fields of a variant of an instance of a generic enum: a tuple
/// variant's fields are named by their positions.
pub open spec fn subst_variant_fields(c: Checker, subst: Seq<(String, TypeId)>, kind: VariantKind) -> Seq<
    (Seq<char>, TypeId),
> {
    match kind {
        VariantKind::Unit => Seq::empty(),
        VariantKind::Tuple(types) => types@.map(
            |i: int, t: Spanned<TypeExpr>| (decimal(i as nat), subst_ty(c, subst, t.node)),
        ),
        VariantKind::Struct(fields) => subst_fields(c, subst, fields@),
    }
}

/// What resolving the field types of a variant under a substitution
/// reports.
pub open spec fn subst_variant_reports(c: Checker, subst: Seq<(String, TypeId)>, kind: VariantKind) -> Seq<
    CheckerDiagnostic,
> {
    match kind {
        VariantKind::Unit => Seq::empty(),
        VariantKind::Tuple(types) => subst_types_reports(c, subst, types@, types@.len() as int),
        VariantKind::Struct(fields) => subst_fields_reports(c, subst, fields@, fields@.len() as int),
    }
}

/// The variants of an instance of a generic enum.
pub open spec fn subst_variants(c: Checker, subst: Seq<(String, TypeId)>, vs: Seq<EnumVariantDef>) -> Seq<
    (Seq<char>, Seq<(Seq<char>, TypeId)>),
> {
    vs.map_values(|v: EnumVariantDef| (v.name@, subst_variant_fields(c, subst, v.kind)))
}

/// What resolving the field types of the first `n` variants under a
/// substitution reports, in order.
pub open spec fn subst_variants_reports(c: Checker, subst: Seq<(String, TypeId)>, vs: Seq<EnumVariantDef>, n: int) -> Seq<
    CheckerDiagnostic,
>
    decreases n,
{
    if n <= 0 || n > vs.len() {
        Seq::empty()
    } else {
        subst_variants_reports(c, subst, vs, n - 1) + subst_variant_reports(c, subst, vs[n - 1].kind)
    }
}

impl Checker {
    /// Resolve the field types of a struct under a substitution.
    fn resolve_fields_with_subst(&mut self, fields: &Vec<StructField>, subst: &Vec<(String, TypeId)>) -> (resolved: Vec<
        (String, TypeId),
    >)
        requires
            old(self).well_formed(),
        ensures
            fields_view(resolved@) == subst_fields(*old(self), subst@, fields@),
            Self::resolve_frame(*old(self), *final(self)),
            final(self).well_formed(),
            final(self).diagnostics.diagnostics@ == old(self).diagnostics.diagnostics@ + subst_fields_reports(
                *old(self),
                subst@,
                fields@,
                fields@.len() as int,
            ),
    {
        let ghost s0 = *self;
        let mut resolved: Vec<(String, TypeId)> = Vec::new();
        let mut i: usize = 0;
        while i < fields.len()
            invariant
                i <= fields@.len(),
                resolved@.len() == i,
                fields_view(resolved@) =~= subst_fields(s0, subst@, fields@).take(i as int),
                Self::resolve_frame(s0, *self),
                self.well_formed(),
                self.diagnostics.diagnostics@ == s0.diagnostics.diagnostics@ + subst_fields_reports(
                    s0,
                    subst@,
                    fields@,
                    i as int,
                ),
            decreases fields@.len() - i,
        {
            let t = self.resolve_type_with_subst(&fields[i].ty, subst);
            proof {
                assert(self.diagnostics.diagnostics@ =~= s0.diagnostics.diagnostics@ + subst_fields_reports(
                    s0,
                    subst@,
                    fields@,
                    i + 1,
                ));
            }
            let nm = fields[i].name.clone();
            let ghost before = resolved@;
            resolved.push((nm, t));
            assert(fields_view(resolved@) =~= fields_view(before).push((nm@, t)));
            i = i + 1;
        }
        assert(subst_fields(s0, subst@, fields@).take(fields@.len() as int) =~= subst_fields(s0, subst@, fields@));
        resolved
    }

    /// Resolve the field types of a variant under a substitution.
    fn resolve_variant_fields_with_subst(&mut self, kind: &VariantKind, subst: &Vec<(String, TypeId)>) -> (resolved: Vec<
        (String, TypeId),
    >)
        requires
            old(self).well_formed(),
        ensures
            fields_view(resolved@) == subst_variant_fields(*old(self), subst@, *kind),
            Self::resolve_frame(*old(self), *final(self)),
            final(self).well_formed(),
            final(self).diagnostics.diagnostics@ == old(self).diagnostics.diagnostics@ + subst_variant_reports(
                *old(self),
                subst@,
                *kind,
            ),
    {
        match kind {
            VariantKind::Unit => {
                let v: Vec<(String, TypeId)> = Vec::new();
                assert(fields_view(v@) =~= subst_variant_fields(*self, subst@, *kind));
                assert(self.diagnostics.diagnostics@ =~= old(self).diagnostics.diagnostics@ + Seq::empty());
                v
            },
            VariantKind::Tuple(types) => {
                let ghost s0 = *self;
                let mut resolved: Vec<(String, TypeId)> = Vec::new();
                let mut i: usize = 0;
                while i < types.len()
                    invariant
                        i <= types@.len(),
                        resolved@.len() == i,
                        fields_view(resolved@) =~= subst_variant_fields(s0, subst@, *kind).take(i as int),
                        *kind is Tuple,
                        kind->Tuple_0 == *types,
                        Self::resolve_frame(s0, *self),
                        self.well_formed(),
                        self.diagnostics.diagnostics@ == s0.diagnostics.diagnostics@ + subst_types_reports(
                            s0,
                            subst@,
                            types@,
                            i as int,
                        ),
                    decreases types@.len() - i,
                {
                    let t = self.resolve_type_with_subst(&types[i], subst);
                    proof {
                        assert(self.diagnostics.diagnostics@ =~= s0.diagnostics.diagnostics@ + subst_types_reports(
                            s0,
                            subst@,
                            types@,
                            i + 1,
                        ));
                    }
                    let nm = to_decimal(i);
                    assert(subst_variant_fields(s0, subst@, *kind)[i as int] == (nm@, t));
                    let ghost before = resolved@;
                    resolved.push((nm, t));
                    assert(fields_view(resolved@) =~= fields_view(before).push((nm@, t)));
                    i = i + 1;
                }
                assert(subst_variant_fields(s0, subst@, *kind).take(i as int) =~= subst_variant_fields(
                    s0,
                    subst@,
                    *kind,
                ));
                resolved
            },
            VariantKind::Struct(fields) => self.resolve_fields_with_subst(fields, subst),
        }
    }

    /// Register the instance of the generic enum `g` for the type arguments
    /// `type_args` as an enum named by its mangled name, and return its
    /// type: an instance already registered is reused; a wrong number of
    /// type arguments gives `None`.
    pub fn monomorphize_enum_concrete(&mut self, base_name: &String, g: &GenericEnumDef, type_args: &Vec<TypeId>) -> (r:
        Option<TypeId>)
        requires
            old(self).well_formed(),
        ensures
            final(self).well_formed(),
            final(self).functions == old(self).functions,
            final(self).structs == old(self).structs,
            final(self).type_aliases == old(self).type_aliases,
            ({
                let key = mono_key(*old(self), base_name@, type_args@);
                &&& scope_get(old(self).enums@, key) is Some ==> r == scope_get(old(self).enums@, key)
                    && final(self).enums == old(self).enums && final(self).diagnostics == old(self).diagnostics
                &&& scope_get(old(self).enums@, key) is None && type_args@.len() != g.type_params@.len() ==> r is None
                    && final(self).enums == old(self).enums && final(self).diagnostics == old(self).diagnostics
                &&& scope_get(old(self).enums@, key) is None && type_args@.len() == g.type_params@.len() ==> (r matches Some(
                    id,
                ) && scope_get(final(self).enums@, key) == Some(id) && (old(self).types.len() < u32::MAX ==> id
                    != TypeId(ERROR_ID) && final(self).types.kind(id) == KindView::Enum {
                    name: key,
                    variants: subst_variants(*old(self), subst_of(g.type_params@, type_args@), g.variants@),
                }) && final(self).diagnostics.diagnostics@ == old(self).diagnostics.diagnostics@
                    + subst_variants_reports(
                    *old(self),
                    subst_of(g.type_params@, type_args@),
                    g.variants@,
                    g.variants@.len() as int,
                ))
            }),
            forall|k: Seq<char>|
                k != mono_key(*old(self), base_name@, type_args@) ==> #[trigger] scope_get(final(self).enums@, k)
                    == scope_get(old(self).enums@, k),
    {
        let ghost s0 = *self;
        let key = self.mangle_name(base_name, type_args);
        if let Some(i) = find_binding(&self.enums, &key) {
            return Some(self.enums[i].1);
        }
        if type_args.len() != g.type_params.len() {
            return None;
        }
        let mut subst: Vec<(String, TypeId)> = Vec::new();
        let mut i: usize = 0;
        while i < g.type_params.len()
            invariant
                i <= g.type_params@.len(),
                type_args@.len() == g.type_params@.len(),
                subst@ =~= subst_of(g.type_params@, type_args@).take(i as int),
            decreases g.type_params@.len() - i,
        {
            subst.push((g.type_params[i].name.clone(), type_args[i]));
            i = i + 1;
        }
        proof {
            assert(subst_of(g.type_params@, type_args@).take(g.type_params@.len() as int) =~= subst_of(
                g.type_params@,
                type_args@,
            ));
        }
        let ghost sub = subst@;
        let mut resolved: Vec<EnumVariant> = Vec::new();
        let mut i: usize = 0;
        while i < g.variants.len()
            invariant
                i <= g.variants@.len(),
                subst@ == sub,
                resolved@.len() == i,
                variants_view(resolved@) =~= subst_variants(s0, sub, g.variants@).take(i as int),
                Self::resolve_frame(s0, *self),
                self.well_formed(),
                self.diagnostics.diagnostics@ == s0.diagnostics.diagnostics@ + subst_variants_reports(
                    s0,
                    sub,
                    g.variants@,
                    i as int,
                ),
            decreases g.variants@.len() - i,
        {
            let ghost sb = *self;
            let fields = self.resolve_variant_fields_with_subst(&g.variants[i].kind, &subst);
            proof {
                lemma_subst_same_tables(sb, s0, sub, g.variants@[i as int].kind);
                assert(self.diagnostics.diagnostics@ =~= s0.diagnostics.diagnostics@ + subst_variants_reports(
                    s0,
                    sub,
                    g.variants@,
                    i + 1,
                ));
            }
            let nm = g.variants[i].name.clone();
            let ghost before = resolved@;
            let ghost fv = fields_view(fields@);
            resolved.push(EnumVariant { name: nm, fields });
            assert(variants_view(resolved@) =~= variants_view(before).push((nm@, fv)));
            i = i + 1;
        }
        assert(subst_variants(s0, sub, g.variants@).take(g.variants@.len() as int) =~= subst_variants(
            s0,
            sub,
            g.variants@,
        ));
        let id = self.types.intern(TypeKind::Enum { name: key.clone(), variants: resolved });
        bind(&mut self.enums, key, id);
        Some(id)
    }

    /// Register the instance of the generic struct `g` for the type
    /// arguments `type_args` as a struct named by its mangled name, and
    /// return its type: an instance already registered is reused; a wrong
    /// number of type arguments gives `None`.
    pub fn monomorphize_struct_concrete(&mut self, base_name: &String, g: &GenericStructDef, type_args: &Vec<TypeId>) -> (r:
        Option<TypeId>)
        requires
            old(self).well_formed(),
        ensures
            final(self).well_formed(),
            final(self).functions == old(self).functions,
            final(self).enums == old(self).enums,
            final(self).type_aliases == old(self).type_aliases,
            ({
                let key = mono_key(*old(self), base_name@, type_args@);
                &&& scope_get(old(self).structs@, key) is Some ==> r == scope_get(old(self).structs@, key)
                    && final(self).structs == old(self).structs && final(self).diagnostics == old(self).diagnostics
                &&& scope_get(old(self).structs@, key) is None && type_args@.len() != g.type_params@.len() ==> r is None
                    && final(self).structs == old(self).structs && final(self).diagnostics == old(self).diagnostics
                &&& scope_get(old(self).structs@, key) is None && type_args@.len() == g.type_params@.len() ==> (r matches Some(
                    id,
                ) && scope_get(final(self).structs@, key) == Some(id) && (old(self).types.len() < u32::MAX ==> id
                    != TypeId(ERROR_ID) && final(self).types.kind(id) == KindView::Struct {
                    name: key,
                    fields: subst_fields(*old(self), subst_of(g.type_params@, type_args@), g.fields@),
                    is_extern: false,
                }) && final(self).diagnostics.diagnostics@ == old(self).diagnostics.diagnostics@ + subst_fields_reports(
                    *old(self),
                    subst_of(g.type_params@, type_args@),
                    g.fields@,
                    g.fields@.len() as int,
                ))
            }),
            forall|k: Seq<char>|
                k != mono_key(*old(self), base_name@, type_args@) ==> #[trigger] scope_get(final(self).structs@, k)
                    == scope_get(old(self).structs@, k),
    {
        let ghost s0 = *self;
        let key = self.mangle_name(base_name, type_args);
        if let Some(i) = find_binding(&self.structs, &key) {
            return Some(self.structs[i].1);
        }
        if type_args.len() != g.type_params.len() {
            return None;
        }
        let mut subst: Vec<(String, TypeId)> = Vec::new();
        let mut i: usize = 0;
        while i < g.type_params.len()
            invariant
                i <= g.type_params@.len(),
                type_args@.len() == g.type_params@.len(),
                subst@ =~= subst_of(g.type_params@, type_args@).take(i as int),
            decreases g.type_params@.len() - i,
        {
            subst.push((g.type_params[i].name.clone(), type_args[i]));
            i = i + 1;
        }
        proof {
            assert(subst_of(g.type_params@, type_args@).take(g.type_params@.len() as int) =~= subst_of(
                g.type_params@,
                type_args@,
            ));
        }
        let resolved = self.resolve_fields_with_subst(&g.fields, &subst);
        let id = self.types.intern(TypeKind::Struct { name: key.clone(), fields: resolved, is_extern: false });
        bind(&mut self.structs, key, id);
        Some(id)
    }

    /// Resolve a written type of a method of a generic impl block: `Self`
    /// is the instance's type.
    fn resolve_method_ty(&mut self, ty: &Spanned<TypeExpr>, subst: &Vec<(String, TypeId)>, self_ty: TypeId) -> (t: TypeId)
        requires
            old(self).well_formed(),
        ensures
            Self::resolve_frame(*old(self), *final(self)),
            final(self).well_formed(),
            t == method_ty(*old(self), subst@, self_ty, ty.node),
            final(self).diagnostics.diagnostics@ == old(self).diagnostics.diagnostics@ + method_ty_report(
                *old(self),
                subst@,
                *ty,
            ),
    {
        if let TypeExpr::Named(n) = &ty.node {
            if str_is(n, "Self") {
                assert(old(self).diagnostics.diagnostics@ + method_ty_report(*old(self), subst@, *ty)
                    =~= old(self).diagnostics.diagnostics@);
                return self_ty;
            }
        }
        self.resolve_type_with_subst(ty, subst)
    }

    /// The signature of a method of an instance of a generic impl block.
    fn method_instance_sig(&mut self, m: &GenericImplMethod, subst: &Vec<(String, TypeId)>, self_ty: TypeId) -> (sig:
        FunctionSig)
        requires
            old(self).well_formed(),
        ensures
            Self::resolve_frame(*old(self), *final(self)),
            final(self).well_formed(),
            method_sig(*old(self), subst@, self_ty, *m, sig),
            final(self).diagnostics.diagnostics@ == old(self).diagnostics.diagnostics@ + method_reports(
                *old(self),
                subst@,
                *m,
            ),
    {
        let ghost s0 = *self;
        let params = &m.ast_params;
        let mut resolved: Vec<(String, TypeId)> = Vec::new();
        let mut defaults: Vec<bool> = Vec::new();
        let mut i: usize = 0;
        while i < params.len()
            invariant
                i <= params@.len(),
                resolved@.len() == i,
                defaults@ =~= defaults_of(params@).take(i as int),
                forall|j: int|
                    0 <= j < i ==> (#[trigger] resolved@[j]).0@ == params@[j].name@ && resolved@[j].1 == (if params@[j].is_self {
                        self_ty
                    } else {
                        method_ty(s0, subst@, self_ty, params@[j].ty.node)
                    }),
                Self::resolve_frame(s0, *self),
                self.well_formed(),
                self.diagnostics.diagnostics@ == s0.diagnostics.diagnostics@ + method_params_reports(
                    s0,
                    subst@,
                    params@,
                    i as int,
                ),
            decreases params@.len() - i,
        {
            let t = if params[i].is_self {
                self_ty
            } else {
                self.resolve_method_ty(&params[i].ty, subst, self_ty)
            };
            proof {
                assert(self.diagnostics.diagnostics@ =~= s0.diagnostics.diagnostics@ + method_params_reports(
                    s0,
                    subst@,
                    params@,
                    i + 1,
                ));
            }
            resolved.push((params[i].name.clone(), t));
            defaults.push(params[i].default_value.is_some());
            i = i + 1;
        }
        assert(defaults@ =~= defaults_of(params@));
        let mut required: usize = 0;
        while required < defaults.len() && !defaults[required]
            invariant
                required <= defaults@.len(),
                forall|j: int| 0 <= j < required ==> !defaults@[j],
            decreases defaults@.len() - required,
        {
            required = required + 1;
        }
        proof {
            super::collect::lemma_leading_required(defaults@, required as int);
        }
        let is_method = params.len() > 0 && params[0].is_self;
        let is_mut_method = is_method && params[0].is_mut;
        let ret_ty = match &m.ast_return_type {
            Some(t) => self.resolve_method_ty(t, subst, self_ty),
            None => TypeId(0),
        };
        proof {
            assert(self.diagnostics.diagnostics@ =~= s0.diagnostics.diagnostics@ + method_reports(s0, subst@, *m));
        }
        FunctionSig {
            name: m.method_name.clone(),
            params: resolved,
            return_type: ret_ty,
            kind: FunctionKind::UserDefined,
            required_params: required,
            has_default: defaults,
            is_method,
            is_mut_method,
            is_pub: m.is_pub,
            source_file_id: m.span.file_id,
            def_span: m.span,
        }
    }

    /// Register the methods of a generic impl block for the instance named
    /// `mangled_type_name` (whose type is `self_ty`), each under
    /// `Instance__method`: a method whose key is taken is skipped.
    pub fn instantiate_impl_methods(
        &mut self,
        mangled_type_name: &String,
        self_ty: TypeId,
        methods: &Vec<GenericImplMethod>,
        subst: &Vec<(String, TypeId)>,
    )
        requires
            old(self).well_formed(),
        ensures
            final(self).structs == old(self).structs,
            final(self).enums == old(self).enums,
            final(self).type_aliases == old(self).type_aliases,
            final(self).types.kinds() == old(self).types.kinds(),
            final(self).well_formed(),
            forall|k: Seq<char>|
                old(self).functions.lookup(k) is Some ==> #[trigger] final(self).functions.lookup(k)
                    == old(self).functions.lookup(k),
            forall|k: Seq<char>|
                #[trigger] final(self).functions.lookup(k) != old(self).functions.lookup(k) ==> exists|i: int|
                    0 <= i < methods@.len() && k == mangled(mangled_type_name@, (#[trigger] methods@[i]).method_name@),
            impl_methods_registered(
                *old(self),
                *final(self),
                subst@,
                self_ty,
                mangled_type_name@,
                methods@,
                methods@.len() as int,
            ),
            final(self).diagnostics.diagnostics@ == old(self).diagnostics.diagnostics@ + impl_methods_reports(
                *old(self),
                subst@,
                mangled_type_name@,
                methods@,
                methods@.len() as int,
            ),
    {
        let ghost s0 = *self;
        let ghost owner = mangled_type_name@;
        let mut i: usize = 0;
        while i < methods.len()
            invariant
                i <= methods@.len(),
                owner == mangled_type_name@,
                self.structs == s0.structs,
                self.enums == s0.enums,
                self.type_aliases == s0.type_aliases,
                self.self_type == s0.self_type,
                self.types.kinds() == s0.types.kinds(),
                self.well_formed(),
                forall|k: Seq<char>|
                    s0.functions.lookup(k) is Some ==> #[trigger] self.functions.lookup(k) == s0.functions.lookup(k),
                forall|k: Seq<char>|
                    #[trigger] self.functions.lookup(k) != s0.functions.lookup(k) ==> exists|j: int|
                        0 <= j < i && k == mangled(owner, (#[trigger] methods@[j]).method_name@),
                forall|j: int|
                    0 <= j < i ==> self.functions.lookup(mangled(owner, (#[trigger] methods@[j]).method_name@)) is Some,
                impl_methods_registered(s0, *self, subst@, self_ty, owner, methods@, i as int),
                self.diagnostics.diagnostics@ == s0.diagnostics.diagnostics@ + impl_methods_reports(
                    s0,
                    subst@,
                    owner,
                    methods@,
                    i as int,
                ),
            decreases methods@.len() - i,
        {
            let ghost s1 = *self;
            let key = mangle(mangled_type_name, &methods[i].method_name);
            let ghost mut sg: FunctionSig = arbitrary();
            if self.functions.get_by_key(&key).is_none() {
                let sig = self.method_instance_sig(&methods[i], subst, self_ty);
                proof {
                    sg = sig;
                    lemma_method_sig_same_tables(s1, s0, subst@, self_ty, methods@[i as int], sg);
                }
                self.functions.insert(key, sig);
            }
            proof {
                lemma_instantiate_step(s0, s1, *self, subst@, self_ty, owner, methods@, i as int, sg);
            }
            i = i + 1;
        }
    }

    /// Type-check the bodies of the methods of a generic impl block for the
    /// instance named `mangled_type_name`, each under its key
    /// `Instance__method`.
    pub fn check_generic_impl_block(&mut self, mangled_type_name: &String, methods: &Vec<GenericImplMethod>)
        requires
            old(self).well_formed(),
        ensures
            super::diagnostics_extended(*old(self), *final(self)),
            final(self).functions == old(self).functions,
            final(self).structs == old(self).structs,
            final(self).enums == old(self).enums,
            final(self).type_aliases == old(self).type_aliases,
            final(self).types.kinds() == old(self).types.kinds(),
            final(self).well_formed(),
            forall|j: int|
                0 <= j < methods@.len() ==> super::items::body_reports(
                    super::typing::ctx_of(*old(self)),
                    mangled(mangled_type_name@, (#[trigger] methods@[j]).method_name@),
                    methods@[j].ast_params@,
                    methods@[j].ast_body,
                    old(self).diagnostics.diagnostics@,
                    final(self).diagnostics.diagnostics@,
                ),
    {
        let ghost s0 = *self;
        let mut i: usize = 0;
        while i < methods.len()
            invariant
                i <= methods@.len(),
                super::diagnostics_extended(s0, *self),
                self.functions == s0.functions,
                self.structs == s0.structs,
                self.enums == s0.enums,
                self.type_aliases == s0.type_aliases,
                self.types.kinds() == s0.types.kinds(),
                self.self_type == s0.self_type,
                self.well_formed(),
                forall|j: int|
                    0 <= j < i ==> super::items::body_reports(
                        super::typing::ctx_of(s0),
                        mangled(mangled_type_name@, (#[trigger] methods@[j]).method_name@),
                        methods@[j].ast_params@,
                        methods@[j].ast_body,
                        s0.diagnostics.diagnostics@,
                        self.diagnostics.diagnostics@,
                    ),
            decreases methods@.len() - i,
        {
            let ghost s1 = *self;
            let key = mangle(mangled_type_name, &methods[i].method_name);
            self.check_fn_body(&key, &methods[i].ast_params, &methods[i].ast_body);
            proof {
                super::items::lemma_extended_trans(s0, s1, *self);
                let d0 = s0.diagnostics.diagnostics@;
                let d1 = s1.diagnostics.diagnostics@;
                let dn = self.diagnostics.diagnostics@;
                assert(super::typing::ctx_of(s1) == super::typing::ctx_of(s0));
                assert forall|j: int| 0 <= j < i + 1 implies super::items::body_reports(
                    super::typing::ctx_of(s0),
                    mangled(mangled_type_name@, (#[trigger] methods@[j]).method_name@),
                    methods@[j].ast_params@,
                    methods@[j].ast_body,
                    d0,
                    dn,
                ) by {
                    let m = methods@[j];
                    if j < i {
                        super::items::lemma_body_reports_widen(
                            super::typing::ctx_of(s0),
                            mangled(mangled_type_name@, m.method_name@),
                            m.ast_params@,
                            m.ast_body,
                            d0,
                            d0,
                            d1,
                            dn,
                        );
                    } else {
                        super::items::lemma_body_reports_widen(
                            super::typing::ctx_of(s0),
                            mangled(mangled_type_name@, m.method_name@),
                            m.ast_params@,
                            m.ast_body,
                            d0,
                            d1,
                            dn,
                            dn,
                        );
                    }
                }
            }
            i = i + 1;
        }
    }

    /// Type-check the body of the instance of `g` registered under `key`:
    /// its parameters have the instance's types, and what the body reports
    /// is what `body_reports` says of the body under that name.
    pub fn check_generic_fn_body(&mut self, key: &String, g: &GenericFunctionDef)
        requires
            old(self).well_formed(),
        ensures
            super::diagnostics_extended(*old(self), *final(self)),
            final(self).functions == old(self).functions,
            final(self).structs == old(self).structs,
            final(self).enums == old(self).enums,
            final(self).type_aliases == old(self).type_aliases,
            final(self).types.kinds() == old(self).types.kinds(),
            final(self).well_formed(),
            super::items::body_reports(
                super::typing::ctx_of(*old(self)),
                key@,
                g.ast_params@,
                g.ast_body,
                old(self).diagnostics.diagnostics@,
                final(self).diagnostics.diagnostics@,
            ),
            super::items::clean_body(super::typing::ctx_of(*old(self)), key@, g.ast_params@, g.ast_body)
                ==> final(self).diagnostics == old(self).diagnostics,
    {
        self.check_fn_body(key, &g.ast_params, &g.ast_body);
    }
}

/// The type a written type stands for in a method of a generic impl block:
/// `Self` is the instance's type, a type parameter its type argument.
pub open spec fn method_ty(c: Checker, subst: Seq<(String, TypeId)>, self_ty: TypeId, te: TypeExpr) -> TypeId {
    if te matches TypeExpr::Named(n) && n@ == "Self"@ {
        self_ty
    } else {
        subst_ty(c, subst, te)
    }
}

/// What resolving a written type of a method reports.
pub open spec fn method_ty_report(c: Checker, subst: Seq<(String, TypeId)>, te: Spanned<TypeExpr>) -> Seq<
    CheckerDiagnostic,
> {
    if te.node matches TypeExpr::Named(n) && n@ == "Self"@ {
        Seq::empty()
    } else {
        subst_report(c, subst, te)
    }
}

/// What resolving the types of the first `n` parameters of a method
/// reports: the receiver has the instance's type and reports nothing.
pub open spec fn method_params_reports(c: Checker, subst: Seq<(String, TypeId)>, params: Seq<Param>, n: int) -> Seq<
    CheckerDiagnostic,
>
    decreases n,
{
    if n <= 0 || n > params.len() {
        Seq::empty()
    } else {
        method_params_reports(c, subst, params, n - 1) + if params[n - 1].is_self {
            Seq::<CheckerDiagnostic>::empty()
        } else {
            method_ty_report(c, subst, params[n - 1].ty)
        }
    }
}

/// What registering one method of a generic impl block reports.
pub open spec fn method_reports(c: Checker, subst: Seq<(String, TypeId)>, m: GenericImplMethod) -> Seq<CheckerDiagnostic> {
    method_params_reports(c, subst, m.ast_params@, m.ast_params@.len() as int) + match m.ast_return_type {
        Some(t) => method_ty_report(c, subst, t),
        None => Seq::empty(),
    }
}

/// The signature of a method of an instance of a generic impl block.
pub open spec fn method_sig(c: Checker, subst: Seq<(String, TypeId)>, self_ty: TypeId, m: GenericImplMethod, sig: FunctionSig) -> bool {
    let params = m.ast_params@;
    &&& sig.name@ == m.method_name@
    &&& sig.params@.len() == params.len()
    &&& forall|i: int|
        0 <= i < params.len() ==> (#[trigger] sig.params@[i]).0@ == params[i].name@ && sig.params@[i].1 == (if params[i].is_self {
            self_ty
        } else {
            method_ty(c, subst, self_ty, params[i].ty.node)
        })
    &&& sig.return_type == match m.ast_return_type {
        Some(t) => method_ty(c, subst, self_ty, t.node),
        None => TypeId(0),
    }
    &&& sig.kind == FunctionKind::UserDefined
    &&& sig.has_default@ == defaults_of(params)
    &&& sig.required_params == leading_required(defaults_of(params))
    &&& sig.is_method == (params.len() > 0 && params[0].is_self)
    &&& sig.is_mut_method == (params.len() > 0 && params[0].is_self && params[0].is_mut)
    &&& sig.is_pub == m.is_pub
    &&& sig.def_span == m.span
}

/// Whether the key of the `n`-th method was taken: registered before, or by
/// an earlier method of the block.
pub open spec fn method_taken(c: Checker, owner: Seq<char>, ms: Seq<GenericImplMethod>, n: int) -> bool {
    c.functions.lookup(mangled(owner, ms[n].method_name@)) is Some || exists|j: int|
        0 <= j < n && mangled(owner, (#[trigger] ms[j]).method_name@) == mangled(owner, ms[n].method_name@)
}

/// What registering the first `n` methods reports, in order: nothing for a
/// method whose key was taken.
pub open spec fn impl_methods_reports(
    c: Checker,
    subst: Seq<(String, TypeId)>,
    owner: Seq<char>,
    ms: Seq<GenericImplMethod>,
    n: int,
) -> Seq<CheckerDiagnostic>
    decreases n,
{
    if n <= 0 || n > ms.len() {
        Seq::empty()
    } else {
        impl_methods_reports(c, subst, owner, ms, n - 1) + if method_taken(c, owner, ms, n - 1) {
            Seq::<CheckerDiagnostic>::empty()
        } else {
            method_reports(c, subst, ms[n - 1])
        }
    }
}

/// Each of the first `n` methods whose key was not taken is registered
/// under its key with its instance signature.
pub open spec fn impl_methods_registered(
    c0: Checker,
    c1: Checker,
    subst: Seq<(String, TypeId)>,
    self_ty: TypeId,
    owner: Seq<char>,
    ms: Seq<GenericImplMethod>,
    n: int,
) -> bool {
    forall|i: int|
        #![trigger ms[i]]
        0 <= i < n && !method_taken(c0, owner, ms, i) ==> (c1.functions.lookup(mangled(owner, ms[i].method_name@)) matches Some(
            sig,
        ) && method_sig(c0, subst, self_ty, ms[i], sig))
}

proof fn lemma_method_reports_same(a: Checker, b: Checker, subst: Seq<(String, TypeId)>, params: Seq<Param>, n: int)
    requires
        a.structs == b.structs,
        a.enums == b.enums,
        a.type_aliases == b.type_aliases,
        a.self_type == b.self_type,
    ensures
        method_params_reports(a, subst, params, n) == method_params_reports(b, subst, params, n),
    decreases n,
{
    if !(n <= 0 || n > params.len()) {
        lemma_method_reports_same(a, b, subst, params, n - 1);
    }
}

/// A method's instance signature and reports depend on the checker only
/// through its type tables.
proof fn lemma_method_sig_same_tables(
    a: Checker,
    b: Checker,
    subst: Seq<(String, TypeId)>,
    self_ty: TypeId,
    m: GenericImplMethod,
    sig: FunctionSig,
)
    requires
        a.structs == b.structs,
        a.enums == b.enums,
        a.type_aliases == b.type_aliases,
        a.self_type == b.self_type,
        method_sig(a, subst, self_ty, m, sig),
    ensures
        method_sig(b, subst, self_ty, m, sig),
        method_reports(a, subst, m) == method_reports(b, subst, m),
{
    lemma_method_reports_same(a, b, subst, m.ast_params@, m.ast_params@.len() as int);
}

/// Registering one more method of a generic impl block keeps what the
/// loop over the methods states.
proof fn lemma_instantiate_step(
    s0: Checker,
    s1: Checker,
    s2: Checker,
    subst: Seq<(String, TypeId)>,
    self_ty: TypeId,
    owner: Seq<char>,
    ms: Seq<GenericImplMethod>,
    i: int,
    sig: FunctionSig,
)
    requires
        0 <= i < ms.len(),
        forall|k: Seq<char>|
            s0.functions.lookup(k) is Some ==> #[trigger] s1.functions.lookup(k) == s0.functions.lookup(k),
        forall|k: Seq<char>|
            #[trigger] s1.functions.lookup(k) != s0.functions.lookup(k) ==> exists|j: int|
                0 <= j < i && k == mangled(owner, (#[trigger] ms[j]).method_name@),
        forall|j: int| 0 <= j < i ==> s1.functions.lookup(mangled(owner, (#[trigger] ms[j]).method_name@)) is Some,
        impl_methods_registered(s0, s1, subst, self_ty, owner, ms, i),
        s1.diagnostics.diagnostics@ == s0.diagnostics.diagnostics@ + impl_methods_reports(s0, subst, owner, ms, i),
        s1.functions.lookup(mangled(owner, ms[i].method_name@)) is Some ==> s2.functions == s1.functions
            && s2.diagnostics.diagnostics@ == s1.diagnostics.diagnostics@,
        s1.functions.lookup(mangled(owner, ms[i].method_name@)) is None ==> (forall|k: Seq<char>|
            #[trigger] s2.functions.lookup(k) == (if k == mangled(owner, ms[i].method_name@) {
                Some(sig)
            } else {
                s1.functions.lookup(k)
            })) && method_sig(s0, subst, self_ty, ms[i], sig) && s2.diagnostics.diagnostics@
            == s1.diagnostics.diagnostics@ + method_reports(s0, subst, ms[i]),
    ensures
        forall|k: Seq<char>|
            s0.functions.lookup(k) is Some ==> #[trigger] s2.functions.lookup(k) == s0.functions.lookup(k),
        forall|k: Seq<char>|
            #[trigger] s2.functions.lookup(k) != s0.functions.lookup(k) ==> exists|j: int|
                0 <= j < i + 1 && k == mangled(owner, (#[trigger] ms[j]).method_name@),
        forall|j: int| 0 <= j < i + 1 ==> s2.functions.lookup(mangled(owner, (#[trigger] ms[j]).method_name@)) is Some,
        impl_methods_registered(s0, s2, subst, self_ty, owner, ms, i + 1),
        s2.diagnostics.diagnostics@ == s0.diagnostics.diagnostics@ + impl_methods_reports(s0, subst, owner, ms, i + 1),
{
    let key = mangled(owner, ms[i].method_name@);
    let taken1 = s1.functions.lookup(key) is Some;
    if taken1 {
        if s0.functions.lookup(key) is None {
            let j = choose|j: int| 0 <= j < i && key == mangled(owner, (#[trigger] ms[j]).method_name@);
            assert(mangled(owner, ms[j].method_name@) == mangled(owner, ms[i].method_name@));
        }
        assert(method_taken(s0, owner, ms, i));
    } else {
        if exists|j: int| 0 <= j < i && mangled(owner, (#[trigger] ms[j]).method_name@) == key {
            let j = choose|j: int| 0 <= j < i && mangled(owner, (#[trigger] ms[j]).method_name@) == key;
            assert(s1.functions.lookup(mangled(owner, ms[j].method_name@)) is Some);
        }
        if s0.functions.lookup(key) is Some {
            assert(s1.functions.lookup(key) == s0.functions.lookup(key));
        }
        assert(!method_taken(s0, owner, ms, i));
    }
    assert(s2.diagnostics.diagnostics@ =~= s0.diagnostics.diagnostics@ + impl_methods_reports(
        s0,
        subst,
        owner,
        ms,
        i + 1,
    ));
    assert forall|k: Seq<char>|
        #[trigger] s2.functions.lookup(k) != s0.functions.lookup(k) implies exists|j: int|
            0 <= j < i + 1 && k == mangled(owner, (#[trigger] ms[j]).method_name@) by {
        if s2.functions.lookup(k) == s1.functions.lookup(k) {
            let j = choose|j: int| 0 <= j < i && k == mangled(owner, (#[trigger] ms[j]).method_name@);
            assert(0 <= j < i + 1);
        } else {
            assert(k == mangled(owner, ms[i].method_name@));
        }
    }
    assert forall|j: int| 0 <= j < i + 1 implies s2.functions.lookup(
        mangled(owner, (#[trigger] ms[j]).method_name@),
    ) is Some by {
        if j < i {
            assert(s1.functions.lookup(mangled(owner, ms[j].method_name@)) is Some);
        }
    }
    assert forall|j: int|
        #![trigger ms[j]]
        0 <= j < i + 1 && !method_taken(s0, owner, ms, j) implies (s2.functions.lookup(
        mangled(owner, ms[j].method_name@),
    ) matches Some(sg) && method_sig(s0, subst, self_ty, ms[j], sg)) by {
        if j < i {
            let kj = mangled(owner, ms[j].method_name@);
            assert(s1.functions.lookup(kj) matches Some(sg) && method_sig(s0, subst, self_ty, ms[j], sg));
            if !taken1 && kj == key {
                assert(method_taken(s0, owner, ms, i)) by {
                    assert(mangled(owner, ms[j].method_name@) == mangled(owner, ms[i].method_name@));
                }
            }
        }
    }
}

/// Resolving under a substitution depends on the checker only through its
/// type tables.
proof fn lemma_subst_same_tables(a: Checker, b: Checker, subst: Seq<(String, TypeId)>, kind: VariantKind)
    requires
        a.structs == b.structs,
        a.enums == b.enums,
        a.type_aliases == b.type_aliases,
        a.self_type == b.self_type,
    ensures
        subst_variant_fields(a, subst, kind) == subst_variant_fields(b, subst, kind),
        subst_variant_reports(a, subst, kind) == subst_variant_reports(b, subst, kind),
{
    match kind {
        VariantKind::Unit => {},
        VariantKind::Tuple(types) => {
            assert(subst_variant_fields(a, subst, kind) =~= subst_variant_fields(b, subst, kind));
            lemma_types_reports_same(a, b, subst, types@, types@.len() as int);
        },
        VariantKind::Struct(fields) => {
            assert(subst_variant_fields(a, subst, kind) =~= subst_variant_fields(b, subst, kind));
            lemma_fields_reports_same(a, b, subst, fields@, fields@.len() as int);
        },
    }
}

proof fn lemma_types_reports_same(a: Checker, b: Checker, subst: Seq<(String, TypeId)>, types: Seq<Spanned<TypeExpr>>, n: int)
    requires
        a.structs == b.structs,
        a.enums == b.enums,
        a.type_aliases == b.type_aliases,
        a.self_type == b.self_type,
    ensures
        subst_types_reports(a, subst, types, n) == subst_types_reports(b, subst, types, n),
    decreases n,
{
    if !(n <= 0 || n > types.len()) {
        lemma_types_reports_same(a, b, subst, types, n - 1);
    }
}

proof fn lemma_fields_reports_same(a: Checker, b: Checker, subst: Seq<(String, TypeId)>, fields: Seq<StructField>, n: int)
    requires
        a.structs == b.structs,
        a.enums == b.enums,
        a.type_aliases == b.type_aliases,
        a.self_type == b.self_type,
    ensures
        subst_fields_reports(a, subst, fields, n) == subst_fields_reports(b, subst, fields, n),
    decreases n,
{
    if !(n <= 0 || n > fields.len()) {
        lemma_fields_reports_same(a, b, subst, fields, n - 1);
    }
}

/// Whether a written type resolves as written.
pub open spec fn resolved_type_some(c: Checker, te: TypeExpr) -> bool {
    super::resolved_type(c.structs@, c.enums@, c.type_aliases@, c.self_type, te) is Some
}

} // verus!
