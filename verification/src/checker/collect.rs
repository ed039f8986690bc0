use vstd::prelude::*;

use super::{
    builtin_type_named, leading_required, mangle, mangled, resolved_type, str_is, Checker,
    FunctionKind, FunctionSig,
};
use crate::ast::{EnumVariantDef, ExternFnDecl, Item, Param, SpannedItem, StructField, TypeExpr, VariantKind};
use crate::diagnostic::{decimal, to_decimal, CheckerDiagnostic};
use crate::scoped_locals::{bind, find_binding, scope_get};
use crate::span::{Span, Spanned};
use crate::types::{fields_view, variants_view, EnumVariant, KindView, TypeId, TypeKind, ERROR_ID};

verus! {

/// The type a written type denotes for the checker `c`; an unknown name
/// denotes the error type.
pub open spec fn declared_ty(c: Checker, t: TypeExpr) -> TypeId {
    match resolved_type(c.structs@, c.enums@, c.type_aliases@, c.self_type, t) {
        Some(r) => r,
        None => TypeId(ERROR_ID),
    }
}

/// The type of a parameter: the receiver of a method has the type of the
/// impl block, any other parameter its written type.
pub open spec fn param_decl_ty(c: Checker, self_ty: Option<TypeId>, p: Param) -> TypeId {
    if p.is_self && self_ty is Some {
        self_ty.unwrap()
    } else {
        declared_ty(c, p.ty.node)
    }
}

/// The return type a function declares; none declared is the unit type.
pub open spec fn ret_decl_ty(c: Checker, r: Option<Spanned<TypeExpr>>) -> TypeId {
    match r {
        Some(t) => declared_ty(c, t.node),
        None => TypeId(0),
    }
}

/// Whether each parameter has a default value.
pub open spec fn defaults_of(params: Seq<Param>) -> Seq<bool> {
    params.map_values(|p: Param| p.default_value is Some)
}

/// Whether `sig` is the signature the checker `c` gives a function with
/// these parameters and return type.
pub open spec fn sig_of(
    c: Checker,
    sig: FunctionSig,
    params: Seq<Param>,
    ret: Option<Spanned<TypeExpr>>,
    self_ty: Option<TypeId>,
) -> bool {
    &&& sig.params@.len() == params.len()
    &&& forall|i: int|
        0 <= i < params.len() ==> (#[trigger] sig.params@[i]).0@ == params[i].name@
            && sig.params@[i].1 == param_decl_ty(c, self_ty, params[i])
    &&& sig.return_type == ret_decl_ty(c, ret)
    &&& sig.has_default@ == defaults_of(params)
    &&& sig.required_params == leading_required(defaults_of(params))
    &&& sig.is_method == (params.len() > 0 && params[0].is_self)
    &&& sig.is_mut_method == (params.len() > 0 && params[0].is_self && params[0].is_mut)
}

/// What the collection pass keeps: diagnostics are only appended (none of
/// them about a missing `main`), and the settings, the symbol table and the
/// interned kinds already there stay.
pub open spec fn collect_frame(old: Checker, new: Checker) -> bool {
    &&& super::diagnostics_extended(old, new)
    &&& new.require_main == old.require_main
    &&& new.current_return_type == old.current_return_type
    &&& new.self_type == old.self_type
    &&& new.symbol_table == old.symbol_table
    &&& new.item_def_spans == old.item_def_spans
    &&& new.types.len() >= old.types.len()
    &&& forall|i: int| 0 <= i < old.types.len() ==> #[trigger] new.types.kinds()[i] == old.types.kinds()[i]
    &&& new.well_formed()
}

/// The mangled name a method item of an impl block for `owner` is
/// registered under.
pub open spec fn method_key(owner: Seq<char>, it: SpannedItem) -> Option<Seq<char>> {
    match it.node {
        Item::FnDef { name, .. } => Some(mangled(owner, name@)),
        _ => None,
    }
}

/// Whether `sig` is the signature the checker `c` gives a method item of an
/// impl block for the type `self_ty` (`Self` and the receiver standing for
/// that type).
pub open spec fn method_sig(c: Checker, self_ty: TypeId, sig: FunctionSig, it: SpannedItem) -> bool {
    match it.node {
        Item::FnDef { name, params, return_type, is_pub, .. } => {
            &&& sig_of(Checker { self_type: Some(self_ty), ..c }, sig, params@, return_type, Some(self_ty))
            &&& sig.name@ == name@
            &&& sig.kind == FunctionKind::UserDefined
            &&& sig.is_pub == is_pub
            &&& sig.def_span == it.span
        },
        _ => false,
    }
}

/// Every method of an impl block whose mangled name was free (and taken by
/// no earlier method of the block) is registered under that name with the
/// signature its declaration gives.
pub open spec fn methods_registered(
    c0: Checker,
    c1: Checker,
    owner: Seq<char>,
    self_ty: TypeId,
    methods: Seq<SpannedItem>,
    n: int,
) -> bool {
    forall|i: int|
        #![trigger method_key(owner, methods[i])]
        0 <= i < n && method_key(owner, methods[i]) is Some ==> {
            let k = method_key(owner, methods[i]).unwrap();
            c0.functions.lookup(k) is None && (forall|j: int|
                0 <= j < i ==> method_key(owner, methods[j]) != Some(k)) ==> (c1.functions.lookup(k) is Some
                && method_sig(c0, self_ty, c1.functions.lookup(k).unwrap(), methods[i]))
        }
}

/// Every function of an extern block whose name was free (and taken by no
/// earlier function of the block) is registered under its name as an
/// extern function with the signature its declaration gives.
pub open spec fn externs_registered(
    c0: Checker,
    c1: Checker,
    items: Seq<Spanned<ExternFnDecl>>,
    n: int,
) -> bool {
    forall|i: int|
        #![trigger items[i]]
        0 <= i < n ==> {
            let d = items[i].node;
            c0.functions.lookup(d.name@) is None && (forall|j: int|
                0 <= j < i ==> items[j].node.name@ != d.name@) ==> (c1.functions.lookup(d.name@) is Some
                && ({
                let sig = c1.functions.lookup(d.name@).unwrap();
                &&& sig_of(c0, sig, d.params@, d.return_type, None)
                &&& sig.name@ == d.name@
                &&& sig.kind == FunctionKind::Extern
                &&& sig.is_pub
                &&& sig.def_span == items[i].span
            }))
        }
}

/// Whether the name of the `n`-th extern declaration was taken: registered
/// before the block, or declared by an earlier declaration of it.
pub open spec fn extern_taken(c: Checker, items: Seq<Spanned<ExternFnDecl>>, n: int) -> bool {
    c.functions.lookup(items[n].node.name@) is Some || exists|j: int|
        0 <= j < n && (#[trigger] items[j]).node.name@ == items[n].node.name@
}

/// What registering the first `n` extern declarations reports, in order: a
/// duplicate function for a name that was taken, else the unknown types of
/// the signature.
pub open spec fn extern_reports(c: Checker, items: Seq<Spanned<ExternFnDecl>>, n: int) -> Seq<CheckerDiagnostic>
    decreases n,
{
    if n <= 0 || n > items.len() {
        Seq::empty()
    } else {
        let d = items[n - 1];
        extern_reports(c, items, n - 1) + if extern_taken(c, items, n - 1) {
            seq![CheckerDiagnostic::DuplicateFunction { span: d.span, name: d.node.name }]
        } else {
            sig_reports(c, None, d.node.params@, d.node.return_type)
        }
    }
}

/// Registering one more extern declaration appends its reports.
proof fn lemma_extern_step(s0: Checker, s1: Checker, s2: Checker, items: Seq<Spanned<ExternFnDecl>>, i: int)
    requires
        0 <= i < items.len(),
        s1.diagnostics.diagnostics@ == s0.diagnostics.diagnostics@ + extern_reports(s0, items, i),
        s1.structs == s0.structs,
        s1.enums == s0.enums,
        s1.type_aliases == s0.type_aliases,
        s1.self_type == s0.self_type,
        forall|k: Seq<char>|
            s0.functions.lookup(k) is Some ==> #[trigger] s1.functions.lookup(k) == s0.functions.lookup(k),
        forall|k: Seq<char>|
            #[trigger] s1.functions.lookup(k) != s0.functions.lookup(k) ==> exists|j: int|
                0 <= j < i && k == (#[trigger] items[j]).node.name@,
        forall|j: int| 0 <= j < i ==> s1.functions.lookup((#[trigger] items[j]).node.name@) is Some,
        s1.functions.lookup(items[i].node.name@) is Some ==> s2.diagnostics.diagnostics@
            == s1.diagnostics.diagnostics@.push(
            CheckerDiagnostic::DuplicateFunction { span: items[i].span, name: items[i].node.name },
        ),
        s1.functions.lookup(items[i].node.name@) is None ==> s2.diagnostics.diagnostics@
            == s1.diagnostics.diagnostics@ + sig_reports(s1, None, items[i].node.params@, items[i].node.return_type),
    ensures
        s2.diagnostics.diagnostics@ == s0.diagnostics.diagnostics@ + extern_reports(s0, items, i + 1),
{
    lemma_sig_reports_same_tables(s1, s0, None, items[i].node.params@, items[i].node.return_type);
    let nm = items[i].node.name@;
    if s1.functions.lookup(nm) is Some {
        if s0.functions.lookup(nm) is None {
            let j = choose|j: int| 0 <= j < i && nm == (#[trigger] items[j]).node.name@;
            assert(extern_taken(s0, items, i));
        }
        assert(extern_taken(s0, items, i));
    } else {
        if exists|j: int| 0 <= j < i && (#[trigger] items[j]).node.name@ == nm {
            let j = choose|j: int| 0 <= j < i && (#[trigger] items[j]).node.name@ == nm;
            assert(s1.functions.lookup(items[j].node.name@) is Some);
        }
        if s0.functions.lookup(nm) is Some {
            assert(s1.functions.lookup(nm) == s0.functions.lookup(nm));
        }
        assert(!extern_taken(s0, items, i));
    }
    assert(s2.diagnostics.diagnostics@ =~= s0.diagnostics.diagnostics@ + extern_reports(s0, items, i + 1));
}

/// The type an impl block's type name denotes: a struct, an enum, or a
/// built-in type.
pub open spec fn impl_target_ty(c: Checker, name: Seq<char>) -> Option<TypeId> {
    match scope_get(c.structs@, name) {
        Some(t) => Some(t),
        None => match scope_get(c.enums@, name) {
            Some(t) => Some(t),
            None => builtin_type_named(name),
        },
    }
}

/// Whether an item defines the function `main`.
pub open spec fn is_main_fn(it: SpannedItem) -> bool {
    match it.node {
        Item::FnDef { name, .. } => name@ == "main"@,
        _ => false,
    }
}

/// The declared fields of a struct, with the types the checker gives them.
pub open spec fn field_decls(c: Checker, fields: Seq<StructField>) -> Seq<(Seq<char>, TypeId)> {
    fields.map_values(|f: StructField| (f.name@, declared_ty(c, f.ty.node)))
}

/// The fields a variant declares, with the types the checker gives them:
/// a tuple variant's fields are named by their positions (`0`, `1`, ...).
pub open spec fn variant_fields(c: Checker, kind: VariantKind) -> Seq<(Seq<char>, TypeId)> {
    match kind {
        VariantKind::Unit => Seq::empty(),
        VariantKind::Tuple(types) => types@.map(
            |i: int, t: Spanned<TypeExpr>| (decimal(i as nat), declared_ty(c, t.node)),
        ),
        VariantKind::Struct(fields) => field_decls(c, fields@),
    }
}

/// The declared variants of an enum, with the fields the checker gives them.
pub open spec fn variant_decls(c: Checker, variants: Seq<EnumVariantDef>) -> Seq<
    (Seq<char>, Seq<(Seq<char>, TypeId)>),
> {
    variants.map_values(|v: EnumVariantDef| (v.name@, variant_fields(c, v.kind)))
}

/// Whether a name is taken by a struct or an enum.
pub open spec fn type_name_taken(c: Checker, name: Seq<char>) -> bool {
    scope_get(c.structs@, name) is Some || scope_get(c.enums@, name) is Some
}

/// What resolving a written type reports: an unknown name, once.
pub open spec fn type_report(c: Checker, t: Spanned<TypeExpr>) -> Seq<CheckerDiagnostic> {
    match resolved_type(c.structs@, c.enums@, c.type_aliases@, c.self_type, t.node) {
        Some(_) => Seq::empty(),
        None => seq![
            CheckerDiagnostic::UnknownType {
                span: t.span,
                name: match t.node {
                    TypeExpr::Named(n) => n,
                    TypeExpr::Unit => arbitrary(),
                },
            },
        ],
    }
}

/// What resolving the types of the first `n` parameters reports, in order
/// (the receiver of a method has the impl block's type and reports
/// nothing).
pub open spec fn param_reports(c: Checker, self_ty: Option<TypeId>, params: Seq<Param>, n: int) -> Seq<
    CheckerDiagnostic,
>
    decreases n,
{
    if n <= 0 || n > params.len() {
        Seq::empty()
    } else {
        param_reports(c, self_ty, params, n - 1) + if params[n - 1].is_self && self_ty is Some {
            Seq::<CheckerDiagnostic>::empty()
        } else {
            type_report(c, params[n - 1].ty)
        }
    }
}

/// What building a signature reports: the unknown parameter types in
/// order, then an unknown return type.
pub open spec fn sig_reports(c: Checker, self_ty: Option<TypeId>, params: Seq<Param>, ret: Option<Spanned<TypeExpr>>) -> Seq<
    CheckerDiagnostic,
> {
    param_reports(c, self_ty, params, params.len() as int) + match ret {
        Some(t) => type_report(c, t),
        None => Seq::empty(),
    }
}

/// What resolving the types of the first `n` fields reports: each unknown
/// field type, in order.
pub open spec fn field_reports(c: Checker, fields: Seq<StructField>, n: int) -> Seq<CheckerDiagnostic>
    decreases n,
{
    if n <= 0 || n > fields.len() {
        Seq::empty()
    } else {
        field_reports(c, fields, n - 1) + type_report(c, fields[n - 1].ty)
    }
}

/// What resolving the first `n` written types reports, in order.
pub open spec fn types_reports(c: Checker, types: Seq<Spanned<TypeExpr>>, n: int) -> Seq<CheckerDiagnostic>
    decreases n,
{
    if n <= 0 || n > types.len() {
        Seq::empty()
    } else {
        types_reports(c, types, n - 1) + type_report(c, types[n - 1])
    }
}

/// What resolving the field types of a variant reports.
pub open spec fn variant_kind_reports(c: Checker, k: VariantKind) -> Seq<CheckerDiagnostic> {
    match k {
        VariantKind::Unit => Seq::empty(),
        VariantKind::Tuple(ts) => types_reports(c, ts@, ts@.len() as int),
        VariantKind::Struct(fs) => field_reports(c, fs@, fs@.len() as int),
    }
}

/// What resolving the field types of the first `n` variants reports.
pub open spec fn variants_reports(c: Checker, vs: Seq<EnumVariantDef>, n: int) -> Seq<CheckerDiagnostic>
    decreases n,
{
    if n <= 0 || n > vs.len() {
        Seq::empty()
    } else {
        variants_reports(c, vs, n - 1) + variant_kind_reports(c, vs[n - 1].kind)
    }
}

/// Checkers with the same type tables report the same for a variant.
proof fn lemma_variant_reports_same_tables(a: Checker, b: Checker, k: VariantKind)
    requires
        a.structs == b.structs,
        a.enums == b.enums,
        a.type_aliases == b.type_aliases,
        a.self_type == b.self_type,
    ensures
        variant_kind_reports(a, k) == variant_kind_reports(b, k),
{
    match k {
        VariantKind::Unit => {},
        VariantKind::Tuple(ts) => {
            lemma_types_reports_same(a, b, ts@, ts@.len() as int);
        },
        VariantKind::Struct(fs) => {
            lemma_field_reports_same(a, b, fs@, fs@.len() as int);
        },
    }
}

proof fn lemma_types_reports_same(a: Checker, b: Checker, ts: Seq<Spanned<TypeExpr>>, n: int)
    requires
        a.structs == b.structs,
        a.enums == b.enums,
        a.type_aliases == b.type_aliases,
        a.self_type == b.self_type,
    ensures
        types_reports(a, ts, n) == types_reports(b, ts, n),
    decreases n,
{
    if n > 0 && n <= ts.len() {
        lemma_types_reports_same(a, b, ts, n - 1);
    }
}

proof fn lemma_field_reports_same(a: Checker, b: Checker, fs: Seq<StructField>, n: int)
    requires
        a.structs == b.structs,
        a.enums == b.enums,
        a.type_aliases == b.type_aliases,
        a.self_type == b.self_type,
    ensures
        field_reports(a, fs, n) == field_reports(b, fs, n),
    decreases n,
{
    if n > 0 && n <= fs.len() {
        lemma_field_reports_same(a, b, fs, n - 1);
    }
}

/// Whether a function item named `name` is a `main` with a signature other
/// than no parameters and the unit return type (none written, or `()`).
pub open spec fn bad_main(name: Seq<char>, params: Seq<Param>, ret: Option<Spanned<TypeExpr>>) -> bool {
    name == "main"@ && (params.len() > 0 || (ret is Some && !(ret.unwrap().node is Unit)))
}

/// What resolving parameter types reports is only unknown types.
proof fn lemma_param_reports_unknown(c: Checker, self_ty: Option<TypeId>, params: Seq<Param>, n: int)
    ensures
        forall|i: int|
            0 <= i < param_reports(c, self_ty, params, n).len() ==> #[trigger] param_reports(
                c,
                self_ty,
                params,
                n,
            )[i] is UnknownType,
    decreases n,
{
    if !(n <= 0 || n > params.len()) {
        lemma_param_reports_unknown(c, self_ty, params, n - 1);
        let a = param_reports(c, self_ty, params, n - 1);
        let b = if params[n - 1].is_self && self_ty is Some {
            Seq::<CheckerDiagnostic>::empty()
        } else {
            type_report(c, params[n - 1].ty)
        };
        assert(param_reports(c, self_ty, params, n) == a + b);
        assert forall|i: int| 0 <= i < (a + b).len() implies #[trigger] (a + b)[i] is UnknownType by {
            if i < a.len() {
                assert((a + b)[i] == a[i]);
            } else {
                assert((a + b)[i] == b[i - a.len()]);
            }
        }
    }
}

/// Collecting a function reports an invalid `main` signature exactly when it
/// is `main` and declares parameters or a return type other than `()`; the
/// report comes first, before any other of its reports.
pub proof fn law_main_signature_reported(c0: Checker, c1: Checker, item: SpannedItem)
    requires
        item.node is FnDef,
        collect_effect(c0, c1, item),
    ensures
        ({
            let d0 = c0.diagnostics.diagnostics@;
            let d1 = c1.diagnostics.diagnostics@;
            match item.node {
                Item::FnDef { name, params, return_type, .. } => (exists|i: int|
                    d0.len() <= i < d1.len() && #[trigger] d1[i] is InvalidMainSignature) == bad_main(
                    name@,
                    params@,
                    return_type,
                ) && (bad_main(name@, params@, return_type) ==> d1[d0.len() as int]
                    == CheckerDiagnostic::InvalidMainSignature { span: item.span }),
                _ => true,
            }
        }),
{
    if let Item::FnDef { name, params, return_type, .. } = item.node {
        let d0 = c0.diagnostics.diagnostics@;
        let d1 = c1.diagnostics.diagnostics@;
        let m = if bad_main(name@, params@, return_type) {
            seq![CheckerDiagnostic::InvalidMainSignature { span: item.span }]
        } else {
            Seq::empty()
        };
        let rest = if c0.functions.lookup(name@) is Some {
            seq![CheckerDiagnostic::DuplicateFunction { span: item.span, name }]
        } else {
            sig_reports(c0, None, params@, return_type)
        };
        assert(d1 == d0 + m + rest);
        lemma_param_reports_unknown(c0, None, params@, params@.len() as int);
        assert forall|j: int| 0 <= j < rest.len() implies !(#[trigger] rest[j] is InvalidMainSignature) by {
            if c0.functions.lookup(name@) is None {
                let pr = param_reports(c0, None, params@, params@.len() as int);
                let tr = match return_type {
                    Some(t) => type_report(c0, t),
                    None => Seq::empty(),
                };
                assert(rest == pr + tr);
                if j < pr.len() {
                    assert(rest[j] == pr[j]);
                } else {
                    assert(rest[j] == tr[j - pr.len()]);
                }
            }
        }
        if exists|i: int| d0.len() <= i < d1.len() && #[trigger] d1[i] is InvalidMainSignature {
            let i = choose|i: int| d0.len() <= i < d1.len() && #[trigger] d1[i] is InvalidMainSignature;
            if i >= d0.len() + m.len() {
                assert(d1[i] == rest[i - d0.len() - m.len()]);
            }
        }
        if bad_main(name@, params@, return_type) {
            assert(d1[d0.len() as int] == m[0]);
            assert(d1[d0.len() as int] is InvalidMainSignature);
        }
    }
}

/// What collecting an item does to the checker `c0`, giving `c1`.
pub open spec fn collect_effect(c0: Checker, c1: Checker, item: SpannedItem) -> bool {
    let d0 = c0.diagnostics.diagnostics@;
    let d1 = c1.diagnostics.diagnostics@;
    match item.node {
        Item::FnDef { name, params, return_type, is_pub, .. } => {
            &&& d1 == d0 + (if bad_main(name@, params@, return_type) {
                seq![CheckerDiagnostic::InvalidMainSignature { span: item.span }]
            } else {
                Seq::empty()
            }) + (if c0.functions.lookup(name@) is Some {
                seq![CheckerDiagnostic::DuplicateFunction { span: item.span, name }]
            } else {
                sig_reports(c0, None, params@, return_type)
            })
            &&& c0.functions.lookup(name@) is Some ==> c1.functions == c0.functions
            &&& c0.functions.lookup(name@) is None ==> (c1.functions.lookup(name@) matches Some(
                sig,
            ) && sig_of(c0, sig, params@, return_type, None) && sig.name@ == name@ && sig.kind
                == FunctionKind::UserDefined && sig.is_pub == is_pub && sig.def_span == item.span)
            &&& forall|k: Seq<char>|
                k != name@ ==> #[trigger] c1.functions.lookup(k) == c0.functions.lookup(k)
            &&& c1.structs == c0.structs
            &&& c1.enums == c0.enums
            &&& c1.type_aliases == c0.type_aliases
        },
        Item::StructDef { name, fields, is_extern, .. } => {
            &&& c1.functions == c0.functions
            &&& c1.enums == c0.enums
            &&& c1.type_aliases == c0.type_aliases
            &&& scope_get(c0.structs@, name@) is Some ==> c1.structs == c0.structs && d1 == d0.push(
                CheckerDiagnostic::DuplicateStruct { span: item.span, name },
            )
            &&& scope_get(c0.structs@, name@) is None ==> (scope_get(c1.structs@, name@) matches Some(
                id,
            ) && (id == TypeId(ERROR_ID) || c1.types.kind(id) == KindView::Struct {
                name: name@,
                fields: field_decls(c0, fields@),
                is_extern,
            }) && (c0.types.len() < u32::MAX ==> id != TypeId(ERROR_ID) && (!c0.types.kinds().contains(
                KindView::Struct { name: name@, fields: field_decls(c0, fields@), is_extern },
            ) ==> id.0 == c0.types.len())))
            &&& scope_get(c0.structs@, name@) is None ==> d1 == d0 + field_reports(c0, fields@, fields@.len() as int)
            &&& forall|k: Seq<char>|
                k != name@ ==> #[trigger] scope_get(c1.structs@, k) == scope_get(c0.structs@, k)
        },
        Item::ImplBlock { self_type, methods } => {
            &&& c1.structs == c0.structs
            &&& c1.enums == c0.enums
            &&& c1.type_aliases == c0.type_aliases
            &&& impl_target_ty(c0, self_type@) matches Some(t) ==> methods_registered(
                c0,
                c1,
                self_type@,
                t,
                methods@,
                methods@.len() as int,
            )
            &&& (!type_name_taken(c0, self_type@) && builtin_type_named(self_type@) is None)
                ==> c1.functions == c0.functions && d1 == d0.push(
                CheckerDiagnostic::UndefinedStruct { span: item.span, name: self_type },
            )
            &&& forall|k: Seq<char>|
                #[trigger] c1.functions.lookup(k) != c0.functions.lookup(k) ==> exists|i: int|
                    0 <= i < methods@.len() && method_key(self_type@, #[trigger] methods@[i]) == Some(k)
        },
        Item::EnumDef { name, variants, .. } => {
            &&& c1.functions == c0.functions
            &&& c1.structs == c0.structs
            &&& c1.type_aliases == c0.type_aliases
            &&& type_name_taken(c0, name@) ==> c1.enums == c0.enums && d1 == d0.push(
                CheckerDiagnostic::DuplicateStruct { span: item.span, name },
            )
            &&& !type_name_taken(c0, name@) ==> (scope_get(c1.enums@, name@) matches Some(id) && (id
                == TypeId(ERROR_ID) || c1.types.kind(id) == KindView::Enum {
                name: name@,
                variants: variant_decls(c0, variants@),
            }) && (c0.types.len() < u32::MAX ==> id != TypeId(ERROR_ID) && (!c0.types.kinds().contains(
                KindView::Enum { name: name@, variants: variant_decls(c0, variants@) },
            ) ==> id.0 == c0.types.len())))
            &&& !type_name_taken(c0, name@) ==> d1 == d0 + variants_reports(c0, variants@, variants@.len() as int)
            &&& forall|k: Seq<char>|
                k != name@ ==> #[trigger] scope_get(c1.enums@, k) == scope_get(c0.enums@, k)
        },
        Item::ExternBlock { items } => {
            &&& c1.structs == c0.structs
            &&& c1.enums == c0.enums
            &&& c1.type_aliases == c0.type_aliases
            &&& externs_registered(c0, c1, items@, items@.len() as int)
            &&& d1 == d0 + extern_reports(c0, items@, items@.len() as int)
            &&& forall|k: Seq<char>|
                #[trigger] c1.functions.lookup(k) != c0.functions.lookup(k) ==> exists|i: int|
                    0 <= i < items@.len() && k == (#[trigger] items@[i]).node.name@
        },
        Item::TypeAlias { name, ty, .. } => {
            &&& c1.functions == c0.functions
            &&& c1.structs == c0.structs
            &&& c1.enums == c0.enums
            &&& scope_get(c1.type_aliases@, name@) == Some(declared_ty(c0, ty.node))
            &&& forall|k: Seq<char>|
                k != name@ ==> #[trigger] scope_get(c1.type_aliases@, k) == scope_get(c0.type_aliases@, k)
            &&& resolved_type(c0.structs@, c0.enums@, c0.type_aliases@, c0.self_type, ty.node) is Some ==> d1
                == d0
            &&& resolved_type(c0.structs@, c0.enums@, c0.type_aliases@, c0.self_type, ty.node) is None ==> d1
                == d0.push(
                CheckerDiagnostic::UnknownType {
                    span: ty.span,
                    name: match ty.node {
                        TypeExpr::Named(n) => n,
                        TypeExpr::Unit => arbitrary(),
                    },
                },
            )
        },
    }
}

/// Two checkers with the same type tables and `Self` type report the same
/// unknown types in a signature.
pub proof fn lemma_sig_reports_same_tables(
    a: Checker,
    b: Checker,
    self_ty: Option<TypeId>,
    params: Seq<Param>,
    ret: Option<Spanned<TypeExpr>>,
)
    requires
        a.structs == b.structs,
        a.enums == b.enums,
        a.type_aliases == b.type_aliases,
        a.self_type == b.self_type,
    ensures
        sig_reports(a, self_ty, params, ret) == sig_reports(b, self_ty, params, ret),
{
    lemma_param_reports_same(a, b, self_ty, params, params.len() as int);
}

proof fn lemma_param_reports_same(a: Checker, b: Checker, self_ty: Option<TypeId>, params: Seq<Param>, n: int)
    requires
        a.structs == b.structs,
        a.enums == b.enums,
        a.type_aliases == b.type_aliases,
        a.self_type == b.self_type,
    ensures
        param_reports(a, self_ty, params, n) == param_reports(b, self_ty, params, n),
    decreases n,
{
    if n > 0 && n <= params.len() {
        lemma_param_reports_same(a, b, self_ty, params, n - 1);
    }
}

/// Two checkers with the same struct and enum tables and `Self` type give
/// the same signatures.
pub proof fn lemma_sig_of_same_tables(
    a: Checker,
    b: Checker,
    params: Seq<Param>,
    ret: Option<Spanned<TypeExpr>>,
    self_ty: Option<TypeId>,
)
    requires
        a.structs == b.structs,
        a.enums == b.enums,
        a.type_aliases == b.type_aliases,
        a.self_type == b.self_type,
    ensures
        forall|sig: FunctionSig| sig_of(a, sig, params, ret, self_ty) == sig_of(b, sig, params, ret, self_ty),
{
    assert forall|t: TypeExpr| declared_ty(a, t) == declared_ty(b, t) by {}
    assert forall|sig: FunctionSig| sig_of(a, sig, params, ret, self_ty) == sig_of(b, sig, params, ret, self_ty) by {
        assert forall|i: int| 0 <= i < params.len() implies param_decl_ty(a, self_ty, params[i])
            == param_decl_ty(b, self_ty, params[i]) by {}
        assert(ret_decl_ty(a, ret) == ret_decl_ty(b, ret));
    }
}

/// Two checkers with the same struct and enum tables and `Self` type give
/// a variant the same fields.
proof fn lemma_variant_fields_same_tables(a: Checker, b: Checker, k: VariantKind)
    requires
        a.structs == b.structs,
        a.enums == b.enums,
        a.type_aliases == b.type_aliases,
        a.self_type == b.self_type,
    ensures
        variant_fields(a, k) == variant_fields(b, k),
{
    assert forall|t: TypeExpr| declared_ty(a, t) == declared_ty(b, t) by {}
    assert(variant_fields(a, k) =~= variant_fields(b, k));
}

/// The number of leading `false` entries.
pub(crate) proof fn lemma_leading_required(d: Seq<bool>, i: int)
    requires
        0 <= i <= d.len(),
        forall|j: int| 0 <= j < i ==> !d[j],
        i < d.len() ==> d[i],
    ensures
        leading_required(d) == i,
    decreases d.len(),
{
    if d.len() > 0 {
        if i < d.len() {
            if i < d.len() - 1 {
                lemma_leading_required(d.drop_last(), i);
            } else {
                lemma_leading_required(d.drop_last(), i);
            }
        } else {
            lemma_leading_required(d.drop_last(), d.len() - 1);
        }
    }
}

impl Checker {
    /// The signature of a function with these parameters and return type;
    /// with `self_ty`, a receiver parameter has that type.
    fn build_sig(
        &mut self,
        name: &String,
        params: &Vec<Param>,
        ret: &Option<Spanned<TypeExpr>>,
        self_ty: Option<TypeId>,
        kind: FunctionKind,
        is_pub: bool,
        span: Span,
    ) -> (sig: FunctionSig)
        requires
            old(self).well_formed(),
        ensures
            collect_frame(*old(self), *final(self)),
            final(self).functions == old(self).functions,
            final(self).structs == old(self).structs,
            final(self).enums == old(self).enums,
            final(self).type_aliases == old(self).type_aliases,
            final(self).found_main == old(self).found_main,
            final(self).types.kinds() == old(self).types.kinds(),
            sig_of(*old(self), sig, params@, *ret, self_ty),
            sig.name@ == name@,
            sig.kind == kind,
            sig.is_pub == is_pub,
            sig.source_file_id == span.file_id,
            sig.def_span == span,
            final(self).diagnostics.diagnostics@ == old(self).diagnostics.diagnostics@ + sig_reports(
                *old(self),
                self_ty,
                params@,
                *ret,
            ),
    {
        let ghost s0 = *self;
        let mut resolved: Vec<(String, TypeId)> = Vec::new();
        let mut defaults: Vec<bool> = Vec::new();
        let mut i: usize = 0;
        while i < params.len()
            invariant
                i <= params@.len(),
                resolved@.len() == i,
                defaults@ == defaults_of(params@).take(i as int),
                forall|j: int|
                    0 <= j < i ==> (#[trigger] resolved@[j]).0@ == params@[j].name@ && resolved@[j].1
                        == param_decl_ty(s0, self_ty, params@[j]),
                Self::resolve_frame(s0, *self),
                super::diagnostics_extended(s0, *self),
                self.well_formed(),
                self.diagnostics.diagnostics@ == s0.diagnostics.diagnostics@ + param_reports(s0, self_ty, params@, i as int),
            decreases params@.len() - i,
        {
            let p = &params[i];
            let ghost dp = self.diagnostics.diagnostics@;
            let t = if p.is_self && self_ty.is_some() {
                self_ty.unwrap()
            } else {
                let ghost s1 = *self;
                let r = self.resolve_type(&p.ty);
                assert(super::diagnostics_extended(s1, *self));
                r
            };
            proof {
                assert(self.diagnostics.diagnostics@ =~= s0.diagnostics.diagnostics@ + param_reports(s0, self_ty, params@, i + 1));
            }
            resolved.push((p.name.clone(), t));
            defaults.push(p.default_value.is_some());
            assert(defaults@ =~= defaults_of(params@).take(i + 1));
            i = i + 1;
        }
        assert(defaults@ =~= defaults_of(params@));
        let mut required: usize = 0;
        while required < defaults.len() && !defaults[required]
            invariant
                required <= defaults@.len(),
                forall|j: int| 0 <= j < required ==> !defaults@[j],
            decreases defaults@.len() - required,
        {
            required = required + 1;
        }
        proof {
            lemma_leading_required(defaults@, required as int);
        }
        let is_method = params.len() > 0 && params[0].is_self;
        let is_mut_method = is_method && params[0].is_mut;
        let ret_ty = match ret {
            Some(t) => self.resolve_type(t),
            None => TypeId(0),
        };
        FunctionSig {
            name: name.clone(),
            params: resolved,
            return_type: ret_ty,
            kind,
            required_params: required,
            has_default: defaults,
            is_method,
            is_mut_method,
            is_pub,
            source_file_id: span.file_id,
            def_span: span,
        }
    }

    /// Register a function's signature under `name`, or report a duplicate.
    pub fn collect_fn_sig(
        &mut self,
        name: &String,
        params: &Vec<Param>,
        ret: &Option<Spanned<TypeExpr>>,
        self_ty: Option<TypeId>,
        kind: FunctionKind,
        is_pub: bool,
        span: Span,
    )
        requires
            old(self).well_formed(),
        ensures
            collect_frame(*old(self), *final(self)),
            final(self).structs == old(self).structs,
            final(self).enums == old(self).enums,
            final(self).type_aliases == old(self).type_aliases,
            final(self).found_main == old(self).found_main,
            final(self).types.kinds() == old(self).types.kinds(),
            old(self).functions.lookup(name@) is Some ==> final(self).functions == old(
                self,
            ).functions && final(self).diagnostics.diagnostics@ == old(
                self,
            ).diagnostics.diagnostics@.push(
                CheckerDiagnostic::DuplicateFunction { span, name: *name },
            ),
            old(self).functions.lookup(name@) is None ==> (final(self).functions.lookup(name@) matches Some(
                sig,
            ) && sig_of(*old(self), sig, params@, *ret, self_ty) && sig.name@ == name@ && sig.kind
                == kind && sig.is_pub == is_pub && sig.source_file_id == span.file_id
                && sig.def_span == span),
            old(self).functions.lookup(name@) is None ==> final(self).diagnostics.diagnostics@ == old(
                self,
            ).diagnostics.diagnostics@ + sig_reports(*old(self), self_ty, params@, *ret),
            forall|k: Seq<char>|
                k != name@ ==> #[trigger] final(self).functions.lookup(k) == old(self).functions.lookup(k),
    {
        if self.functions.get_by_key(name).is_some() {
            self.add(CheckerDiagnostic::DuplicateFunction { span, name: name.clone() });
            return;
        }
        let sig = self.build_sig(name, params, ret, self_ty, kind, is_pub, span);
        self.functions.insert(name.clone(), sig);
    }

    /// The type an impl block's type name denotes: a struct, an enum, or a
    /// built-in type.
    fn impl_target(&self, name: &String) -> (r: Option<TypeId>)
        ensures
            r == impl_target_ty(*self, name@),
    {
        match find_binding(&self.structs, name) {
            Some(i) => Some(self.structs[i].1),
            None => match find_binding(&self.enums, name) {
                Some(i) => Some(self.enums[i].1),
                None => super::builtin_type_id(name),
            },
        }
    }

    /// The declared fields with their resolved types (unknown types are
    /// reported).
    fn resolve_fields(&mut self, fields: &Vec<StructField>) -> (resolved: Vec<(String, TypeId)>)
        requires
            old(self).well_formed(),
        ensures
            fields_view(resolved@) == field_decls(*old(self), fields@),
            Self::resolve_frame(*old(self), *final(self)),
            super::diagnostics_extended(*old(self), *final(self)),
            final(self).well_formed(),
            final(self).diagnostics.diagnostics@ == old(self).diagnostics.diagnostics@ + field_reports(
                *old(self),
                fields@,
                fields@.len() as int,
            ),
    {
        let ghost s0 = *self;
        let mut resolved: Vec<(String, TypeId)> = Vec::new();
        let mut i: usize = 0;
        while i < fields.len()
            invariant
                i <= fields@.len(),
                resolved@.len() == i,
                fields_view(resolved@) == field_decls(s0, fields@).take(i as int),
                Self::resolve_frame(s0, *self),
                super::diagnostics_extended(s0, *self),
                self.well_formed(),
                self.diagnostics.diagnostics@ == s0.diagnostics.diagnostics@ + field_reports(s0, fields@, i as int),
            decreases fields@.len() - i,
        {
            let ghost d1 = self.diagnostics.diagnostics@;
            let t = self.resolve_type(&fields[i].ty);
            proof {
                assert(self.diagnostics.diagnostics@ =~= d1 + type_report(s0, fields@[i as int].ty));
                assert(self.diagnostics.diagnostics@ =~= s0.diagnostics.diagnostics@ + field_reports(
                    s0,
                    fields@,
                    i + 1,
                ));
            }
            let nm = fields[i].name.clone();
            let ghost before = resolved@;
            resolved.push((nm, t));
            assert(fields_view(resolved@) =~= fields_view(before).push((nm@, t)));
            assert(fields_view(resolved@) =~= field_decls(s0, fields@).take(i + 1));
            i = i + 1;
        }
        assert(field_decls(s0, fields@).take(i as int) =~= field_decls(s0, fields@));
        resolved
    }

    /// The fields a variant declares, with their resolved types; a tuple
    /// variant's fields are named by position.
    fn resolve_variant_fields(&mut self, kind: &VariantKind) -> (resolved: Vec<(String, TypeId)>)
        requires
            old(self).well_formed(),
        ensures
            fields_view(resolved@) == variant_fields(*old(self), *kind),
            Self::resolve_frame(*old(self), *final(self)),
            super::diagnostics_extended(*old(self), *final(self)),
            final(self).well_formed(),
            final(self).diagnostics.diagnostics@ == old(self).diagnostics.diagnostics@ + variant_kind_reports(
                *old(self),
                *kind,
            ),
    {
        match kind {
            VariantKind::Unit => {
                let v: Vec<(String, TypeId)> = Vec::new();
                assert(fields_view(v@) =~= variant_fields(*self, *kind));
                assert(self.diagnostics.diagnostics@ =~= old(self).diagnostics.diagnostics@ + Seq::empty());
                v
            },
            VariantKind::Tuple(types) => {
                let ghost s0 = *self;
                let mut resolved: Vec<(String, TypeId)> = Vec::new();
                let mut i: usize = 0;
                while i < types.len()
                    invariant
                        i <= types@.len(),
                        resolved@.len() == i,
                        fields_view(resolved@) == variant_fields(s0, *kind).take(i as int),
                        *kind is Tuple,
                        kind->Tuple_0 == *types,
                        Self::resolve_frame(s0, *self),
                        super::diagnostics_extended(s0, *self),
                        self.well_formed(),
                        self.diagnostics.diagnostics@ == s0.diagnostics.diagnostics@ + types_reports(
                            s0,
                            types@,
                            i as int,
                        ),
                    decreases types@.len() - i,
                {
                    let ghost d1 = self.diagnostics.diagnostics@;
                    let t = self.resolve_type(&types[i]);
                    proof {
                        assert(self.diagnostics.diagnostics@ =~= d1 + type_report(s0, types@[i as int]));
                        assert(self.diagnostics.diagnostics@ =~= s0.diagnostics.diagnostics@ + types_reports(
                            s0,
                            types@,
                            i + 1,
                        ));
                    }
                    let nm = to_decimal(i);
                    assert(t == declared_ty(s0, types@[i as int].node));
                    assert(variant_fields(s0, *kind)[i as int] == (nm@, t));
                    let ghost before = resolved@;
                    resolved.push((nm, t));
                    assert(fields_view(resolved@) =~= fields_view(before).push((nm@, t)));
                    assert(fields_view(resolved@) =~= variant_fields(s0, *kind).take(i + 1));
                    i = i + 1;
                }
                assert(variant_fields(s0, *kind).take(i as int) =~= variant_fields(s0, *kind));
                resolved
            },
            VariantKind::Struct(fields) => self.resolve_fields(fields),
        }
    }

    /// Register the methods of an impl block under mangled names
    /// `Type__method`, with `Self` standing for the block's type.
    fn collect_impl(&mut self, owner: &String, self_ty: TypeId, methods: &Vec<SpannedItem>)
        requires
            old(self).well_formed(),
            old(self).self_type is None,
        ensures
            collect_frame(*old(self), *final(self)),
            final(self).structs == old(self).structs,
            final(self).enums == old(self).enums,
            final(self).type_aliases == old(self).type_aliases,
            final(self).found_main == old(self).found_main,
            final(self).types.kinds() == old(self).types.kinds(),
            forall|k: Seq<char>|
                old(self).functions.lookup(k) is Some ==> #[trigger] final(self).functions.lookup(k)
                    == old(self).functions.lookup(k),
            forall|k: Seq<char>|
                #[trigger] final(self).functions.lookup(k) != old(self).functions.lookup(k) ==> exists|
                    i: int,
                |
                    0 <= i < methods@.len() && method_key(owner@, #[trigger] methods@[i]) == Some(k),
            methods_registered(*old(self), *final(self), owner@, self_ty, methods@, methods@.len() as int),
    {
        let ghost s0 = *self;
        self.self_type = Some(self_ty);
        let mut i: usize = 0;
        while i < methods.len()
            invariant
                i <= methods@.len(),
                self.self_type == Some(self_ty),
                super::diagnostics_extended(s0, *self),
                self.require_main == s0.require_main,
                self.current_return_type == s0.current_return_type,
                self.symbol_table == s0.symbol_table,
                self.item_def_spans == s0.item_def_spans,
                self.types.kinds() == s0.types.kinds(),
                self.structs == s0.structs,
                self.enums == s0.enums,
                self.type_aliases == s0.type_aliases,
                self.found_main == s0.found_main,
                self.well_formed(),
                forall|k: Seq<char>|
                    s0.functions.lookup(k) is Some ==> #[trigger] self.functions.lookup(k)
                        == s0.functions.lookup(k),
                forall|k: Seq<char>|
                    #[trigger] self.functions.lookup(k) != s0.functions.lookup(k) ==> exists|j: int|
                        0 <= j < i && method_key(owner@, #[trigger] methods@[j]) == Some(k),
                forall|j: int|
                    0 <= j < i && #[trigger] method_key(owner@, methods@[j]) is Some ==> self.functions.lookup(
                        method_key(owner@, methods@[j]).unwrap(),
                    ) is Some,
                methods_registered(s0, *self, owner@, self_ty, methods@, i as int),
            decreases methods@.len() - i,
        {
            let ghost s1 = *self;
            if let Item::FnDef { name, params, return_type, is_pub, .. } = &methods[i].node {
                let key = mangle(owner, name);
                if self.functions.get_by_key(&key).is_some() {
                    let _ = self.build_sig(name, params, return_type, Some(self_ty), FunctionKind::UserDefined, *is_pub, methods[i].span);
                    self.add(CheckerDiagnostic::DuplicateFunction { span: methods[i].span, name: key });
                } else {
                    let ghost sb = *self;
                    let sig = self.build_sig(
                        name,
                        params,
                        return_type,
                        Some(self_ty),
                        FunctionKind::UserDefined,
                        *is_pub,
                        methods[i].span,
                    );
                    proof {
                        lemma_sig_of_same_tables(sb, Checker { self_type: Some(self_ty), ..s0 }, params@, *return_type, Some(self_ty));
                        assert(method_sig(s0, self_ty, sig, methods@[i as int]));
                    }
                    self.functions.insert(key, sig);
                }
                proof {
                    assert forall|k: Seq<char>|
                        #[trigger] self.functions.lookup(k) != s0.functions.lookup(k) implies exists|j: int|
                            0 <= j < i + 1 && method_key(owner@, #[trigger] methods@[j]) == Some(k) by {
                        if self.functions.lookup(k) == s1.functions.lookup(k) {
                            let j = choose|j: int|
                                0 <= j < i && method_key(owner@, #[trigger] methods@[j]) == Some(k);
                            assert(0 <= j < i + 1);
                        } else {
                            assert(method_key(owner@, methods@[i as int]) == Some(k));
                        }
                    }
                }
            }
            i = i + 1;
        }
        self.self_type = None;
    }

    /// Register the functions of an extern block.
    fn collect_externs(&mut self, items: &Vec<Spanned<ExternFnDecl>>)
        requires
            old(self).well_formed(),
        ensures
            collect_frame(*old(self), *final(self)),
            final(self).structs == old(self).structs,
            final(self).enums == old(self).enums,
            final(self).type_aliases == old(self).type_aliases,
            final(self).found_main == old(self).found_main,
            final(self).types.kinds() == old(self).types.kinds(),
            forall|k: Seq<char>|
                old(self).functions.lookup(k) is Some ==> #[trigger] final(self).functions.lookup(k)
                    == old(self).functions.lookup(k),
            forall|k: Seq<char>|
                #[trigger] final(self).functions.lookup(k) != old(self).functions.lookup(k) ==> exists|
                    i: int,
                | 0 <= i < items@.len() && k == (#[trigger] items@[i]).node.name@,
            externs_registered(*old(self), *final(self), items@, items@.len() as int),
            final(self).diagnostics.diagnostics@ == old(self).diagnostics.diagnostics@ + extern_reports(
                *old(self),
                items@,
                items@.len() as int,
            ),
    {
        let ghost s0 = *self;
        let mut i: usize = 0;
        while i < items.len()
            invariant
                i <= items@.len(),
                collect_frame(s0, *self),
                self.types.kinds() == s0.types.kinds(),
                self.structs == s0.structs,
                self.enums == s0.enums,
                self.type_aliases == s0.type_aliases,
                self.found_main == s0.found_main,
                forall|k: Seq<char>|
                    s0.functions.lookup(k) is Some ==> #[trigger] self.functions.lookup(k)
                        == s0.functions.lookup(k),
                forall|k: Seq<char>|
                    #[trigger] self.functions.lookup(k) != s0.functions.lookup(k) ==> exists|j: int|
                        0 <= j < i && k == (#[trigger] items@[j]).node.name@,
                forall|j: int| 0 <= j < i ==> self.functions.lookup((#[trigger] items@[j]).node.name@) is Some,
                externs_registered(s0, *self, items@, i as int),
                self.diagnostics.diagnostics@ == s0.diagnostics.diagnostics@ + extern_reports(s0, items@, i as int),
                self.self_type == s0.self_type,
            decreases items@.len() - i,
        {
            let ghost s1 = *self;
            let decl = &items[i].node;
            self.collect_fn_sig(
                &decl.name,
                &decl.params,
                &decl.return_type,
                None,
                FunctionKind::Extern,
                true,
                items[i].span,
            );
            proof {
                lemma_sig_of_same_tables(s1, s0, decl.params@, decl.return_type, None);
                assert forall|k: Seq<char>|
                    #[trigger] self.functions.lookup(k) != s0.functions.lookup(k) implies exists|j: int|
                        0 <= j < i + 1 && k == (#[trigger] items@[j]).node.name@ by {
                    if self.functions.lookup(k) == s1.functions.lookup(k) {
                        let j = choose|j: int| 0 <= j < i && k == (#[trigger] items@[j]).node.name@;
                        assert(0 <= j < i + 1);
                    } else {
                        assert(k == items@[i as int].node.name@);
                    }
                }
                lemma_extern_step(s0, s1, *self, items@, i as int);
            }
            i = i + 1;
        }
    }

    /// Pass one: record what an item declares (functions, structs, methods,
    /// extern functions) before any body is checked.
    pub fn collect_item(&mut self, item: &SpannedItem)
        requires
            old(self).well_formed(),
            old(self).self_type is None,
        ensures
            collect_frame(*old(self), *final(self)),
            final(self).found_main == (old(self).found_main || is_main_fn(*item)),
            forall|k: Seq<char>|
                old(self).functions.lookup(k) is Some ==> #[trigger] final(self).functions.lookup(k)
                    == old(self).functions.lookup(k),
            collect_effect(*old(self), *final(self), *item),
    {
        let ghost s0 = *self;
        match &item.node {
            Item::FnDef { name, params, return_type, is_pub, .. } => {
                if str_is(name, "main") {
                    self.found_main = true;
                    let non_unit = match return_type {
                        Some(t) => !matches!(t.node, TypeExpr::Unit),
                        None => false,
                    };
                    if params.len() > 0 || non_unit {
                        self.add(CheckerDiagnostic::InvalidMainSignature { span: item.span });
                    }
                }
                let ghost s1 = *self;
                self.collect_fn_sig(
                    name,
                    params,
                    return_type,
                    None,
                    FunctionKind::UserDefined,
                    *is_pub,
                    item.span,
                );
                proof {
                    lemma_sig_of_same_tables(s1, s0, params@, *return_type, None);
                    lemma_sig_reports_same_tables(s1, s0, None, params@, *return_type);
                    let main_part = if bad_main(name@, params@, *return_type) {
                        seq![CheckerDiagnostic::InvalidMainSignature { span: item.span }]
                    } else {
                        Seq::empty()
                    };
                    assert(s1.diagnostics.diagnostics@ =~= s0.diagnostics.diagnostics@ + main_part);
                    let rest = if s0.functions.lookup(name@) is Some {
                        seq![CheckerDiagnostic::DuplicateFunction { span: item.span, name: *name }]
                    } else {
                        sig_reports(s0, None, params@, *return_type)
                    };
                    assert(self.diagnostics.diagnostics@ =~= s1.diagnostics.diagnostics@ + rest);
                    assert(self.diagnostics.diagnostics@ =~= s0.diagnostics.diagnostics@ + main_part + rest);
                    if s0.functions.lookup(name@) is None {
                        let sig = self.functions.lookup(name@).unwrap();
                        assert(sig_of(s1, sig, params@, *return_type, None));
                    }
                }
            },
            Item::StructDef { name, fields, is_extern, .. } => {
                if find_binding(&self.structs, name).is_some() {
                    self.add(CheckerDiagnostic::DuplicateStruct { span: item.span, name: name.clone() });
                    return;
                }
                let resolved = self.resolve_fields(fields);
                let id = self.types.intern(
                    TypeKind::Struct { name: name.clone(), fields: resolved, is_extern: *is_extern },
                );
                bind(&mut self.structs, name.clone(), id);
            },
            Item::EnumDef { name, variants, .. } => {
                if find_binding(&self.structs, name).is_some() || find_binding(&self.enums, name).is_some() {
                    self.add(CheckerDiagnostic::DuplicateStruct { span: item.span, name: name.clone() });
                    return;
                }
                let mut resolved: Vec<EnumVariant> = Vec::new();
                let mut i: usize = 0;
                while i < variants.len()
                    invariant
                        i <= variants@.len(),
                        resolved@.len() == i,
                        variants_view(resolved@) == variant_decls(s0, variants@).take(i as int),
                        Self::resolve_frame(s0, *self),
                        super::diagnostics_extended(s0, *self),
                        self.well_formed(),
                        self.diagnostics.diagnostics@ == s0.diagnostics.diagnostics@ + variants_reports(
                            s0,
                            variants@,
                            i as int,
                        ),
                    decreases variants@.len() - i,
                {
                    let ghost sb = *self;
                    let fields = self.resolve_variant_fields(&variants[i].kind);
                    proof {
                        lemma_variant_fields_same_tables(sb, s0, variants@[i as int].kind);
                        lemma_variant_reports_same_tables(sb, s0, variants@[i as int].kind);
                        assert(self.diagnostics.diagnostics@ =~= s0.diagnostics.diagnostics@ + variants_reports(
                            s0,
                            variants@,
                            i + 1,
                        ));
                    }
                    let nm = variants[i].name.clone();
                    let ghost before = resolved@;
                    let ghost fv = fields_view(fields@);
                    resolved.push(EnumVariant { name: nm, fields });
                    assert(variants_view(resolved@) =~= variants_view(before).push((nm@, fv)));
                    assert(variants_view(resolved@) =~= variant_decls(s0, variants@).take(i + 1));
                    i = i + 1;
                }
                assert(variant_decls(s0, variants@).take(i as int) =~= variant_decls(s0, variants@));
                let id = self.types.intern(TypeKind::Enum { name: name.clone(), variants: resolved });
                bind(&mut self.enums, name.clone(), id);
            },
            Item::ImplBlock { self_type, methods } => {
                match self.impl_target(self_type) {
                    Some(t) => {
                        self.collect_impl(self_type, t, methods);
                    },
                    None => {
                        self.add(
                            CheckerDiagnostic::UndefinedStruct { span: item.span, name: self_type.clone() },
                        );
                    },
                }
            },
            Item::ExternBlock { items } => {
                self.collect_externs(items);
            },
            Item::TypeAlias { name, ty, .. } => {
                let t = self.resolve_type(ty);
                bind(&mut self.type_aliases, name.clone(), t);
            },
        }
    }
}

} // verus!
