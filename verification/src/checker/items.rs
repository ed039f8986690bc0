use vstd::prelude::*;

use super::builtins::{builtin_holds, builtin_signature};
use super::collect::{collect_effect, is_main_fn};
use super::expr::{clean_block, lasting_reports, lemma_lasting_widen, lemma_stmt_reported_widen, stmt_reported};
use super::typing::{block_ty, ctx_of, env_of, stmts_env, ty_name, TyCtx};
use super::{mangle, mangled, CheckedModule, Checker, FunctionKind, FunctionSig, LocalInfo};
use crate::ast::{Block, Item, Module, Param, SpannedItem};
use crate::diagnostic::{CheckerDiagnostic, DiagnosticBag};
use crate::scoped_locals::{lookup, scope_get, ScopedLocals};
use crate::span::{Span, Spanned};
use crate::symbol_table::SymbolKind;
use crate::types::{TypeId, ERROR_ID};

verus! {

/// The locals a function body starts with: its parameters, each with the
/// type its signature gives it.
pub open spec fn param_env(sig_params: Seq<(String, TypeId)>, params: Seq<Param>, n: nat) -> Map<
    Seq<char>,
    LocalInfo,
>
    decreases n,
{
    if n == 0 || n > sig_params.len() {
        Map::empty()
    } else {
        let i = n - 1;
        param_env(sig_params, params, (n - 1) as nat).insert(
            sig_params[i].0@,
            LocalInfo {
                ty: sig_params[i].1,
                is_mut: i < params.len() && params[i].is_mut,
                def_span: if i < params.len() {
                    params[i].ty.span
                } else {
                    Span { file_id: crate::span::FileId(0), start: 0, end: 0 }
                },
            },
        )
    }
}

/// Whether a name holds two underscores in a row (the mark of a mangled
/// method name).
pub open spec fn has_double_underscore(s: Seq<char>) -> bool {
    exists|i: int| 0 <= i < s.len() - 1 && s[i] == '_' && #[trigger] s[i + 1] == '_'
}

/// File symbols as values.
pub open spec fn symbols_view(fs: Seq<(String, SymbolKind, Option<TypeId>, Span)>) -> Seq<
    (Seq<char>, SymbolKind, Option<TypeId>, Span),
> {
    fs.map_values(|e: (String, SymbolKind, Option<TypeId>, Span)| (e.0@, e.1, e.2, e.3))
}

/// The completion symbols of a function table: each user-defined function
/// whose name holds no `__`, in table order.
pub open spec fn function_symbols(entries: Seq<(String, FunctionSig)>) -> Seq<
    (Seq<char>, SymbolKind, Option<TypeId>, Span),
>
    decreases entries.len(),
{
    if entries.len() == 0 {
        Seq::empty()
    } else {
        let e = entries.last();
        let rest = function_symbols(entries.drop_last());
        if !has_double_underscore(e.0@) && e.1.kind == FunctionKind::UserDefined {
            rest.push((e.0@, SymbolKind::Function, Some(e.1.return_type), e.1.def_span))
        } else {
            rest
        }
    }
}

/// The completion symbols of a table of named types, each with the span
/// its definition is recorded at (a dummy span when none is).
pub open spec fn type_symbols(
    table: Seq<(String, TypeId)>,
    kind: SymbolKind,
    spans: Seq<(String, Span)>,
) -> Seq<(Seq<char>, SymbolKind, Option<TypeId>, Span)> {
    table.map_values(
        |e: (String, TypeId)|
            (
                e.0@,
                kind,
                Some(e.1),
                match scope_get(spans, e.0@) {
                    Some(sp) => sp,
                    None => Span { file_id: crate::span::FileId(0), start: 0, end: 0 },
                },
            ),
    )
}

pub fn contains_double_underscore(s: &String) -> (r: bool)
    ensures
        r == has_double_underscore(s@),
{
    let st = s.as_str();
    let n = st.unicode_len();
    let mut i: usize = 0;
    let mut prev_underscore = false;
    while i < n
        invariant
            i <= n,
            n == s@.len(),
            st@ == s@,
            prev_underscore == (i > 0 && s@[i - 1] == '_'),
            forall|j: int| 0 <= j < i - 1 ==> !(s@[j] == '_' && #[trigger] s@[j + 1] == '_'),
        decreases n - i,
    {
        let c = st.get_char(i);
        if c == '_' && prev_underscore {
            assert(s@[i - 1] == '_' && s@[(i - 1) + 1] == '_');
            return true;
        }
        prev_underscore = c == '_';
        i = i + 1;
    }
    false
}

/// The states a checker passes through while collecting `items`, one item
/// after another: each step is what collecting that item does.
pub open spec fn collect_chain(st: Seq<Checker>, items: Seq<SpannedItem>) -> bool {
    &&& st.len() == items.len() + 1
    &&& forall|j: int| 0 <= j < items.len() ==> collect_effect(#[trigger] st[j], st[j + 1], items[j])
}

/// How a check of `items` that started from `c` and ended with the table
/// `functions` and the diagnostics `d` went through the states `st`: the
/// built-in functions were registered first (adding no diagnostic), then
/// the items were collected in order, and the diagnostics of collecting
/// them stand first in `d`; when the second pass can report nothing, `d`
/// holds nothing more but the report of a missing `main`.
pub open spec fn checked_through(
    c: Checker,
    items: Seq<SpannedItem>,
    functions: super::FunctionTable,
    d: Seq<CheckerDiagnostic>,
    st: Seq<Checker>,
) -> bool {
    &&& collect_chain(st, items)
    &&& st[0].diagnostics == c.diagnostics
    &&& st[0].structs == c.structs
    &&& st[0].enums == c.enums
    &&& st[0].type_aliases == c.type_aliases
    &&& forall|k: Seq<char>| builtin_signature(k) is Some ==> #[trigger] builtin_holds(st[0].functions, k)
    &&& forall|k: Seq<char>|
        builtin_signature(k) is None ==> #[trigger] st[0].functions.lookup(k) == c.functions.lookup(k)
    &&& functions == st.last().functions
    &&& st.last().diagnostics.diagnostics@.len() <= d.len()
    &&& d.subrange(0, st.last().diagnostics.diagnostics@.len() as int) == st.last().diagnostics.diagnostics@
    &&& items_clean(ctx_of(st.last()), items) ==> d.len() == st.last().diagnostics.diagnostics@.len() + (if st.last().require_main
        && !st.last().found_main {
        1int
    } else {
        0int
    })
}

/// Some run of states takes a check of `items` from `c` to the table
/// `functions` and the diagnostics `d` as `checked_through` says.
pub open spec fn check_history(
    c: Checker,
    items: Seq<SpannedItem>,
    functions: super::FunctionTable,
    d: Seq<CheckerDiagnostic>,
) -> bool {
    exists|st: Seq<Checker>| #[trigger] checked_through(c, items, functions, d, st)
}

/// The typing context a checked module gives (no `Self` type).
pub open spec fn checked_ctx(m: CheckedModule) -> TyCtx {
    (m.functions, m.structs@, m.types.kinds(), None, m.enums@, m.type_aliases@)
}

/// The locals a body of the function registered under `fn_key` starts
/// with, in the context `x`.
pub open spec fn body_env(x: TyCtx, fn_key: Seq<char>, params: Seq<Param>) -> Map<Seq<char>, LocalInfo> {
    match x.0.lookup(fn_key) {
        Some(sig) => param_env(sig.params@, params, sig.params@.len()),
        None => Map::empty(),
    }
}

/// The return type of the function registered under `fn_key` (unit when
/// there is none).
pub open spec fn body_ret(x: TyCtx, fn_key: Seq<char>) -> TypeId {
    match x.0.lookup(fn_key) {
        Some(sig) => sig.return_type,
        None => TypeId(0),
    }
}

/// What checking the body of the function registered under `fn_key`
/// reports, among the diagnostics `after` holds beyond the first
/// `before.len()`: what each statement and the final expression lastingly
/// report, and a body whose type is not the declared return type (unless
/// the body leaves by `return` or either type is the error type).
pub open spec fn body_reports(
    x: TyCtx,
    fn_key: Seq<char>,
    params: Seq<Param>,
    body: Spanned<Block>,
    before: Seq<CheckerDiagnostic>,
    after: Seq<CheckerDiagnostic>,
) -> bool {
    let env = body_env(x, fn_key, params);
    let stmts = body.node.stmts@;
    let ret = body_ret(x, fn_key);
    let bt = block_ty(x, env, body.node);
    &&& forall|i: int|
        0 <= i < stmts.len() ==> stmt_reported(
            x,
            stmts_env(x, env, stmts, i as nat),
            #[trigger] stmts[i],
            before,
            after,
        )
    &&& body.node.tail_expr is Some ==> lasting_reports(
        x,
        stmts_env(x, env, stmts, stmts.len()),
        *body.node.tail_expr.unwrap(),
        before,
        after,
    )
    &&& bt != ret && bt != TypeId(ERROR_ID) && ret != TypeId(ERROR_ID) && bt != TypeId(17) ==> exists|k: int|
        before.len() <= k < after.len() && (#[trigger] after[k] matches CheckerDiagnostic::ReturnTypeMismatch {
            span,
            expected,
            found,
        } && span == body.span && expected@ == ty_name(x, ret) && found@ == ty_name(x, bt))
}

/// Whether checking the body of the function registered under `fn_key`
/// can report nothing: the block is clean and its type is the declared
/// return type (or the body leaves by `return`, or either type is the
/// error type).
pub open spec fn clean_body(x: TyCtx, fn_key: Seq<char>, params: Seq<Param>, body: Spanned<Block>) -> bool {
    let env = body_env(x, fn_key, params);
    let ret = body_ret(x, fn_key);
    let bt = block_ty(x, env, body.node);
    &&& clean_block(x, env, body.node)
    &&& (bt == ret || bt == TypeId(ERROR_ID) || ret == TypeId(ERROR_ID) || bt == TypeId(17))
}

/// Whether the second pass over `items` can report nothing: every
/// function's and every method's body is clean.
pub open spec fn items_clean(x: TyCtx, items: Seq<SpannedItem>) -> bool {
    forall|i: int|
        0 <= i < items.len() ==> match (#[trigger] items[i]).node {
            Item::FnDef { name, params, body, .. } => clean_body(x, name@, params@, body),
            Item::ImplBlock { self_type, methods } => methods_clean(x, self_type@, methods@),
            _ => true,
        }
}

/// Whether checking the methods of an impl block for `owner` can report
/// nothing: every method's body (under its mangled name) is clean.
pub open spec fn methods_clean(x: TyCtx, owner: Seq<char>, methods: Seq<SpannedItem>) -> bool {
    forall|j: int|
        0 <= j < methods.len() ==> match (#[trigger] methods[j]).node {
            Item::FnDef { name, params, body, .. } => clean_body(x, mangled(owner, name@), params@, body),
            _ => true,
        }
}

/// Each method of an impl block for `owner` reported what its body
/// (checked under its mangled name) reports, between `before` and `after`.
pub open spec fn methods_reported(
    x: TyCtx,
    owner: Seq<char>,
    methods: Seq<SpannedItem>,
    before: Seq<CheckerDiagnostic>,
    after: Seq<CheckerDiagnostic>,
) -> bool {
    forall|j: int|
        0 <= j < methods.len() ==> match (#[trigger] methods[j]).node {
            Item::FnDef { name, params, body, .. } => body_reports(
                x,
                mangled(owner, name@),
                params@,
                body,
                before,
                after,
            ),
            _ => true,
        }
}

/// What the methods reported between two points is reported between any
/// earlier point and any later one.
pub proof fn lemma_methods_reported_widen(
    x: TyCtx,
    owner: Seq<char>,
    methods: Seq<SpannedItem>,
    b0: Seq<CheckerDiagnostic>,
    b: Seq<CheckerDiagnostic>,
    a: Seq<CheckerDiagnostic>,
    a2: Seq<CheckerDiagnostic>,
)
    requires
        methods_reported(x, owner, methods, b, a),
        b0.len() <= b.len(),
        a.len() <= a2.len(),
        forall|i: int| 0 <= i < a.len() ==> #[trigger] a2[i] == a[i],
    ensures
        methods_reported(x, owner, methods, b0, a2),
{
    assert forall|j: int| 0 <= j < methods.len() implies match (#[trigger] methods[j]).node {
        Item::FnDef { name, params, body, .. } => body_reports(x, mangled(owner, name@), params@, body, b0, a2),
        _ => true,
    } by {
        if let Item::FnDef { name, params, body, .. } = methods[j].node {
            lemma_body_reports_widen(x, mangled(owner, name@), params@, body, b0, b, a, a2);
        }
    }
}

/// What a body reported between two points is reported between any earlier
/// point and any later one.
pub proof fn lemma_body_reports_widen(
    x: TyCtx,
    fn_key: Seq<char>,
    params: Seq<Param>,
    body: Spanned<Block>,
    b0: Seq<CheckerDiagnostic>,
    b: Seq<CheckerDiagnostic>,
    a: Seq<CheckerDiagnostic>,
    a2: Seq<CheckerDiagnostic>,
)
    requires
        body_reports(x, fn_key, params, body, b, a),
        b0.len() <= b.len(),
        a.len() <= a2.len(),
        forall|i: int| 0 <= i < a.len() ==> #[trigger] a2[i] == a[i],
    ensures
        body_reports(x, fn_key, params, body, b0, a2),
{
    let env = body_env(x, fn_key, params);
    let stmts = body.node.stmts@;
    assert forall|i: int| 0 <= i < stmts.len() implies stmt_reported(
        x,
        stmts_env(x, env, stmts, i as nat),
        #[trigger] stmts[i],
        b0,
        a2,
    ) by {
        lemma_stmt_reported_widen(x, stmts_env(x, env, stmts, i as nat), stmts[i], b0, b, a, a2);
    }
    if body.node.tail_expr is Some {
        lemma_lasting_widen(x, stmts_env(x, env, stmts, stmts.len()), *body.node.tail_expr.unwrap(), b0, b, a, a2);
    }
    let ret = body_ret(x, fn_key);
    let bt = block_ty(x, env, body.node);
    if bt != ret && bt != TypeId(ERROR_ID) && ret != TypeId(ERROR_ID) && bt != TypeId(17) {
        let k = choose|k: int|
            b.len() <= k < a.len() && (#[trigger] a[k] matches CheckerDiagnostic::ReturnTypeMismatch {
                span,
                expected,
                found,
            } && span == body.span && expected@ == ty_name(x, ret) && found@ == ty_name(x, bt));
        assert(a2[k] == a[k]);
    }
}

/// A body (of the function registered under `fn_key`, with the
/// parameters `params`) whose type is not the declared return type is
/// reported last, unless the body leaves by `return` or either type is the
/// error type.
pub open spec fn body_return_reported(
    c0: Checker,
    after: Seq<CheckerDiagnostic>,
    fn_key: Seq<char>,
    params: Seq<Param>,
    body: Spanned<Block>,
) -> bool {
    let x = ctx_of(c0);
    let (ret, env) = match c0.functions.lookup(fn_key) {
        Some(sig) => (sig.return_type, param_env(sig.params@, params, sig.params@.len())),
        None => (TypeId(0), Map::empty()),
    };
    let bt = block_ty(x, env, body.node);
    bt != ret && bt != TypeId(ERROR_ID) && ret != TypeId(ERROR_ID) && bt != TypeId(17) ==> (after.last() matches CheckerDiagnostic::ReturnTypeMismatch {
        span,
        expected,
        found,
    } && span == body.span && expected@ == super::typing::ty_name(x, ret) && found@ == super::typing::ty_name(x, bt))
}

impl Checker {
    /// Type-check a function body with its parameters bound, and report a
    /// body whose type is not the declared return type.
    pub fn check_fn_body(&mut self, fn_key: &String, params: &Vec<Param>, body: &Spanned<Block>)
        requires
            old(self).well_formed(),
        ensures
            super::diagnostics_extended(*old(self), *final(self)),
            final(self).functions == old(self).functions,
            final(self).structs == old(self).structs,
            final(self).enums == old(self).enums,
            final(self).type_aliases == old(self).type_aliases,
            final(self).types.kinds() == old(self).types.kinds(),
            final(self).found_main == old(self).found_main,
            final(self).require_main == old(self).require_main,
            final(self).self_type == old(self).self_type,
            final(self).item_def_spans == old(self).item_def_spans,
            final(self).current_fn_name == old(self).current_fn_name,
            final(self).current_return_type is None,
            final(self).symbol_table.file_symbols@ == old(self).symbol_table.file_symbols@,
            final(self).well_formed(),
            body_return_reported(*old(self), final(self).diagnostics.diagnostics@, fn_key@, params@, *body),
            body_reports(
                ctx_of(*old(self)),
                fn_key@,
                params@,
                *body,
                old(self).diagnostics.diagnostics@,
                final(self).diagnostics.diagnostics@,
            ),
            clean_body(ctx_of(*old(self)), fn_key@, params@, *body) ==> final(self).diagnostics
                == old(self).diagnostics,
    {
        let ghost s0 = *self;
        let mut old_name = fn_key.clone();
        std::mem::swap(&mut old_name, &mut self.current_fn_name);
        let mut locals: ScopedLocals<LocalInfo> = ScopedLocals::new();
        proof {
            assert(locals.scopes().last() =~= Seq::<(String, LocalInfo)>::empty());
            assert(locals.scopes().drop_last() =~= Seq::<Seq<(String, LocalInfo)>>::empty());
            assert forall|k: Seq<char>| !(#[trigger] lookup(locals.scopes(), k) is Some) by {
                assert(scope_get(locals.scopes().last(), k) is None);
                assert(lookup(locals.scopes().drop_last(), k) is None);
            }
            assert(env_of(locals) =~= Map::<Seq<char>, LocalInfo>::empty());
        }
        let ret_ty = match self.functions.get_by_key(fn_key) {
            Some(sig) => {
                let mut i: usize = 0;
                while i < sig.params.len()
                    invariant
                        i <= sig.params@.len(),
                        env_of(locals) == param_env(sig.params@, params@, i as nat),
                    decreases sig.params@.len() - i,
                {
                    let is_mut = i < params.len() && params[i].is_mut;
                    let def_span = if i < params.len() {
                        params[i].ty.span
                    } else {
                        Span::dummy()
                    };
                    let ghost before = locals;
                    let info = LocalInfo { ty: sig.params[i].1, is_mut, def_span };
                    locals.insert(sig.params[i].0.clone(), info);
                    proof {
                        assert(env_of(locals) =~= env_of(before).insert(sig.params@[i as int].0@, info));
                    }
                    i = i + 1;
                }
                sig.return_type
            },
            None => TypeId(0),
        };
        self.current_return_type = Some(ret_ty);
        let ghost s1 = *self;
        let ghost envb = env_of(locals);
        proof {
            assert(ctx_of(s1) == ctx_of(s0));
            assert(envb == body_env(ctx_of(s0), fn_key@, params@));
            assert(ret_ty == body_ret(ctx_of(s0), fn_key@));
        }
        let body_ty = self.check_block(&body.node, &mut locals);
        let ghost s2 = *self;
        self.current_return_type = None;
        if body_ty != ret_ty && body_ty != TypeId(ERROR_ID) && ret_ty != TypeId(ERROR_ID) && body_ty
            != TypeId(17) {
            let expected = self.types.display_name(ret_ty);
            let found = self.types.display_name(body_ty);
            self.add(CheckerDiagnostic::ReturnTypeMismatch { span: body.span, expected, found });
        }
        self.current_fn_name = old_name;
        proof {
            let x = ctx_of(s0);
            let d0 = s0.diagnostics.diagnostics@;
            let d2 = s2.diagnostics.diagnostics@;
            let dn = self.diagnostics.diagnostics@;
            let stmts = body.node.stmts@;
            assert forall|i: int| 0 <= i < stmts.len() implies stmt_reported(
                x,
                stmts_env(x, envb, stmts, i as nat),
                #[trigger] stmts[i],
                d0,
                dn,
            ) by {
                lemma_stmt_reported_widen(x, stmts_env(x, envb, stmts, i as nat), stmts[i], d0, d0, d2, dn);
            }
            if body.node.tail_expr is Some {
                lemma_lasting_widen(x, stmts_env(x, envb, stmts, stmts.len()), *body.node.tail_expr.unwrap(), d0, d0, d2, dn);
            }
            if body_ty != ret_ty && body_ty != TypeId(ERROR_ID) && ret_ty != TypeId(ERROR_ID) && body_ty != TypeId(17) {
                let k = d2.len() as int;
                assert(dn[k] matches CheckerDiagnostic::ReturnTypeMismatch { span, expected, found } && span == body.span
                    && expected@ == ty_name(x, ret_ty) && found@ == ty_name(x, body_ty));
            }
        }
    }

    /// Pass two: type-check the bodies an item holds.
    pub fn check_item(&mut self, item: &SpannedItem)
        requires
            old(self).well_formed(),
        ensures
            super::diagnostics_extended(*old(self), *final(self)),
            final(self).functions == old(self).functions,
            final(self).structs == old(self).structs,
            final(self).enums == old(self).enums,
            final(self).type_aliases == old(self).type_aliases,
            final(self).types.kinds() == old(self).types.kinds(),
            final(self).found_main == old(self).found_main,
            final(self).require_main == old(self).require_main,
            final(self).self_type == old(self).self_type,
            final(self).item_def_spans == old(self).item_def_spans,
            final(self).symbol_table.file_symbols@ == old(self).symbol_table.file_symbols@,
            final(self).well_formed(),
            match item.node {
                Item::FnDef { name, params, body, .. } => body_return_reported(
                    *old(self),
                    final(self).diagnostics.diagnostics@,
                    name@,
                    params@,
                    body,
                ) && body_reports(
                    ctx_of(*old(self)),
                    name@,
                    params@,
                    body,
                    old(self).diagnostics.diagnostics@,
                    final(self).diagnostics.diagnostics@,
                ),
                Item::ImplBlock { self_type, methods } => methods_reported(
                    ctx_of(*old(self)),
                    self_type@,
                    methods@,
                    old(self).diagnostics.diagnostics@,
                    final(self).diagnostics.diagnostics@,
                ),
                _ => final(self).diagnostics == old(self).diagnostics,
            },
            match item.node {
                Item::FnDef { name, params, body, .. } => clean_body(ctx_of(*old(self)), name@, params@, body)
                    ==> final(self).diagnostics == old(self).diagnostics,
                Item::ImplBlock { self_type, methods } => methods_clean(ctx_of(*old(self)), self_type@, methods@)
                    ==> final(self).diagnostics == old(self).diagnostics,
                _ => true,
            },
    {
        match &item.node {
            Item::FnDef { name, params, body, .. } => {
                self.check_fn_body(name, params, body);
            },
            Item::ImplBlock { self_type, methods } => {
                let ghost s0 = *self;
                let mut i: usize = 0;
                while i < methods.len()
                    invariant
                        i <= methods@.len(),
                        super::diagnostics_extended(s0, *self),
                        self.functions == s0.functions,
                        self.structs == s0.structs,
                        self.enums == s0.enums,
                        self.type_aliases == s0.type_aliases,
                        self.types.kinds() == s0.types.kinds(),
                        self.found_main == s0.found_main,
                        self.require_main == s0.require_main,
                        self.self_type == s0.self_type,
                        self.item_def_spans == s0.item_def_spans,
                        self.symbol_table.file_symbols@ == s0.symbol_table.file_symbols@,
                        self.well_formed(),
                        methods_clean(ctx_of(s0), self_type@, methods@) ==> self.diagnostics == s0.diagnostics,
                        methods_reported(
                            ctx_of(s0),
                            self_type@,
                            methods@.take(i as int),
                            s0.diagnostics.diagnostics@,
                            self.diagnostics.diagnostics@,
                        ),
                    decreases methods@.len() - i,
                {
                    let ghost sb = *self;
                    if let Item::FnDef { name, params, body, .. } = &methods[i].node {
                        let key = mangle(self_type, name);
                        let ghost s1 = *self;
                        proof {
                            if methods_clean(ctx_of(s0), self_type@, methods@) {
                                assert(match methods@[i as int].node {
                                    Item::FnDef { name, params, body, .. } => clean_body(
                                        ctx_of(s0),
                                        mangled(self_type@, name@),
                                        params@,
                                        body,
                                    ),
                                    _ => true,
                                });
                                assert(ctx_of(s1) == ctx_of(s0));
                            }
                        }
                        self.check_fn_body(&key, params, body);
                        assert(super::diagnostics_extended(s0, *self)) by {
                            assert forall|j: int|
                                s0.diagnostics.diagnostics@.len() <= j
                                    < self.diagnostics.diagnostics@.len() implies !(
                            #[trigger] self.diagnostics.diagnostics@[j] is NoMainFunction) by {
                                if j < s1.diagnostics.diagnostics@.len() {
                                    assert(self.diagnostics.diagnostics@[j]
                                        == s1.diagnostics.diagnostics@[j]);
                                }
                            }
                        }
                    }
                    proof {
                        let db = sb.diagnostics.diagnostics@;
                        let dn = self.diagnostics.diagnostics@;
                        let d0 = s0.diagnostics.diagnostics@;
                        assert forall|j: int| 0 <= j < i + 1 implies match (#[trigger] methods@.take(i + 1)[j]).node {
                            Item::FnDef { name, params, body, .. } => body_reports(
                                ctx_of(s0),
                                mangled(self_type@, name@),
                                params@,
                                body,
                                d0,
                                dn,
                            ),
                            _ => true,
                        } by {
                            if j < i {
                                assert(methods@.take(i + 1)[j] == methods@.take(i as int)[j]);
                                if let Item::FnDef { name, params, body, .. } = methods@[j].node {
                                    lemma_body_reports_widen(
                                        ctx_of(s0),
                                        mangled(self_type@, name@),
                                        params@,
                                        body,
                                        d0,
                                        d0,
                                        db,
                                        dn,
                                    );
                                }
                            } else {
                                if let Item::FnDef { name, params, body, .. } = methods@[j].node {
                                    lemma_body_reports_widen(
                                        ctx_of(s0),
                                        mangled(self_type@, name@),
                                        params@,
                                        body,
                                        d0,
                                        db,
                                        dn,
                                        dn,
                                    );
                                }
                            }
                        }
                    }
                    i = i + 1;
                }
                proof {
                    assert(methods@.take(methods@.len() as int) =~= methods@);
                }
            },
            _ => {},
        }
    }
}

/// Diagnostics appended to diagnostics appended are appended.
pub proof fn lemma_extended_trans(a: Checker, b: Checker, c: Checker)
    requires
        super::diagnostics_extended(a, b),
        super::diagnostics_extended(b, c),
    ensures
        super::diagnostics_extended(a, c),
{
    assert forall|i: int| 0 <= i < a.diagnostics.diagnostics@.len() implies #[trigger] c.diagnostics.diagnostics@[i]
        == a.diagnostics.diagnostics@[i] by {
        assert(c.diagnostics.diagnostics@[i] == b.diagnostics.diagnostics@[i]);
    }
    assert forall|i: int|
        a.diagnostics.diagnostics@.len() <= i < c.diagnostics.diagnostics@.len() implies !(
        #[trigger] c.diagnostics.diagnostics@[i] is NoMainFunction) by {
        if i < b.diagnostics.diagnostics@.len() {
            assert(c.diagnostics.diagnostics@[i] == b.diagnostics.diagnostics@[i]);
        }
    }
}

/// Whether a list of diagnostics reports a missing `main`.
pub open spec fn reports_no_main(ds: Seq<CheckerDiagnostic>) -> bool {
    exists|i: int| 0 <= i < ds.len() && #[trigger] ds[i] is NoMainFunction
}

/// Whether some item of a module defines `main`.
pub open spec fn defines_main(items: Seq<SpannedItem>) -> bool {
    exists|i: int| 0 <= i < items.len() && is_main_fn(#[trigger] items[i])
}

impl Checker {
    /// Check a module: register the built-in functions, collect every
    /// declaration, report a missing `main` (when one is required), then
    /// type-check every body.
    #[verifier::rlimit(60)]
    pub fn check(self, module: &Module) -> (r: (CheckedModule, DiagnosticBag))
        requires
            self.well_formed(),
        ensures
            reports_no_main(r.1.diagnostics@) == (reports_no_main(self.diagnostics.diagnostics@) || (
            self.require_main && !self.found_main && !defines_main(module.items@))),
            forall|k: Seq<char>|
                super::builtins::builtin_signature(k) is Some ==> #[trigger] super::builtins::builtin_holds(
                    r.0.functions,
                    k,
                ),
            symbols_view(r.0.symbol_table.file_symbols@) == symbols_view(self.symbol_table.file_symbols@)
                + function_symbols(r.0.functions.entries@) + type_symbols(
                r.0.structs@,
                SymbolKind::Struct,
                r.0.item_def_spans@,
            ) + type_symbols(r.0.enums@, SymbolKind::Enum, r.0.item_def_spans@),
            forall|i: int|
                0 <= i < module.items@.len() ==> match (#[trigger] module.items@[i]).node {
                    Item::FnDef { name, params, body, .. } => body_reports(
                        checked_ctx(r.0),
                        name@,
                        params@,
                        body,
                        Seq::empty(),
                        r.1.diagnostics@,
                    ),
                    Item::ImplBlock { self_type, methods } => methods_reported(
                        checked_ctx(r.0),
                        self_type@,
                        methods@,
                        Seq::empty(),
                        r.1.diagnostics@,
                    ),
                    _ => true,
                },
            check_history(self, module.items@, r.0.functions, r.1.diagnostics@),
    {
        let mut c = self;
        let ghost s_in = c;
        c.self_type = None;
        c.register_builtins();
        let ghost s0 = c;
        proof {
            assert(super::diagnostics_extended(s0, s0));
        }
        let ghost mut st: Seq<Checker> = seq![c];
        let mut i: usize = 0;
        while i < module.items.len()
            invariant
                i <= module.items@.len(),
                st.len() == i + 1,
                st[0] == s0,
                st[i as int] == c,
                forall|j: int| 0 <= j < i ==> collect_effect(#[trigger] st[j], st[j + 1], module.items@[j]),
                super::diagnostics_extended(s0, c),
                c.self_type is None,
                c.require_main == s0.require_main,
                c.well_formed(),
                c.found_main == (s0.found_main || exists|j: int|
                    0 <= j < i && is_main_fn(#[trigger] module.items@[j])),
                forall|k: Seq<char>|
                    s0.functions.lookup(k) is Some ==> #[trigger] c.functions.lookup(k)
                        == s0.functions.lookup(k),
                c.symbol_table == s0.symbol_table,
                c.item_def_spans == s0.item_def_spans,
            decreases module.items@.len() - i,
        {
            let ghost s1 = c;
            c.collect_item(&module.items[i]);
            proof {
                st = st.push(c);
                lemma_extended_trans(s0, s1, c);
                if is_main_fn(module.items@[i as int]) {
                    assert(exists|j: int| 0 <= j < i + 1 && is_main_fn(#[trigger] module.items@[j]));
                }
                if exists|j: int| 0 <= j < i + 1 && is_main_fn(#[trigger] module.items@[j]) {
                    let j = choose|j: int| 0 <= j < i + 1 && is_main_fn(#[trigger] module.items@[j]);
                    if j < i {
                        assert(exists|j2: int| 0 <= j2 < i && is_main_fn(#[trigger] module.items@[j2]));
                    }
                }
            }
            i = i + 1;
        }
        proof {
            assert(c.found_main == (s0.found_main || defines_main(module.items@)));
        }
        let ghost s2 = c;
        let missing_main = c.require_main && !c.found_main;
        if missing_main {
            c.diagnostics.add(CheckerDiagnostic::NoMainFunction { span: Span::dummy() });
        }
        let ghost s3 = c;
        proof {
            assert(super::diagnostics_extended(s3, s3));
        }
        let mut i: usize = 0;
        while i < module.items.len()
            invariant
                i <= module.items@.len(),
                super::diagnostics_extended(s3, c),
                c.functions == s3.functions,
                c.structs == s3.structs,
                c.enums == s3.enums,
                c.type_aliases == s3.type_aliases,
                c.item_def_spans == s3.item_def_spans,
                c.symbol_table.file_symbols@ == s3.symbol_table.file_symbols@,
                c.well_formed(),
                c.types.kinds() == s3.types.kinds(),
                c.self_type == s3.self_type,
                items_clean(ctx_of(s3), module.items@) ==> c.diagnostics == s3.diagnostics,
                forall|j: int|
                    0 <= j < i ==> match (#[trigger] module.items@[j]).node {
                        Item::FnDef { name, params, body, .. } => body_reports(
                            ctx_of(s3),
                            name@,
                            params@,
                            body,
                            Seq::empty(),
                            c.diagnostics.diagnostics@,
                        ),
                        Item::ImplBlock { self_type, methods } => methods_reported(
                            ctx_of(s3),
                            self_type@,
                            methods@,
                            Seq::empty(),
                            c.diagnostics.diagnostics@,
                        ),
                        _ => true,
                    },
            decreases module.items@.len() - i,
        {
            let ghost s4 = c;
            c.check_item(&module.items[i]);
            proof {
                lemma_extended_trans(s3, s4, c);
                let d4 = s4.diagnostics.diagnostics@;
                let dn = c.diagnostics.diagnostics@;
                assert forall|j: int| 0 <= j < i + 1 implies match (#[trigger] module.items@[j]).node {
                    Item::FnDef { name, params, body, .. } => body_reports(
                        ctx_of(s3),
                        name@,
                        params@,
                        body,
                        Seq::empty(),
                        dn,
                    ),
                    Item::ImplBlock { self_type, methods } => methods_reported(
                        ctx_of(s3),
                        self_type@,
                        methods@,
                        Seq::empty(),
                        dn,
                    ),
                    _ => true,
                } by {
                    if let Item::FnDef { name, params, body, .. } = module.items@[j].node {
                        if j < i {
                            lemma_body_reports_widen(ctx_of(s3), name@, params@, body, Seq::empty(), Seq::empty(), d4, dn);
                        } else {
                            assert(ctx_of(s4) == ctx_of(s3));
                            lemma_body_reports_widen(ctx_of(s3), name@, params@, body, Seq::empty(), d4, dn, dn);
                        }
                    }
                    if let Item::ImplBlock { self_type, methods } = module.items@[j].node {
                        assert(ctx_of(s4) == ctx_of(s3));
                        if j < i {
                            lemma_methods_reported_widen(ctx_of(s3), self_type@, methods@, Seq::empty(), Seq::empty(), d4, dn);
                        } else {
                            lemma_methods_reported_widen(ctx_of(s3), self_type@, methods@, Seq::empty(), d4, dn, dn);
                        }
                    }
                }
            }
            i = i + 1;
        }
        let ghost s5 = c;
        proof {
            let d0 = s_in.diagnostics.diagnostics@;
            let d5 = s5.diagnostics.diagnostics@;
            assert(d0 == s0.diagnostics.diagnostics@);
            if reports_no_main(d5) {
                let w = choose|w: int| 0 <= w < d5.len() && #[trigger] d5[w] is NoMainFunction;
                if w < d0.len() {
                    assert(d5[w] == d0[w]);
                    assert(reports_no_main(d0));
                } else if w < s2.diagnostics.diagnostics@.len() {
                    assert(d5[w] == s2.diagnostics.diagnostics@[w]);
                    assert(false);
                } else if w >= s3.diagnostics.diagnostics@.len() {
                    assert(false);
                } else {
                    assert(missing_main);
                }
            }
            if reports_no_main(d0) {
                let w = choose|w: int| 0 <= w < d0.len() && #[trigger] d0[w] is NoMainFunction;
                assert(d5[w] == d0[w]);
            }
            if missing_main {
                let w = s2.diagnostics.diagnostics@.len() as int;
                assert(s3.diagnostics.diagnostics@[w] is NoMainFunction);
                assert(d5[w] == s3.diagnostics.diagnostics@[w]);
            }
        }
        c.populate_file_symbols();
        proof {
            assert forall|k: Seq<char>|
                super::builtins::builtin_signature(k) is Some implies #[trigger] super::builtins::builtin_holds(
                c.functions,
                k,
            ) by {
                assert(super::builtins::builtin_holds(s0.functions, k));
                assert(s0.functions.lookup(k) is Some);
                assert(c.functions.lookup(k) == s0.functions.lookup(k));
            }
        }
        proof {
            let dl = st.last().diagnostics.diagnostics@;
            let dn = c.diagnostics.diagnostics@;
            assert(st.last() == s2);
            assert(dn.subrange(0, dl.len() as int) =~= dl);
            assert(checked_through(s_in, module.items@, c.functions, dn, st));
        }
        let checked = CheckedModule {
            functions: c.functions,
            structs: c.structs,
            enums: c.enums,
            type_aliases: c.type_aliases,
            types: c.types,
            symbol_table: c.symbol_table,
            item_def_spans: c.item_def_spans,
        };
        proof {
            assert(checked_through(self, module.items@, checked.functions, c.diagnostics.diagnostics@, st));
            assert(check_history(self, module.items@, checked.functions, c.diagnostics.diagnostics@));
        }
        (checked, c.diagnostics)
    }

    /// Record the module's functions (user-defined ones whose names hold no
    /// `__`), structs and enums for completion, in that order, after the
    /// symbols already there.
    fn populate_file_symbols(&mut self)
        requires
            old(self).well_formed(),
        ensures
            final(self).well_formed(),
            final(self).diagnostics == old(self).diagnostics,
            final(self).functions == old(self).functions,
            final(self).structs == old(self).structs,
            final(self).enums == old(self).enums,
            final(self).type_aliases == old(self).type_aliases,
            final(self).types.kinds() == old(self).types.kinds(),
            final(self).item_def_spans == old(self).item_def_spans,
            symbols_view(final(self).symbol_table.file_symbols@) == symbols_view(
                old(self).symbol_table.file_symbols@,
            ) + function_symbols(old(self).functions.entries@) + type_symbols(
                old(self).structs@,
                SymbolKind::Struct,
                old(self).item_def_spans@,
            ) + type_symbols(old(self).enums@, SymbolKind::Enum, old(self).item_def_spans@),
    {
        let ghost fs0 = symbols_view(self.symbol_table.file_symbols@);
        let mut i: usize = 0;
        while i < self.functions.entries.len()
            invariant
                i <= self.functions.entries@.len(),
                self.well_formed(),
                self.diagnostics == old(self).diagnostics,
                self.functions == old(self).functions,
                self.structs == old(self).structs,
                self.enums == old(self).enums,
                self.type_aliases == old(self).type_aliases,
                self.types.kinds() == old(self).types.kinds(),
                self.item_def_spans == old(self).item_def_spans,
                fs0 == symbols_view(old(self).symbol_table.file_symbols@),
                symbols_view(self.symbol_table.file_symbols@) == fs0 + function_symbols(
                    self.functions.entries@.take(i as int),
                ),
            decreases self.functions.entries@.len() - i,
        {
            let ghost before = symbols_view(self.symbol_table.file_symbols@);
            let name = &self.functions.entries[i].0;
            let sig = &self.functions.entries[i].1;
            proof {
                assert(self.functions.entries@.take(i + 1).drop_last() =~= self.functions.entries@.take(
                    i as int,
                ));
            }
            if !contains_double_underscore(name) && sig.kind == FunctionKind::UserDefined {
                let entry = (name.clone(), SymbolKind::Function, Some(sig.return_type), sig.def_span);
                self.symbol_table.file_symbols.push(entry);
                proof {
                    assert(symbols_view(self.symbol_table.file_symbols@) =~= before.push(
                        (entry.0@, entry.1, entry.2, entry.3),
                    ));
                }
            }
            i = i + 1;
        }
        assert(self.functions.entries@.take(i as int) =~= self.functions.entries@);
        let ghost fs1 = symbols_view(self.symbol_table.file_symbols@);
        self.push_type_symbols(true);
        let ghost fs2 = symbols_view(self.symbol_table.file_symbols@);
        self.push_type_symbols(false);
        proof {
            assert(fs2 == fs1 + type_symbols(old(self).structs@, SymbolKind::Struct, old(self).item_def_spans@));
        }
    }

    /// Record each struct (or, without `structs`, each enum) as a symbol,
    /// with the span of its definition.
    fn push_type_symbols(&mut self, structs: bool)
        requires
            old(self).well_formed(),
        ensures
            final(self).well_formed(),
            final(self).diagnostics == old(self).diagnostics,
            final(self).functions == old(self).functions,
            final(self).structs == old(self).structs,
            final(self).enums == old(self).enums,
            final(self).type_aliases == old(self).type_aliases,
            final(self).types.kinds() == old(self).types.kinds(),
            final(self).item_def_spans == old(self).item_def_spans,
            symbols_view(final(self).symbol_table.file_symbols@) == symbols_view(
                old(self).symbol_table.file_symbols@,
            ) + if structs {
                type_symbols(old(self).structs@, SymbolKind::Struct, old(self).item_def_spans@)
            } else {
                type_symbols(old(self).enums@, SymbolKind::Enum, old(self).item_def_spans@)
            },
    {
        let ghost fs0 = symbols_view(self.symbol_table.file_symbols@);
        let ghost table = if structs {
            self.structs@
        } else {
            self.enums@
        };
        let kind = if structs {
            SymbolKind::Struct
        } else {
            SymbolKind::Enum
        };
        let n = if structs {
            self.structs.len()
        } else {
            self.enums.len()
        };
        let mut j: usize = 0;
        while j < n
            invariant
                j <= n,
                n == table.len(),
                table == (if structs {
                    self.structs@
                } else {
                    self.enums@
                }),
                kind == (if structs {
                    SymbolKind::Struct
                } else {
                    SymbolKind::Enum
                }),
                self.well_formed(),
                self.diagnostics == old(self).diagnostics,
                self.functions == old(self).functions,
                self.structs == old(self).structs,
                self.enums == old(self).enums,
                self.type_aliases == old(self).type_aliases,
                self.types.kinds() == old(self).types.kinds(),
                self.item_def_spans == old(self).item_def_spans,
                fs0 == symbols_view(old(self).symbol_table.file_symbols@),
                symbols_view(self.symbol_table.file_symbols@) == fs0 + type_symbols(
                    table.take(j as int),
                    kind,
                    self.item_def_spans@,
                ),
            decreases n - j,
        {
            let ghost before = symbols_view(self.symbol_table.file_symbols@);
            let (name, ty) = if structs {
                (self.structs[j].0.clone(), self.structs[j].1)
            } else {
                (self.enums[j].0.clone(), self.enums[j].1)
            };
            let span = match crate::scoped_locals::find_binding(&self.item_def_spans, &name) {
                Some(k) => self.item_def_spans[k].1,
                None => Span::dummy(),
            };
            proof {
                assert(table.take(j + 1).drop_last() =~= table.take(j as int));
            }
            self.symbol_table.file_symbols.push((name, kind, Some(ty), span));
            proof {
                assert(symbols_view(self.symbol_table.file_symbols@) =~= before.push(
                    (name@, kind, Some(ty), span),
                ));
            }
            j = j + 1;
        }
        assert(table.take(j as int) =~= table);
    }
}

} // verus!
