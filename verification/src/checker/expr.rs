use vstd::prelude::*;

use super::args::{first_named, is_arg_match, match_call_args, name_view, ArgMatch};
use super::typing::{
    binary_ty, cast_allowed, ctx_kind, err_ty, field_ty, op_method, struct_named, ty_name, unary_ty, written_ty,
    block_ty, ctx_of, env_of, let_value_ty, TyCtx, expr_diverges, expr_ty, lemma_field_ty, stmt_diverges, stmt_env,
    stmts_env, };
use super::{mangle, mangled, params_view, resolved_type, same_sig, Checker, FunctionSig, LocalInfo};
use crate::ast::{
    BinOp, Block, CallArg, Expr, IntSuffix, Literal, SpannedExpr, SpannedStmt, Stmt, TypeExpr, UnaryOp,
};
use crate::diagnostic::{decimal, to_decimal, CheckerDiagnostic};
use crate::scoped_locals::{find_binding, lookup, scope_get, ScopedLocals};
use crate::span::{Span, Spanned};
use crate::symbol_table::{DefinitionInfo, SymbolKind};
use crate::types::{field_index, kind_is_integer, kind_name, KindView, TypeId, TypeKind, ERROR_ID};

verus! {

pub open spec fn unsuffixed_int(e: Expr) -> bool {
    match e {
        Expr::Literal(Literal::Int(_, None)) => true,
        Expr::Unary { op: UnaryOp::Neg, operand } => operand.node matches Expr::Literal(
            Literal::Int(_, None),
        ),
        _ => false,
    }
}

/// An integer literal without a suffix, possibly negated: it takes the
/// integer type its context asks for.
pub fn is_unsuffixed_int_literal(e: &Expr) -> (r: bool)
    ensures
        r == unsuffixed_int(*e),
{
    match e {
        Expr::Literal(Literal::Int(_, None)) => true,
        Expr::Unary { op: UnaryOp::Neg, operand } => match &operand.node {
            Expr::Literal(Literal::Int(_, None)) => true,
            _ => false,
        },
        _ => false,
    }
}

/// The name of the method that overloads an operator.
pub fn binop_method(op: BinOp) -> (r: Option<&'static str>)
    ensures
        match r {
            Some(s) => super::typing::op_method(op) == Some(s@),
            None => super::typing::op_method(op) is None,
        },
{
    match op {
        BinOp::Add => Some("add"),
        BinOp::Sub => Some("sub"),
        BinOp::Mul => Some("mul"),
        BinOp::Div => Some("div"),
        BinOp::Mod => Some("rem"),
        BinOp::Eq => Some("eq"),
        BinOp::Ne => Some("ne"),
        BinOp::Lt => Some("lt"),
        BinOp::Le => Some("le"),
        BinOp::Gt => Some("gt"),
        BinOp::Ge => Some("ge"),
        _ => None,
    }
}

/// The lower-case name of an operator, as diagnostics show it.
pub open spec fn binop_text(op: BinOp) -> Seq<char> {
    match op {
        BinOp::Add => "add"@,
        BinOp::Sub => "sub"@,
        BinOp::Mul => "mul"@,
        BinOp::Div => "div"@,
        BinOp::Mod => "mod"@,
        BinOp::Shl => "shl"@,
        BinOp::Shr => "shr"@,
        BinOp::BitAnd => "bitand"@,
        BinOp::BitOr => "bitor"@,
        BinOp::BitXor => "bitxor"@,
        BinOp::Eq => "eq"@,
        BinOp::Ne => "ne"@,
        BinOp::Lt => "lt"@,
        BinOp::Le => "le"@,
        BinOp::Gt => "gt"@,
        BinOp::Ge => "ge"@,
        BinOp::And => "and"@,
        BinOp::Or => "or"@,
    }
}

pub fn binop_name(op: BinOp) -> (s: String)
    ensures
        s@ == binop_text(op),
{
    match op {
        BinOp::Add => String::from_str("add"),
        BinOp::Sub => String::from_str("sub"),
        BinOp::Mul => String::from_str("mul"),
        BinOp::Div => String::from_str("div"),
        BinOp::Mod => String::from_str("mod"),
        BinOp::Shl => String::from_str("shl"),
        BinOp::Shr => String::from_str("shr"),
        BinOp::BitAnd => String::from_str("bitand"),
        BinOp::BitOr => String::from_str("bitor"),
        BinOp::BitXor => String::from_str("bitxor"),
        BinOp::Eq => String::from_str("eq"),
        BinOp::Ne => String::from_str("ne"),
        BinOp::Lt => String::from_str("lt"),
        BinOp::Le => String::from_str("le"),
        BinOp::Gt => String::from_str("gt"),
        BinOp::Ge => String::from_str("ge"),
        BinOp::And => String::from_str("and"),
        BinOp::Or => String::from_str("or"),
    }
}

/// Where the parameters a call's arguments are matched against begin: after
/// the first `skip` (or at the end, when there are fewer).
pub open spec fn callable_start(sig: FunctionSig, skip: usize) -> int {
    if skip < sig.params@.len() {
        skip as int
    } else {
        sig.params@.len() as int
    }
}

/// The names of the parameters a call's arguments are matched against.
pub open spec fn callable_names(sig: FunctionSig, skip: usize) -> Seq<Seq<char>> {
    sig.params@.subrange(callable_start(sig, skip), sig.params@.len() as int).map_values(
        |p: (String, TypeId)| p.0@,
    )
}

/// Whether each of those parameters has a default value.
pub open spec fn callable_defaults(sig: FunctionSig, skip: usize) -> Seq<bool> {
    let start = callable_start(sig, skip);
    Seq::new(
        (sig.params@.len() - start) as nat,
        |i: int|
            if start + i < sig.has_default@.len() {
                sig.has_default@[start + i]
            } else {
                false
            },
    )
}

/// The names the arguments of a call are given, if any.
pub open spec fn arg_names_view(args: Seq<CallArg>) -> Seq<Option<Seq<char>>> {
    args.map_values(|a: CallArg| name_view(a.name))
}

/// The reports of required parameters left without an argument.
pub open spec fn missing_diags(sig: FunctionSig, skip: usize, span: Span, missing: Seq<usize>) -> Seq<
    CheckerDiagnostic,
> {
    missing.map_values(
        |p: usize|
            CheckerDiagnostic::MissingRequiredArgument {
                span,
                name: sig.params@[callable_start(sig, skip) + p].0,
            },
    )
}

/// How the diagnostics of a call with `nargs` arguments end: with the
/// report of too many leading positional arguments (the number of
/// parameters left to fill against the number of arguments), or else with
/// the reports of the missing required parameters, in order.
pub open spec fn call_diags_end(
    d: Seq<CheckerDiagnostic>,
    sig: FunctionSig,
    skip: usize,
    span: Span,
    m: ArgMatch,
    nargs: nat,
) -> bool {
    match m.overflow_at {
        Some(_) => d.len() > 0 && (d.last() matches CheckerDiagnostic::ArgumentCountMismatch {
            span: s,
            expected: ex,
            found: fo,
        } && s == span && ex@ == decimal(callable_names(sig, skip).len()) && fo@ == decimal(nargs)),
        None => {
            let md = missing_diags(sig, skip, span, m.missing@);
            d.len() >= md.len() && d.subrange(d.len() - md.len(), d.len() as int) == md
        },
    }
}

/// The diagnostics of a call of `sig` with these arguments end as matching
/// them to the parameters says they must.
#[verifier::opaque]
pub open spec fn call_args_reported(
    d: Seq<CheckerDiagnostic>,
    sig: FunctionSig,
    skip: usize,
    span: Span,
    args: Seq<CallArg>,
) -> bool {
    exists|m: ArgMatch|
        is_arg_match(callable_names(sig, skip), callable_defaults(sig, skip), arg_names_view(args), m)
            && call_diags_end(d, sig, skip, span, m, args.len())
}

/// The first named argument comes at or before the end.
proof fn lemma_first_named_bound(s: Seq<Option<Seq<char>>>)
    ensures
        0 <= first_named(s) <= s.len(),
    decreases s.len(),
{
    if s.len() > 0 {
        lemma_first_named_bound(s.drop_last());
    }
}

/// Whether the argument at `a` of a call (matched by `m`) fills a parameter
/// and its value has the parameter's type (or fits it as an integer literal
/// without a suffix, or either type is the error type).
pub open spec fn arg_fits(
    x: TyCtx,
    env: Map<Seq<char>, LocalInfo>,
    sig: FunctionSig,
    skip: usize,
    args: Seq<CallArg>,
    m: ArgMatch,
    a: int,
) -> bool {
    let n = callable_names(sig, skip).len();
    &&& a < m.slots@.len()
    &&& m.slots@[a] is Some
    &&& (m.slots@[a].unwrap() as int) < n
    &&& {
        let pt = sig.params@[callable_start(sig, skip) + m.slots@[a].unwrap()].1;
        let at = expr_ty(x, env, args[a].value);
        at == pt || at == err_ty() || pt == err_ty() || (unsuffixed_int(args[a].value.node) && kind_is_integer(
            ctx_kind(x, pt),
        ))
    }
}

/// Whether the arguments fit a call of `sig`: none too many, none
/// required left out, and each fills a parameter with a value of its type.
pub open spec fn call_fits(
    x: TyCtx,
    env: Map<Seq<char>, LocalInfo>,
    sig: FunctionSig,
    skip: usize,
    args: Seq<CallArg>,
) -> bool {
    forall|m: ArgMatch|
        #[trigger] is_arg_match(callable_names(sig, skip), callable_defaults(sig, skip), arg_names_view(args), m)
            ==> m.overflow_at is None && m.missing@.len() == 0 && forall|a: int|
            0 <= a < args.len() ==> #[trigger] arg_fits(x, env, sig, skip, args, m, a)
}

/// Two signatures that agree in everything a caller can observe are fit
/// alike by the same arguments.
proof fn lemma_same_sig_fits(
    x: TyCtx,
    env: Map<Seq<char>, LocalInfo>,
    s1: FunctionSig,
    s2: FunctionSig,
    skip: usize,
    args: Seq<CallArg>,
)
    requires
        same_sig(s1, s2),
    ensures
        call_fits(x, env, s1, skip, args) == call_fits(x, env, s2, skip, args),
{
    let v1 = params_view(s1.params@);
    let v2 = params_view(s2.params@);
    assert(v1.len() == s1.params@.len());
    assert(v2.len() == s2.params@.len());
    let start = callable_start(s1, skip);
    assert forall|i: int| 0 <= i < callable_names(s1, skip).len() implies #[trigger] callable_names(s1, skip)[i]
        == callable_names(s2, skip)[i] by {
        assert(v1[start + i] == v2[start + i]);
    }
    assert(callable_names(s1, skip) =~= callable_names(s2, skip));
    assert(callable_defaults(s1, skip) =~= callable_defaults(s2, skip));
    assert forall|m: ArgMatch, a: int|
        #![trigger arg_fits(x, env, s1, skip, args, m, a)]
        #![trigger arg_fits(x, env, s2, skip, args, m, a)]
        0 <= a < args.len() implies arg_fits(x, env, s1, skip, args, m, a) == arg_fits(
        x,
        env,
        s2,
        skip,
        args,
        m,
        a,
    ) by {
        let n = callable_names(s1, skip).len();
        if a < m.slots@.len() && m.slots@[a] is Some && (m.slots@[a].unwrap() as int) < n {
            let k = start + m.slots@[a].unwrap();
            assert(v1[k] == v2[k]);
        }
    }
}

/// What an operation whose operands are clean reports, in all: exactly one
/// diagnostic (the one `own_report` describes) when the operation is
/// ill-typed on operands that are not in error, and nothing otherwise; in
/// particular an operand of the error type adds no further report.
pub open spec fn operation_reports(
    x: TyCtx,
    env: Map<Seq<char>, LocalInfo>,
    e: SpannedExpr,
    before: Seq<CheckerDiagnostic>,
    after: Seq<CheckerDiagnostic>,
) -> bool {
    match e.node {
        Expr::Binary { op, left, right } => {
            let l = expr_ty(x, env, *left);
            let r = expr_ty(x, env, *right);
            clean(x, env, *left) && clean(x, env, *right) ==> if l != err_ty() && r != err_ty() && !(op_method(op)
                is Some && x.0.lookup(mangled(ty_name(x, l), op_method(op).unwrap())) is Some) && binary_ty(
                x,
                op,
                l,
                r,
            ) == err_ty() {
                appended_one(before, after) && own_report(x, env, e, after.last())
            } else {
                after == before
            }
        },
        Expr::Unary { op, operand } => {
            let t = expr_ty(x, env, *operand);
            clean(x, env, *operand) ==> if t != err_ty() && unary_ty(x, op, t) == err_ty() {
                appended_one(before, after) && own_report(x, env, e, after.last())
            } else {
                after == before
            }
        },
        _ => true,
    }
}

/// Whether checking the statement `s` can report nothing: an expression
/// statement, or a `let` or `const` without a written type, whose
/// expression is clean.
pub open spec fn clean_stmt(x: TyCtx, env: Map<Seq<char>, LocalInfo>, s: SpannedStmt) -> bool
    decreases s, 0nat,
{
    match s.node {
        Stmt::Expr(e) => clean(x, env, e),
        Stmt::Let { ty, value, .. } => ty is None && clean(x, env, value),
        Stmt::Const { ty, value, .. } => ty is None && clean(x, env, value),
        _ => false,
    }
}

/// Whether checking the block `b` can report nothing: each statement (in
/// the locals the ones before it leave) and the final expression are clean.
pub open spec fn clean_block(x: TyCtx, env: Map<Seq<char>, LocalInfo>, b: Block) -> bool
    decreases b, 0nat,
{
    &&& forall|i: int|
        0 <= i < b.stmts@.len() ==> clean_stmt(x, stmts_env(x, env, b.stmts@, i as nat), #[trigger] b.stmts@[i])
    &&& b.tail_expr is Some ==> clean(x, stmts_env(x, env, b.stmts@, b.stmts@.len()), *b.tail_expr.unwrap())
}

/// What checking an `if` without `else` whose condition and block are
/// clean reports: exactly one mismatch when the condition is not a `bool`
/// (nor in error), and nothing otherwise.
pub open spec fn lone_if_reports(
    x: TyCtx,
    env: Map<Seq<char>, LocalInfo>,
    condition: SpannedExpr,
    before: Seq<CheckerDiagnostic>,
    after: Seq<CheckerDiagnostic>,
) -> bool {
    let t = expr_ty(x, env, condition);
    if t != TypeId(11) && t != err_ty() {
        appended_one(before, after) && mismatch_report(after.last(), condition.span, "bool"@, ty_name(x, t))
    } else {
        after == before
    }
}

/// For an `if` without `else` whose condition and block are clean, what
/// checking it reports is what `lone_if_reports` says.
pub open spec fn lone_if_checked(
    x: TyCtx,
    env: Map<Seq<char>, LocalInfo>,
    e: SpannedExpr,
    before: Seq<CheckerDiagnostic>,
    after: Seq<CheckerDiagnostic>,
) -> bool {
    match e.node {
        Expr::If { condition, then_branch, else_branch } => else_branch is None && clean(x, env, *condition)
            && clean_block(x, env, then_branch.node) ==> lone_if_reports(x, env, *condition, before, after),
        _ => true,
    }
}

/// Whether checking `e` can report nothing: a literal (not a template), a
/// local, an operation (or a parenthesized expression) on such operands
/// that is well typed, a call of a known function whose arguments are such
/// and fit it, an assignment of such a value of the right type to a mutable
/// local, or a block that is clean.
pub open spec fn clean(x: TyCtx, env: Map<Seq<char>, LocalInfo>, e: SpannedExpr) -> bool
    decreases e, 0nat,
{
    match e.node {
        Expr::Literal(l) => !(l is TemplateString),
        Expr::Ident(name) => env.dom().contains(name@),
        Expr::Binary { left, right, .. } => clean(x, env, *left) && clean(x, env, *right) && expr_ty(x, env, e)
            != err_ty(),
        Expr::Unary { operand, .. } => clean(x, env, *operand) && expr_ty(x, env, e) != err_ty(),
        Expr::Grouped(inner) => clean(x, env, *inner),
        Expr::Call { callee, args } => match callee.node {
            Expr::Ident(name) => match x.0.lookup(name@) {
                Some(sig) => call_fits(x, env, sig, 0, args@) && forall|a: int|
                    0 <= a < args@.len() ==> clean(x, env, #[trigger] args@[a].value),
                None => false,
            },
            _ => false,
        },
        Expr::Assign { target, value } => match target.node {
            Expr::Ident(name) => {
                let vt = expr_ty(x, env, *value);
                &&& env.dom().contains(name@)
                &&& env[name@].is_mut
                &&& clean(x, env, *value)
                &&& (vt == env[name@].ty || vt == err_ty() || env[name@].ty == err_ty())
            },
            _ => false,
        },
        Expr::Block(b) => clean_block(x, env, b),
        _ => false,
    }
}

/// Exactly one diagnostic was appended.
pub open spec fn appended_one(before: Seq<CheckerDiagnostic>, after: Seq<CheckerDiagnostic>) -> bool {
    after.len() == before.len() + 1 && after.drop_last() == before
}

/// Whether `d` reports a value of type named `found` where one of type named
/// `expected` is wanted, at `span`.
pub open spec fn mismatch_report(d: CheckerDiagnostic, span: Span, expected: Seq<char>, found: Seq<char>) -> bool {
    d matches CheckerDiagnostic::TypeMismatch { span: sp, expected: ex, found: fo } && sp == span && ex@
        == expected && fo@ == found
}

/// Whether `d` reports an operator (`op`) that does not apply to a type
/// named `ty`, at `span`.
pub open spec fn operator_report(d: CheckerDiagnostic, span: Span, op: Seq<char>, ty: Seq<char>) -> bool {
    d matches CheckerDiagnostic::InvalidOperatorType { span: sp, op: o, ty: t } && sp == span && o@ == op
        && t@ == ty
}

/// The symbol a unary operator is shown by.
pub open spec fn unary_text(op: UnaryOp) -> Seq<char> {
    match op {
        UnaryOp::Neg => "-"@,
        UnaryOp::Not => "!"@,
        UnaryOp::BitNot => "~"@,
    }
}

/// Whether the last diagnostic checking `e` appends is one `e` reports
/// itself (after those of its parts), and what that diagnostic must be:
/// the branches of an `if` of two types, an operator applied to a type it
/// does not apply to, operands of two types, an invalid cast, or a field
/// access on a non-struct or to a field the struct lacks.
pub open spec fn own_report(x: TyCtx, env: Map<Seq<char>, LocalInfo>, e: SpannedExpr, d: CheckerDiagnostic) -> bool {
    match e.node {
        Expr::If { then_branch, else_branch, .. } => match else_branch {
            Some(el) => {
                let a = block_ty(x, env, then_branch.node);
                let b = expr_ty(x, env, *el);
                a != b && a != err_ty() && b != err_ty() ==> mismatch_report(d, el.span, ty_name(x, a), ty_name(x, b))
            },
            None => true,
        },
        Expr::Unary { op, operand } => {
            let t = expr_ty(x, env, *operand);
            t != err_ty() && unary_ty(x, op, t) == err_ty() ==> operator_report(
                d,
                e.span,
                unary_text(op),
                ty_name(x, t),
            )
        },
        Expr::Binary { op, left, right } => {
            let l = expr_ty(x, env, *left);
            let r = expr_ty(x, env, *right);
            l != err_ty() && r != err_ty() && !(op_method(op) is Some
                && x.0.lookup(mangled(ty_name(x, l), op_method(op).unwrap())) is Some)
                && binary_ty(x, op, l, r) == err_ty() ==> if l != r {
                mismatch_report(d, right.span, ty_name(x, l), ty_name(x, r))
            } else {
                operator_report(d, e.span, binop_text(op), ty_name(x, l))
            }
        },
        Expr::Cast { expr, target_type } => {
            let s = expr_ty(x, env, *expr);
            let t = written_ty(x, target_type.node);
            s != err_ty() && t != err_ty() && !cast_allowed(x, s, t) ==> operator_report(
                d,
                expr.span,
                "as"@,
                ty_name(x, s) + " as "@ + ty_name(x, t),
            )
        },
        Expr::FieldAccess { object, field } => {
            let t = expr_ty(x, env, *object);
            t != err_ty() ==> match ctx_kind(x, t) {
                KindView::Struct { name, fields, .. } => field_ty(fields, field@) is None ==> (d matches CheckerDiagnostic::UnknownField {
                    span: sp,
                    name: n,
                    field: f,
                } && sp == e.span && n@ == name && f@ == field@),
                _ => d matches CheckerDiagnostic::FieldAccessOnNonStruct { span: sp, ty } && sp == e.span
                    && ty@ == ty_name(x, t),
            }
        },
        _ => true,
    }
}

/// Whether a type mismatch at `span` (wanting `expected`, finding `found`)
/// is among the diagnostics `after` holds beyond the first `before.len()`.
pub open spec fn mismatch_appended(
    before: Seq<CheckerDiagnostic>,
    after: Seq<CheckerDiagnostic>,
    span: Span,
    expected: Seq<char>,
    found: Seq<char>,
) -> bool {
    exists|i: int| before.len() <= i < after.len() && mismatch_report(#[trigger] after[i], span, expected, found)
}

/// Whether an assignment to the immutable local `name` at `span` is among
/// the diagnostics `after` holds beyond the first `before.len()`.
pub open spec fn immutable_appended(
    before: Seq<CheckerDiagnostic>,
    after: Seq<CheckerDiagnostic>,
    span: Span,
    name: Seq<char>,
) -> bool {
    exists|i: int|
        before.len() <= i < after.len() && (#[trigger] after[i] matches CheckerDiagnostic::ImmutableAssignment {
            span: sp,
            name: n,
        } && sp == span && n@ == name)
}

/// Whether an undefined name `name` at `span` is among the diagnostics
/// `after` holds beyond the first `before.len()`.
pub open spec fn undefined_appended(
    before: Seq<CheckerDiagnostic>,
    after: Seq<CheckerDiagnostic>,
    span: Span,
    name: Seq<char>,
) -> bool {
    exists|i: int|
        before.len() <= i < after.len() && (#[trigger] after[i] matches CheckerDiagnostic::UndefinedVariable {
            span: sp,
            name: n,
        } && sp == span && n@ == name)
}

/// Whether a call of the undefined function `name` at `span` is among the
/// diagnostics `after` holds beyond the first `before.len()`.
pub open spec fn undefined_fn_appended(
    before: Seq<CheckerDiagnostic>,
    after: Seq<CheckerDiagnostic>,
    span: Span,
    name: Seq<char>,
) -> bool {
    exists|i: int|
        before.len() <= i < after.len() && (#[trigger] after[i] matches CheckerDiagnostic::UndefinedFunction {
            span: sp,
            name: n,
        } && sp == span && n@ == name)
}

/// Whether an operator `op` that does not apply to a type named `ty`, at
/// `span`, is among the diagnostics `after` holds beyond the first
/// `before.len()`.
pub open spec fn operator_appended(
    before: Seq<CheckerDiagnostic>,
    after: Seq<CheckerDiagnostic>,
    span: Span,
    op: Seq<char>,
    ty: Seq<char>,
) -> bool {
    exists|i: int| before.len() <= i < after.len() && operator_report(#[trigger] after[i], span, op, ty)
}

/// Each value whose type is not the type given for its position (neither
/// of the two being the error type) is reported, at the value.
pub open spec fn values_reported(
    x: TyCtx,
    env: Map<Seq<char>, LocalInfo>,
    fts: Seq<TypeId>,
    vals: Seq<SpannedExpr>,
    before: Seq<CheckerDiagnostic>,
    after: Seq<CheckerDiagnostic>,
) -> bool {
    forall|i: int|
        0 <= i < vals.len() && i < fts.len() ==> {
            let v = expr_ty(x, env, #[trigger] vals[i]);
            v != fts[i] && v != err_ty() && fts[i] != err_ty() ==> mismatch_appended(
                before,
                after,
                vals[i].span,
                ty_name(x, fts[i]),
                ty_name(x, v),
            )
        }
}

/// The values of a list of call arguments.
pub open spec fn arg_values(args: Seq<CallArg>) -> Seq<SpannedExpr> {
    args.map_values(|a: CallArg| a.value)
}

/// Whether a wrong number of arguments (`found` where `expected` are
/// wanted) at `span` is among the diagnostics `after` holds beyond the
/// first `before.len()`.
pub open spec fn count_appended(
    before: Seq<CheckerDiagnostic>,
    after: Seq<CheckerDiagnostic>,
    span: Span,
    expected: nat,
    found: nat,
) -> bool {
    exists|i: int|
        before.len() <= i < after.len() && (#[trigger] after[i] matches CheckerDiagnostic::ArgumentCountMismatch {
            span: sp,
            expected: ex,
            found: fo,
        } && sp == span && ex@ == decimal(expected) && fo@ == decimal(found))
}

/// What the field values of a literal of the struct `name` (declaring the
/// fields `expected`) report: a value of another type than its field's, and
/// a value for a field the struct does not declare.
pub open spec fn fields_reported(
    x: TyCtx,
    env: Map<Seq<char>, LocalInfo>,
    name: Seq<char>,
    expected: Seq<(Seq<char>, TypeId)>,
    fields: Seq<(String, SpannedExpr)>,
    before: Seq<CheckerDiagnostic>,
    after: Seq<CheckerDiagnostic>,
) -> bool {
    forall|i: int|
        0 <= i < fields.len() ==> match field_ty(expected, (#[trigger] fields[i]).0@) {
            Some(ft) => {
                let v = expr_ty(x, env, fields[i].1);
                v != ft && v != err_ty() && ft != err_ty() ==> mismatch_appended(
                    before,
                    after,
                    fields[i].1.span,
                    ty_name(x, ft),
                    ty_name(x, v),
                )
            },
            None => exists|k: int|
                before.len() <= k < after.len() && (#[trigger] after[k] matches CheckerDiagnostic::UnknownField {
                    span: sp,
                    name: n,
                    field: f,
                } && sp == fields[i].1.span && n@ == name && f@ == fields[i].0@),
        }
}

/// What checking `e` reports that stays reported whatever is checked
/// after it: a name used as a value that names neither a local nor a
/// struct, and what `reports_of` lists (a `return` aside).
pub open spec fn lasting_reports(
    x: TyCtx,
    env: Map<Seq<char>, LocalInfo>,
    e: SpannedExpr,
    before: Seq<CheckerDiagnostic>,
    after: Seq<CheckerDiagnostic>,
) -> bool {
    &&& e.node is Ident && !env.dom().contains(e.node->Ident_0@) && scope_get(x.1, e.node->Ident_0@) is None
        ==> undefined_appended(before, after, e.span, e.node->Ident_0@)
    &&& reports_of(x, env, e, None, before, after)
}

/// What an expression lastingly reported between two points is reported
/// between any earlier point and any later one.
pub(crate) proof fn lemma_lasting_widen(
    x: TyCtx,
    env: Map<Seq<char>, LocalInfo>,
    e: SpannedExpr,
    b0: Seq<CheckerDiagnostic>,
    b: Seq<CheckerDiagnostic>,
    a: Seq<CheckerDiagnostic>,
    a2: Seq<CheckerDiagnostic>,
)
    requires
        lasting_reports(x, env, e, b, a),
        b0.len() <= b.len(),
        a.len() <= a2.len(),
        forall|i: int| 0 <= i < a.len() ==> #[trigger] a2[i] == a[i],
    ensures
        lasting_reports(x, env, e, b0, a2),
{
    assert forall|span: Span, n: Seq<char>| undefined_appended(b, a, span, n) implies undefined_appended(b0, a2, span, n) by {
        let i = choose|i: int|
            b.len() <= i < a.len() && (#[trigger] a[i] matches CheckerDiagnostic::UndefinedVariable {
                span: sp,
                name: nm,
            } && sp == span && nm@ == n);
        assert(a2[i] == a[i]);
    }
    assert forall|span: Span, n: Seq<char>| immutable_appended(b, a, span, n) implies immutable_appended(b0, a2, span, n) by {
        let i = choose|i: int|
            b.len() <= i < a.len() && (#[trigger] a[i] matches CheckerDiagnostic::ImmutableAssignment {
                span: sp,
                name: nm,
            } && sp == span && nm@ == n);
        assert(a2[i] == a[i]);
    }
    assert forall|span: Span, n: Seq<char>| undefined_fn_appended(b, a, span, n) implies undefined_fn_appended(b0, a2, span, n) by {
        let i = choose|i: int|
            b.len() <= i < a.len() && (#[trigger] a[i] matches CheckerDiagnostic::UndefinedFunction {
                span: sp,
                name: nm,
            } && sp == span && nm@ == n);
        assert(a2[i] == a[i]);
    }
    assert forall|span: Span, ex: Seq<char>, fo: Seq<char>| mismatch_appended(b, a, span, ex, fo) implies mismatch_appended(b0, a2, span, ex, fo) by {
        lemma_mismatch_widen(b0, b, a, a2, span, ex, fo);
    }
    if let Expr::Call { callee, args } = e.node {
        if let Expr::Ident(name) = callee.node {
            if let Some(sig) = x.0.lookup(name@) {
                let m = choose|m: ArgMatch|
                    is_arg_match(callable_names(sig, 0), callable_defaults(sig, 0), arg_names_view(args@), m)
                        && call_slot_reports(x, env, sig, 0, e.span, args@, m, b, a);
                lemma_call_slots_widen(x, env, sig, 0, e.span, args@, m, b0, b, a, a2);
            }
        }
    }
}

/// Whether a named argument `name` matching no parameter, at `span`, is
/// among the diagnostics `after` holds beyond the first `before.len()`.
pub open spec fn unknown_param_appended(
    before: Seq<CheckerDiagnostic>,
    after: Seq<CheckerDiagnostic>,
    span: Span,
    name: Seq<char>,
) -> bool {
    exists|i: int|
        before.len() <= i < after.len() && (#[trigger] after[i] matches CheckerDiagnostic::UnknownParameterName {
            span: sp,
            name: n,
        } && sp == span && n@ == name)
}

/// What checking the argument at `a` of a call of `sig` (at `span`, matched
/// to the parameters by `m`) reports of how it fits the call: for one that
/// fills a parameter, a value of another type (an integer literal without a
/// suffix fits any integer type); for one that fills none, an unknown
/// parameter name or, if positional, a wrong number of arguments.
pub open spec fn arg_slot_reported(
    x: TyCtx,
    env: Map<Seq<char>, LocalInfo>,
    sig: FunctionSig,
    skip: usize,
    span: Span,
    args: Seq<CallArg>,
    m: ArgMatch,
    a: int,
    before: Seq<CheckerDiagnostic>,
    after: Seq<CheckerDiagnostic>,
) -> bool {
    let n = callable_names(sig, skip).len();
    if a < m.slots@.len() && m.slots@[a] is Some && (m.slots@[a].unwrap() as int) < n {
        let pt = sig.params@[callable_start(sig, skip) + m.slots@[a].unwrap()].1;
        let at = expr_ty(x, env, args[a].value);
        at != pt && at != err_ty() && pt != err_ty() && !(unsuffixed_int(args[a].value.node)
            && kind_is_integer(ctx_kind(x, pt))) ==> mismatch_appended(
            before,
            after,
            args[a].value.span,
            ty_name(x, pt),
            ty_name(x, at),
        )
    } else {
        match args[a].name {
            Some(nm) => unknown_param_appended(before, after, args[a].value.span, nm@),
            None => count_appended(before, after, span, n, args.len()),
        }
    }
}

/// What checking the argument at `a` of a call reports: what the argument
/// lastingly reports, and how it fits the call.
pub open spec fn arg_reported(
    x: TyCtx,
    env: Map<Seq<char>, LocalInfo>,
    sig: FunctionSig,
    skip: usize,
    span: Span,
    args: Seq<CallArg>,
    m: ArgMatch,
    a: int,
    before: Seq<CheckerDiagnostic>,
    after: Seq<CheckerDiagnostic>,
) -> bool {
    &&& lasting_reports(x, env, args[a].value, before, after)
    &&& arg_slot_reported(x, env, sig, skip, span, args, m, a, before, after)
}

/// How the arguments of a call fit it: each argument that is checked (all
/// of them, or, when there are too many leading positional ones, those
/// before the first left without a parameter, and then a wrong number of
/// arguments) is reported as `arg_slot_reported` says.
pub open spec fn call_slot_reports(
    x: TyCtx,
    env: Map<Seq<char>, LocalInfo>,
    sig: FunctionSig,
    skip: usize,
    span: Span,
    args: Seq<CallArg>,
    m: ArgMatch,
    before: Seq<CheckerDiagnostic>,
    after: Seq<CheckerDiagnostic>,
) -> bool {
    let stop = match m.overflow_at {
        Some(o) => o as int,
        None => args.len() as int,
    };
    &&& m.overflow_at is Some ==> count_appended(
        before,
        after,
        span,
        callable_names(sig, skip).len(),
        args.len(),
    )
    &&& forall|a: int|
        0 <= a < stop && a < args.len() ==> #[trigger] arg_slot_reported(
            x,
            env,
            sig,
            skip,
            span,
            args,
            m,
            a,
            before,
            after,
        )
}

/// What checking the arguments of a call reports for each argument it
/// checks: what the argument lastingly reports, and how it fits the call.
pub open spec fn call_arg_reports(
    x: TyCtx,
    env: Map<Seq<char>, LocalInfo>,
    sig: FunctionSig,
    skip: usize,
    span: Span,
    args: Seq<CallArg>,
    m: ArgMatch,
    before: Seq<CheckerDiagnostic>,
    after: Seq<CheckerDiagnostic>,
) -> bool {
    let stop = match m.overflow_at {
        Some(o) => o as int,
        None => args.len() as int,
    };
    &&& call_slot_reports(x, env, sig, skip, span, args, m, before, after)
    &&& forall|a: int|
        0 <= a < stop && a < args.len() ==> #[trigger] arg_reported(
            x,
            env,
            sig,
            skip,
            span,
            args,
            m,
            a,
            before,
            after,
        )
}

/// How an argument fit the call between two points is reported between
/// any earlier point and any later one.
proof fn lemma_arg_slot_widen(
    x: TyCtx,
    env: Map<Seq<char>, LocalInfo>,
    sig: FunctionSig,
    skip: usize,
    span: Span,
    args: Seq<CallArg>,
    m: ArgMatch,
    a: int,
    b0: Seq<CheckerDiagnostic>,
    b: Seq<CheckerDiagnostic>,
    d: Seq<CheckerDiagnostic>,
    d2: Seq<CheckerDiagnostic>,
)
    requires
        arg_slot_reported(x, env, sig, skip, span, args, m, a, b, d),
        b0.len() <= b.len(),
        d.len() <= d2.len(),
        forall|i: int| 0 <= i < d.len() ==> #[trigger] d2[i] == d[i],
    ensures
        arg_slot_reported(x, env, sig, skip, span, args, m, a, b0, d2),
{
    let n = callable_names(sig, skip).len();
    if a < m.slots@.len() && m.slots@[a] is Some && (m.slots@[a].unwrap() as int) < n {
        let pt = sig.params@[callable_start(sig, skip) + m.slots@[a].unwrap()].1;
        let at = expr_ty(x, env, args[a].value);
        if at != pt && at != err_ty() && pt != err_ty() && !(unsuffixed_int(args[a].value.node)
            && kind_is_integer(ctx_kind(x, pt))) {
            lemma_mismatch_widen(b0, b, d, d2, args[a].value.span, ty_name(x, pt), ty_name(x, at));
        }
    } else {
        match args[a].name {
            Some(nm) => {
                let i = choose|i: int|
                    b.len() <= i < d.len() && (#[trigger] d[i] matches CheckerDiagnostic::UnknownParameterName {
                        span: sp,
                        name: nn,
                    } && sp == args[a].value.span && nn@ == nm@);
                assert(d2[i] == d[i]);
            },
            None => {
                let i = choose|i: int|
                    b.len() <= i < d.len() && (#[trigger] d[i] matches CheckerDiagnostic::ArgumentCountMismatch {
                        span: sp,
                        expected: e,
                        found: f,
                    } && sp == span && e@ == decimal(n) && f@ == decimal(args.len()));
                assert(d2[i] == d[i]);
            },
        }
    }
}

/// How the arguments fit a call between two points is reported between
/// any earlier point and any later one.
proof fn lemma_call_slots_widen(
    x: TyCtx,
    env: Map<Seq<char>, LocalInfo>,
    sig: FunctionSig,
    skip: usize,
    span: Span,
    args: Seq<CallArg>,
    m: ArgMatch,
    b0: Seq<CheckerDiagnostic>,
    b: Seq<CheckerDiagnostic>,
    d: Seq<CheckerDiagnostic>,
    d2: Seq<CheckerDiagnostic>,
)
    requires
        call_slot_reports(x, env, sig, skip, span, args, m, b, d),
        b0.len() <= b.len(),
        d.len() <= d2.len(),
        forall|i: int| 0 <= i < d.len() ==> #[trigger] d2[i] == d[i],
    ensures
        call_slot_reports(x, env, sig, skip, span, args, m, b0, d2),
{
    let stop = match m.overflow_at {
        Some(o) => o as int,
        None => args.len() as int,
    };
    if m.overflow_at is Some {
        let n = callable_names(sig, skip).len();
        let i = choose|i: int|
            b.len() <= i < d.len() && (#[trigger] d[i] matches CheckerDiagnostic::ArgumentCountMismatch {
                span: sp,
                expected: e,
                found: f,
            } && sp == span && e@ == decimal(n) && f@ == decimal(args.len()));
        assert(d2[i] == d[i]);
    }
    assert forall|a: int| 0 <= a < stop && a < args.len() implies #[trigger] arg_slot_reported(
        x,
        env,
        sig,
        skip,
        span,
        args,
        m,
        a,
        b0,
        d2,
    ) by {
        lemma_arg_slot_widen(x, env, sig, skip, span, args, m, a, b0, b, d, d2);
    }
}

/// Two signatures that agree in everything a caller can observe are
/// matched and reported alike.
proof fn lemma_same_sig_slots(
    x: TyCtx,
    env: Map<Seq<char>, LocalInfo>,
    s1: FunctionSig,
    s2: FunctionSig,
    skip: usize,
    span: Span,
    args: Seq<CallArg>,
    m: ArgMatch,
    before: Seq<CheckerDiagnostic>,
    after: Seq<CheckerDiagnostic>,
)
    requires
        same_sig(s1, s2),
    ensures
        callable_names(s1, skip) == callable_names(s2, skip),
        callable_defaults(s1, skip) == callable_defaults(s2, skip),
        call_slot_reports(x, env, s1, skip, span, args, m, before, after) == call_slot_reports(
            x,
            env,
            s2,
            skip,
            span,
            args,
            m,
            before,
            after,
        ),
{
    let v1 = params_view(s1.params@);
    let v2 = params_view(s2.params@);
    assert(v1.len() == s1.params@.len());
    assert(v2.len() == s2.params@.len());
    assert forall|k: int| 0 <= k < s1.params@.len() implies #[trigger] s1.params@[k].1 == s2.params@[k].1
        && s1.params@[k].0@ == s2.params@[k].0@ by {
        assert(v1[k] == v2[k]);
    }
    let start = callable_start(s1, skip);
    assert forall|i: int| 0 <= i < callable_names(s1, skip).len() implies #[trigger] callable_names(s1, skip)[i]
        == callable_names(s2, skip)[i] by {
        assert(v1[start + i] == v2[start + i]);
    }
    assert(callable_names(s1, skip) =~= callable_names(s2, skip));
    assert(callable_defaults(s1, skip) =~= callable_defaults(s2, skip));
    let stop = match m.overflow_at {
        Some(o) => o as int,
        None => args.len() as int,
    };
    assert forall|a: int|
        #![trigger arg_slot_reported(x, env, s1, skip, span, args, m, a, before, after)]
        #![trigger arg_slot_reported(x, env, s2, skip, span, args, m, a, before, after)]
        0 <= a < stop && a < args.len() implies arg_slot_reported(
        x,
        env,
        s1,
        skip,
        span,
        args,
        m,
        a,
        before,
        after,
    ) == arg_slot_reported(x, env, s2, skip, span, args, m, a, before, after) by {
        let n = callable_names(s1, skip).len();
        if a < m.slots@.len() && m.slots@[a] is Some && (m.slots@[a].unwrap() as int) < n {
            let k = callable_start(s1, skip) + m.slots@[a].unwrap();
            assert(s1.params@[k].1 == s2.params@[k].1);
        }
    }
}

/// What an argument reported between two points is reported between any
/// earlier point and any later one.
proof fn lemma_arg_reported_widen(
    x: TyCtx,
    env: Map<Seq<char>, LocalInfo>,
    sig: FunctionSig,
    skip: usize,
    span: Span,
    args: Seq<CallArg>,
    m: ArgMatch,
    a: int,
    b0: Seq<CheckerDiagnostic>,
    b: Seq<CheckerDiagnostic>,
    d: Seq<CheckerDiagnostic>,
    d2: Seq<CheckerDiagnostic>,
)
    requires
        arg_reported(x, env, sig, skip, span, args, m, a, b, d),
        b0.len() <= b.len(),
        d.len() <= d2.len(),
        forall|i: int| 0 <= i < d.len() ==> #[trigger] d2[i] == d[i],
    ensures
        arg_reported(x, env, sig, skip, span, args, m, a, b0, d2),
{
    lemma_lasting_widen(x, env, args[a].value, b0, b, d, d2);
    lemma_arg_slot_widen(x, env, sig, skip, span, args, m, a, b0, b, d, d2);
}

/// A reported mismatch stays reported from any earlier point to any later
/// one.
pub(crate) proof fn lemma_mismatch_widen(
    b0: Seq<CheckerDiagnostic>,
    b: Seq<CheckerDiagnostic>,
    a: Seq<CheckerDiagnostic>,
    a2: Seq<CheckerDiagnostic>,
    span: Span,
    ex: Seq<char>,
    fo: Seq<char>,
)
    requires
        mismatch_appended(b, a, span, ex, fo),
        b0.len() <= b.len(),
        a.len() <= a2.len(),
        forall|i: int| 0 <= i < a.len() ==> #[trigger] a2[i] == a[i],
    ensures
        mismatch_appended(b0, a2, span, ex, fo),
{
    let i = choose|i: int| b.len() <= i < a.len() && mismatch_report(#[trigger] a[i], span, ex, fo);
    assert(a2[i] == a[i]);
}

/// A reported wrong number of arguments stays reported as more
/// diagnostics follow.
pub(crate) proof fn lemma_count_kept(
    b: Seq<CheckerDiagnostic>,
    a: Seq<CheckerDiagnostic>,
    a2: Seq<CheckerDiagnostic>,
    span: Span,
    ex: nat,
    fo: nat,
)
    requires
        count_appended(b, a, span, ex, fo),
        a.len() <= a2.len(),
        forall|i: int| 0 <= i < a.len() ==> #[trigger] a2[i] == a[i],
    ensures
        count_appended(b, a2, span, ex, fo),
{
    let i = choose|i: int|
        b.len() <= i < a.len() && (#[trigger] a[i] matches CheckerDiagnostic::ArgumentCountMismatch {
            span: sp,
            expected: e,
            found: f,
        } && sp == span && e@ == decimal(ex) && f@ == decimal(fo));
    assert(a2[i] == a[i]);
}

/// A condition that is neither a `bool` nor already in error is reported.
pub open spec fn condition_reported(
    x: TyCtx,
    env: Map<Seq<char>, LocalInfo>,
    condition: SpannedExpr,
    before: Seq<CheckerDiagnostic>,
    after: Seq<CheckerDiagnostic>,
) -> bool {
    let t = expr_ty(x, env, condition);
    t != TypeId(11) && t != err_ty() ==> mismatch_appended(before, after, condition.span, "bool"@, ty_name(x, t))
}

/// What checking `e` reports beyond its parts, where that report need not
/// come last: an `if` or `while` condition that is not a `bool`, an
/// assignment to an immutable or unknown local, a call of a name that is
/// neither a function nor a struct, and (with the function's
/// return type `ret` known) a returned value of another type, reported
/// last.
pub open spec fn reports_of(
    x: TyCtx,
    env: Map<Seq<char>, LocalInfo>,
    e: SpannedExpr,
    ret: Option<TypeId>,
    before: Seq<CheckerDiagnostic>,
    after: Seq<CheckerDiagnostic>,
) -> bool {
    match e.node {
        Expr::Call { callee, args } => match callee.node {
            Expr::Ident(name) => match x.0.lookup(name@) {
                Some(sig) => exists|m: ArgMatch|
                    is_arg_match(callable_names(sig, 0), callable_defaults(sig, 0), arg_names_view(args@), m)
                        && call_slot_reports(x, env, sig, 0, e.span, args@, m, before, after),
                None => struct_named(x, name@) is None ==> undefined_fn_appended(
                    before,
                    after,
                    callee.span,
                    name@,
                ),
            },
            _ => true,
        },
        Expr::If { condition, .. } => condition_reported(x, env, *condition, before, after),
        Expr::While { condition, .. } => condition_reported(x, env, *condition, before, after),
        Expr::Assign { target, .. } => match target.node {
            Expr::Ident(name) => if env.dom().contains(name@) {
                !env[name@].is_mut ==> immutable_appended(before, after, target.span, name@)
            } else {
                undefined_appended(before, after, target.span, name@)
            },
            _ => true,
        },
        Expr::Return(Some(v)) => match ret {
            Some(rt) => {
                let vt = expr_ty(x, env, *v);
                vt != rt && vt != err_ty() && rt != err_ty() ==> (after.last() matches CheckerDiagnostic::ReturnTypeMismatch {
                    span: sp,
                    expected: ex,
                    found: fo,
                } && sp == v.span && ex@ == ty_name(x, rt) && fo@ == ty_name(x, vt))
            },
            None => true,
        },
        _ => true,
    }
}

/// Whether an unknown type `name` at `span` is among the diagnostics
/// `after` holds beyond the first `before.len()`.
pub open spec fn unknown_type_appended(
    before: Seq<CheckerDiagnostic>,
    after: Seq<CheckerDiagnostic>,
    span: Span,
    name: Seq<char>,
) -> bool {
    exists|i: int|
        before.len() <= i < after.len() && (#[trigger] after[i] matches CheckerDiagnostic::UnknownType {
            span: sp,
            name: n,
        } && sp == span && n@ == name)
}

/// What a `let` with the written type `ty` and the value `value` reports:
/// a written type that names no type, and a value of another type than the
/// written one (an integer literal without a suffix takes any integer
/// type).
pub open spec fn let_reported(
    x: TyCtx,
    env: Map<Seq<char>, LocalInfo>,
    ty: Option<Spanned<TypeExpr>>,
    value: SpannedExpr,
    before: Seq<CheckerDiagnostic>,
    after: Seq<CheckerDiagnostic>,
) -> bool {
    match ty {
        Some(te) => match resolved_type(x.1, x.4, x.5, x.3, te.node) {
            Some(d) => {
                let v = expr_ty(x, env, value);
                v != d && v != err_ty() && d != err_ty() && !(unsuffixed_int(value.node) && kind_is_integer(
                    ctx_kind(x, d),
                )) ==> mismatch_appended(before, after, value.span, ty_name(x, d), ty_name(x, v))
            },
            None => match te.node {
                TypeExpr::Named(n) => unknown_type_appended(before, after, te.span, n@),
                TypeExpr::Unit => true,
            },
        },
        None => true,
    }
}

/// What checking a statement reports that stays reported: what its
/// expression lastingly reports, and for a `let` or a `const` also what
/// `let_reported` says.
pub open spec fn stmt_reported(
    x: TyCtx,
    env: Map<Seq<char>, LocalInfo>,
    s: SpannedStmt,
    before: Seq<CheckerDiagnostic>,
    after: Seq<CheckerDiagnostic>,
) -> bool {
    match s.node {
        Stmt::Expr(e) => lasting_reports(x, env, e, before, after),
        Stmt::Let { ty, value, .. } => let_reported(x, env, ty, value, before, after) && lasting_reports(
            x,
            env,
            value,
            before,
            after,
        ),
        Stmt::Const { ty, value, .. } => let_reported(x, env, ty, value, before, after) && lasting_reports(
            x,
            env,
            value,
            before,
            after,
        ),
        Stmt::LetPattern { value, .. } => lasting_reports(x, env, value, before, after),
        _ => true,
    }
}

/// What a statement reported between two points is reported between any
/// earlier point and any later one.
pub(crate) proof fn lemma_stmt_reported_widen(
    x: TyCtx,
    env: Map<Seq<char>, LocalInfo>,
    s: SpannedStmt,
    b0: Seq<CheckerDiagnostic>,
    b: Seq<CheckerDiagnostic>,
    a: Seq<CheckerDiagnostic>,
    a2: Seq<CheckerDiagnostic>,
)
    requires
        stmt_reported(x, env, s, b, a),
        b0.len() <= b.len(),
        a.len() <= a2.len(),
        forall|i: int| 0 <= i < a.len() ==> #[trigger] a2[i] == a[i],
    ensures
        stmt_reported(x, env, s, b0, a2),
{
    match s.node {
        Stmt::Expr(e) => {
            lemma_lasting_widen(x, env, e, b0, b, a, a2);
            return;
        },
        Stmt::LetPattern { value, .. } => {
            lemma_lasting_widen(x, env, value, b0, b, a, a2);
            return;
        },
        Stmt::Let { value, .. } => {
            lemma_lasting_widen(x, env, value, b0, b, a, a2);
        },
        Stmt::Const { value, .. } => {
            lemma_lasting_widen(x, env, value, b0, b, a, a2);
        },
        _ => {},
    }
    let (ty, value) = match s.node {
        Stmt::Let { ty, value, .. } => (ty, value),
        Stmt::Const { ty, value, .. } => (ty, value),
        _ => {
            return;
        },
    };
    if let Some(te) = ty {
        match resolved_type(x.1, x.4, x.5, x.3, te.node) {
            Some(d) => {
                let v = expr_ty(x, env, value);
                if mismatch_appended(b, a, value.span, ty_name(x, d), ty_name(x, v)) {
                    let i = choose|i: int|
                        b.len() <= i < a.len() && mismatch_report(
                            #[trigger] a[i],
                            value.span,
                            ty_name(x, d),
                            ty_name(x, v),
                        );
                    assert(a2[i] == a[i]);
                }
            },
            None => {
                if let TypeExpr::Named(n) = te.node {
                    if unknown_type_appended(b, a, te.span, n@) {
                        let i = choose|i: int|
                            b.len() <= i < a.len() && (#[trigger] a[i] matches CheckerDiagnostic::UnknownType {
                                span: sp,
                                name: nm,
                            } && sp == te.span && nm@ == n@);
                        assert(a2[i] == a[i]);
                    }
                }
            },
        }
    }
}

/// A diagnostic once appended stays where it is as checking goes on.
pub(crate) proof fn lemma_appended_kept(a: Checker, b: Checker, c: Checker)
    requires
        Checker::body_frame(b, c),
        a.diagnostics.diagnostics@.len() <= b.diagnostics.diagnostics@.len(),
    ensures
        forall|span: Span, ex: Seq<char>, fo: Seq<char>|
            mismatch_appended(a.diagnostics.diagnostics@, b.diagnostics.diagnostics@, span, ex, fo)
                ==> mismatch_appended(a.diagnostics.diagnostics@, c.diagnostics.diagnostics@, span, ex, fo),
        forall|span: Span, n: Seq<char>|
            immutable_appended(a.diagnostics.diagnostics@, b.diagnostics.diagnostics@, span, n)
                ==> immutable_appended(a.diagnostics.diagnostics@, c.diagnostics.diagnostics@, span, n),
        forall|span: Span, n: Seq<char>|
            undefined_appended(a.diagnostics.diagnostics@, b.diagnostics.diagnostics@, span, n)
                ==> undefined_appended(a.diagnostics.diagnostics@, c.diagnostics.diagnostics@, span, n),
        forall|span: Span, n: Seq<char>|
            undefined_fn_appended(a.diagnostics.diagnostics@, b.diagnostics.diagnostics@, span, n)
                ==> undefined_fn_appended(a.diagnostics.diagnostics@, c.diagnostics.diagnostics@, span, n),
        forall|span: Span, op: Seq<char>, ty: Seq<char>|
            operator_appended(a.diagnostics.diagnostics@, b.diagnostics.diagnostics@, span, op, ty)
                ==> operator_appended(a.diagnostics.diagnostics@, c.diagnostics.diagnostics@, span, op, ty),
{
    let ad = a.diagnostics.diagnostics@;
    let bd = b.diagnostics.diagnostics@;
    let cd = c.diagnostics.diagnostics@;
    assert forall|span: Span, op: Seq<char>, ty: Seq<char>|
        operator_appended(ad, bd, span, op, ty) implies operator_appended(ad, cd, span, op, ty) by {
        let i = choose|i: int| ad.len() <= i < bd.len() && operator_report(#[trigger] bd[i], span, op, ty);
        assert(cd[i] == bd[i]);
    }
    assert forall|span: Span, n: Seq<char>|
        undefined_fn_appended(ad, bd, span, n) implies undefined_fn_appended(ad, cd, span, n) by {
        let i = choose|i: int|
            ad.len() <= i < bd.len() && (#[trigger] bd[i] matches CheckerDiagnostic::UndefinedFunction {
                span: sp,
                name: nm,
            } && sp == span && nm@ == n);
        assert(cd[i] == bd[i]);
    }
    assert forall|span: Span, ex: Seq<char>, fo: Seq<char>|
        mismatch_appended(ad, bd, span, ex, fo) implies mismatch_appended(ad, cd, span, ex, fo) by {
        let i = choose|i: int| ad.len() <= i < bd.len() && mismatch_report(#[trigger] bd[i], span, ex, fo);
        assert(cd[i] == bd[i]);
    }
    assert forall|span: Span, n: Seq<char>|
        immutable_appended(ad, bd, span, n) implies immutable_appended(ad, cd, span, n) by {
        let i = choose|i: int|
            ad.len() <= i < bd.len() && (#[trigger] bd[i] matches CheckerDiagnostic::ImmutableAssignment {
                span: sp,
                name: nm,
            } && sp == span && nm@ == n);
        assert(cd[i] == bd[i]);
    }
    assert forall|span: Span, n: Seq<char>|
        undefined_appended(ad, bd, span, n) implies undefined_appended(ad, cd, span, n) by {
        let i = choose|i: int|
            ad.len() <= i < bd.len() && (#[trigger] bd[i] matches CheckerDiagnostic::UndefinedVariable {
                span: sp,
                name: nm,
            } && sp == span && nm@ == n);
        assert(cd[i] == bd[i]);
    }
}

/// A diagnostic appended after a later point was appended after an
/// earlier one too.
proof fn lemma_appended_weaken(a: Checker, b: Checker, c: Checker)
    requires
        a.diagnostics.diagnostics@.len() <= b.diagnostics.diagnostics@.len(),
    ensures
        forall|span: Span, n: Seq<char>|
            immutable_appended(b.diagnostics.diagnostics@, c.diagnostics.diagnostics@, span, n)
                ==> immutable_appended(a.diagnostics.diagnostics@, c.diagnostics.diagnostics@, span, n),
        forall|span: Span, n: Seq<char>|
            undefined_appended(b.diagnostics.diagnostics@, c.diagnostics.diagnostics@, span, n)
                ==> undefined_appended(a.diagnostics.diagnostics@, c.diagnostics.diagnostics@, span, n),
{
    let ad = a.diagnostics.diagnostics@;
    let bd = b.diagnostics.diagnostics@;
    let cd = c.diagnostics.diagnostics@;
    assert forall|span: Span, n: Seq<char>|
        immutable_appended(bd, cd, span, n) implies immutable_appended(ad, cd, span, n) by {
        let i = choose|i: int|
            bd.len() <= i < cd.len() && (#[trigger] cd[i] matches CheckerDiagnostic::ImmutableAssignment {
                span: sp,
                name: nm,
            } && sp == span && nm@ == n);
        assert(ad.len() <= i);
    }
    assert forall|span: Span, n: Seq<char>|
        undefined_appended(bd, cd, span, n) implies undefined_appended(ad, cd, span, n) by {
        let i = choose|i: int|
            bd.len() <= i < cd.len() && (#[trigger] cd[i] matches CheckerDiagnostic::UndefinedVariable {
                span: sp,
                name: nm,
            } && sp == span && nm@ == n);
        assert(ad.len() <= i);
    }
}

/// A name is reported as undefined, and nothing else, exactly when it names
/// neither a local nor a struct.
pub open spec fn ident_reported(
    before: Seq<CheckerDiagnostic>,
    after: Seq<CheckerDiagnostic>,
    span: Span,
    name: Seq<char>,
    known: bool,
) -> bool {
    if known {
        after == before
    } else {
        after.len() == before.len() + 1 && after.drop_last() == before && (after.last() matches CheckerDiagnostic::UndefinedVariable {
            span: sp,
            name: n,
        } && sp == span && n@ == name)
    }
}

/// Checking one part of a body after another keeps the frame.
pub proof fn lemma_body_frame_trans(a: Checker, b: Checker, c: Checker)
    requires
        Checker::body_frame(a, b),
        Checker::body_frame(b, c),
    ensures
        Checker::body_frame(a, c),
{
    assert forall|i: int| 0 <= i < a.diagnostics.diagnostics@.len() implies #[trigger] c.diagnostics.diagnostics@[i]
        == a.diagnostics.diagnostics@[i] by {
        assert(c.diagnostics.diagnostics@[i] == b.diagnostics.diagnostics@[i]);
    }
    assert forall|i: int|
        a.diagnostics.diagnostics@.len() <= i < c.diagnostics.diagnostics@.len() implies !(
        #[trigger] c.diagnostics.diagnostics@[i] is NoMainFunction) by {
        if i < b.diagnostics.diagnostics@.len() {
            assert(c.diagnostics.diagnostics@[i] == b.diagnostics.diagnostics@[i]);
        }
    }
}

/// The frame holds of a state and itself.
pub proof fn lemma_body_frame_refl(a: Checker)
    requires
        a.well_formed(),
    ensures
        Checker::body_frame(a, a),
{
}

/// Two stacks of scopes with the same scopes give the same locals.
pub proof fn lemma_env_same(a: ScopedLocals<LocalInfo>, b: ScopedLocals<LocalInfo>)
    requires
        forall|k: Seq<char>| #[trigger] a.binding(k) == b.binding(k),
    ensures
        env_of(a) == env_of(b),
{
    assert forall|k: Seq<char>| #[trigger] lookup(a.scopes(), k) == lookup(b.scopes(), k) by {
        assert(a.binding(k) == b.binding(k));
    }
    assert(env_of(a) =~= env_of(b));
}

impl Checker {
    /// Report that a value of type `found` stands where `expected` is wanted.
    pub(crate) fn report_mismatch(&mut self, span: Span, expected: TypeId, found: TypeId)
        requires
            old(self).well_formed(),
        ensures
            Self::body_frame(*old(self), *final(self)),
            final(self).current_return_type == old(self).current_return_type,
            appended_one(old(self).diagnostics.diagnostics@, final(self).diagnostics.diagnostics@),
            mismatch_report(
                final(self).diagnostics.diagnostics@.last(),
                span,
                kind_name(old(self).types.kind(expected)),
                kind_name(old(self).types.kind(found)),
            ),
    {
        let e = self.types.display_name(expected);
        let f = self.types.display_name(found);
        let d = CheckerDiagnostic::TypeMismatch { span, expected: e, found: f };
        let ghost dd = d;
        self.add(d);
        proof {
            lemma_body_frame_trans_add(*old(self), *self, dd);
            assert(self.diagnostics.diagnostics@.drop_last() =~= old(self).diagnostics.diagnostics@);
        }
    }

    /// Report a diagnostic from within a body.
    pub(crate) fn report(&mut self, d: CheckerDiagnostic)
        requires
            old(self).well_formed(),
            !(d is NoMainFunction),
        ensures
            Self::body_frame(*old(self), *final(self)),
            final(self).diagnostics.diagnostics@ == old(self).diagnostics.diagnostics@.push(d),
            appended_one(old(self).diagnostics.diagnostics@, final(self).diagnostics.diagnostics@),
            final(self).diagnostics.diagnostics@.last() == d,
            final(self).current_return_type == old(self).current_return_type,
    {
        let ghost dd = d;
        self.add(d);
        proof {
            lemma_body_frame_trans_add(*old(self), *self, dd);
            assert(self.diagnostics.diagnostics@.drop_last() =~= old(self).diagnostics.diagnostics@);
        }
    }

    /// Type-check each expression, ignoring its type.
    fn check_exprs_only(&mut self, exprs: &Vec<SpannedExpr>, locals: &mut ScopedLocals<LocalInfo>)
        requires
            old(self).well_formed(),
        ensures
            Self::body_frame(*old(self), *final(self)),
            final(locals).scopes() == old(locals).scopes(),
            forall|k: int|
                0 <= k < exprs@.len() ==> lasting_reports(
                    ctx_of(*old(self)),
                    env_of(*old(locals)),
                    #[trigger] exprs@[k],
                    old(self).diagnostics.diagnostics@,
                    final(self).diagnostics.diagnostics@,
                ),
        decreases exprs, 0nat,
    {
        let ghost s0 = *self;
        let ghost x = ctx_of(*self);
        let ghost env = env_of(*locals);
        let ghost vals = exprs@;
        proof {
            lemma_body_frame_refl(s0);
        }
        let mut i: usize = 0;
        while i < exprs.len()
            invariant
                i <= exprs@.len(),
                Self::body_frame(s0, *self),
                locals.scopes() == old(locals).scopes(),
                x == ctx_of(s0),
                env == env_of(*old(locals)),
                vals == exprs@,
                vals.len() == exprs@.len(),
                forall|k: int|
                    0 <= k < i ==> lasting_reports(
                        x,
                        env,
                        #[trigger] vals[k],
                        s0.diagnostics.diagnostics@,
                        self.diagnostics.diagnostics@,
                    ),
            decreases exprs@.len() - i,
        {
            let ghost s1 = *self;
            self.check_expr(&exprs[i], locals);
            proof {
                lemma_body_frame_trans(s0, s1, *self);
                let d0 = s0.diagnostics.diagnostics@;
                let d1 = s1.diagnostics.diagnostics@;
                let dn = self.diagnostics.diagnostics@;
                assert(vals[i as int] == exprs@[i as int]);
                assert forall|k: int| 0 <= k < i + 1 implies lasting_reports(x, env, #[trigger] vals[k], d0, dn) by {
                    if k < i {
                        lemma_lasting_widen(x, env, vals[k], d0, d0, d1, dn);
                    } else {
                        lemma_lasting_widen(x, env, vals[k], d0, d1, dn, dn);
                    }
                }
            }
            i = i + 1;
        }
    }

    /// Type-check each argument, ignoring its type.
    fn check_args_only(&mut self, args: &Vec<CallArg>, locals: &mut ScopedLocals<LocalInfo>)
        requires
            old(self).well_formed(),
        ensures
            Self::body_frame(*old(self), *final(self)),
            final(locals).scopes() == old(locals).scopes(),
            forall|k: int|
                0 <= k < arg_values(args@).len() ==> lasting_reports(
                    ctx_of(*old(self)),
                    env_of(*old(locals)),
                    #[trigger] arg_values(args@)[k],
                    old(self).diagnostics.diagnostics@,
                    final(self).diagnostics.diagnostics@,
                ),
        decreases args, 0nat,
    {
        let ghost s0 = *self;
        let ghost x = ctx_of(*self);
        let ghost env = env_of(*locals);
        let ghost vals = arg_values(args@);
        proof {
            lemma_body_frame_refl(s0);
        }
        let mut i: usize = 0;
        while i < args.len()
            invariant
                i <= args@.len(),
                Self::body_frame(s0, *self),
                locals.scopes() == old(locals).scopes(),
                x == ctx_of(s0),
                env == env_of(*old(locals)),
                vals == arg_values(args@),
                vals.len() == args@.len(),
                forall|k: int|
                    0 <= k < i ==> lasting_reports(
                        x,
                        env,
                        #[trigger] vals[k],
                        s0.diagnostics.diagnostics@,
                        self.diagnostics.diagnostics@,
                    ),
            decreases args@.len() - i,
        {
            let ghost s1 = *self;
            self.check_expr(&args[i].value, locals);
            proof {
                lemma_body_frame_trans(s0, s1, *self);
                let d0 = s0.diagnostics.diagnostics@;
                let d1 = s1.diagnostics.diagnostics@;
                let dn = self.diagnostics.diagnostics@;
                assert(vals[i as int] == args@[i as int].value);
                assert forall|k: int| 0 <= k < i + 1 implies lasting_reports(x, env, #[trigger] vals[k], d0, dn) by {
                    if k < i {
                        lemma_lasting_widen(x, env, vals[k], d0, d0, d1, dn);
                    } else {
                        lemma_lasting_widen(x, env, vals[k], d0, d1, dn, dn);
                    }
                }
            }
            i = i + 1;
        }
    }

    /// Check the arguments of a call against the parameters of `sig` after
    /// the first `skip` (the receiver of a method): each argument is matched
    /// to a parameter, checked against its type, and every required parameter
    /// left without an argument is reported, in order.  A call with more
    /// leading positional arguments than parameters is reported once, and
    /// checking stops there.
    pub fn check_call_args(
        &mut self,
        call_span: Span,
        sig: &FunctionSig,
        args: &Vec<CallArg>,
        locals: &mut ScopedLocals<LocalInfo>,
        skip: usize,
    ) -> (t: TypeId)
        requires
            old(self).well_formed(),
        ensures
            Self::body_frame(*old(self), *final(self)),
            final(locals).scopes() == old(locals).scopes(),
            t == sig.return_type,
            call_args_reported(final(self).diagnostics.diagnostics@, *sig, skip, call_span, args@),
            exists|m: ArgMatch|
                is_arg_match(callable_names(*sig, skip), callable_defaults(*sig, skip), arg_names_view(args@), m)
                    && call_arg_reports(
                    ctx_of(*old(self)),
                    env_of(*old(locals)),
                    *sig,
                    skip,
                    call_span,
                    args@,
                    m,
                    old(self).diagnostics.diagnostics@,
                    final(self).diagnostics.diagnostics@,
                ),
            call_fits(ctx_of(*old(self)), env_of(*old(locals)), *sig, skip, args@) && (forall|a: int|
                0 <= a < args@.len() ==> clean(ctx_of(*old(self)), env_of(*old(locals)), #[trigger] args@[a].value))
                ==> final(self).diagnostics == old(self).diagnostics,
        decreases args, 1nat,
    {
        let ghost s0 = *self;
        let ghost x = ctx_of(*self);
        let ghost env = env_of(*locals);
        let ghost fits = call_fits(x, env, *sig, skip, args@) && (forall|a: int|
            0 <= a < args@.len() ==> clean(x, env, #[trigger] args@[a].value));
        proof {
            lemma_body_frame_refl(s0);
        }
        let total = sig.params.len();
        let start = if skip < total {
            skip
        } else {
            total
        };
        let mut names: Vec<String> = Vec::new();
        let mut types: Vec<TypeId> = Vec::new();
        let mut defaults: Vec<bool> = Vec::new();
        let mut j: usize = start;
        while j < total
            invariant
                start <= j <= total,
                total == sig.params@.len(),
                start == callable_start(*sig, skip),
                names@.len() == j - start,
                defaults@.len() == j - start,
                types@.len() == j - start,
                names@.map_values(|n: String| n@) == callable_names(*sig, skip).take(j - start),
                defaults@ == callable_defaults(*sig, skip).take(j - start),
                forall|k: int| 0 <= k < j - start ==> #[trigger] names@[k] == sig.params@[start + k].0,
                forall|k: int| 0 <= k < j - start ==> #[trigger] types@[k] == sig.params@[start + k].1,
            decreases total - j,
        {
            let nm = sig.params[j].0.clone();
            let ghost before = names@;
            names.push(nm);
            assert(names@.map_values(|n: String| n@) =~= before.map_values(|n: String| n@).push(nm@));
            assert(names@.map_values(|n: String| n@) =~= callable_names(*sig, skip).take(j - start + 1));
            types.push(sig.params[j].1);
            let d = if j < sig.has_default.len() {
                sig.has_default[j]
            } else {
                false
            };
            defaults.push(d);
            assert(defaults@ =~= callable_defaults(*sig, skip).take(j - start + 1));
            j = j + 1;
        }
        assert(callable_names(*sig, skip).take(total - start) =~= callable_names(*sig, skip));
        assert(callable_defaults(*sig, skip).take(total - start) =~= callable_defaults(*sig, skip));
        let mut arg_names: Vec<Option<String>> = Vec::new();
        let mut a: usize = 0;
        while a < args.len()
            invariant
                a <= args@.len(),
                arg_names@.len() == a,
                arg_names@.map_values(|o: Option<String>| name_view(o)) == arg_names_view(args@).take(
                    a as int,
                ),
            decreases args@.len() - a,
        {
            let nm = match &args[a].name {
                Some(s) => Some(s.clone()),
                None => None,
            };
            let ghost before = arg_names@;
            arg_names.push(nm);
            assert(arg_names@.map_values(|o: Option<String>| name_view(o)) =~= before.map_values(
                |o: Option<String>| name_view(o),
            ).push(name_view(nm)));
            assert(arg_names@.map_values(|o: Option<String>| name_view(o)) =~= arg_names_view(
                args@,
            ).take(a + 1));
            a = a + 1;
        }
        assert(arg_names_view(args@).take(args@.len() as int) =~= arg_names_view(args@));
        let m: ArgMatch = match_call_args(&names, &defaults, &arg_names);
        proof {
            lemma_first_named_bound(arg_names_view(args@));
        }
        let n = types.len();
        let mut i: usize = 0;
        while i < args.len()
            invariant
                i <= args@.len(),
                n == types@.len(),
                n == names@.len(),
                s0 == *old(self),
                Self::body_frame(s0, *self),
                locals.scopes() == old(locals).scopes(),
                is_arg_match(callable_names(*sig, skip), callable_defaults(*sig, skip), arg_names_view(args@), m),
                n == callable_names(*sig, skip).len(),
                first_named(arg_names_view(args@)) <= args@.len(),
                m.overflow_at matches Some(o) ==> i <= o,
                x == ctx_of(s0),
                env == env_of(*old(locals)),
                start == callable_start(*sig, skip),
                fits == (call_fits(x, env, *sig, skip, args@) && (forall|a: int|
                    0 <= a < args@.len() ==> clean(x, env, #[trigger] args@[a].value))),
                fits ==> self.diagnostics == s0.diagnostics,
                forall|k: int| 0 <= k < n ==> #[trigger] types@[k] == sig.params@[start + k].1,
                forall|a: int|
                    0 <= a < i ==> #[trigger] arg_reported(
                        x,
                        env,
                        *sig,
                        skip,
                        call_span,
                        args@,
                        m,
                        a,
                        s0.diagnostics.diagnostics@,
                        self.diagnostics.diagnostics@,
                    ),
            decreases args@.len() - i,
        {
            let ghost s1 = *self;
            proof {
                if fits {
                    assert(arg_fits(x, env, *sig, skip, args@, m, i as int));
                    assert(clean(x, env, args@[i as int].value));
                }
            }
            if m.overflow_at == Some(i) {
                self.report(
                    CheckerDiagnostic::ArgumentCountMismatch {
                        span: call_span,
                        expected: to_decimal(n),
                        found: to_decimal(args.len()),
                    },
                );
                proof {
                    lemma_body_frame_trans(s0, s1, *self);
                    reveal(call_args_reported);
                    assert(call_diags_end(self.diagnostics.diagnostics@, *sig, skip, call_span, m, args@.len()));
                    let d0 = s0.diagnostics.diagnostics@;
                    let d1 = s1.diagnostics.diagnostics@;
                    let dn = self.diagnostics.diagnostics@;
                    assert(dn[dn.len() - 1] == dn.last());
                    assert(count_appended(d0, dn, call_span, n as nat, args@.len()));
                    assert forall|a: int| 0 <= a < i implies #[trigger] arg_reported(
                        x,
                        env,
                        *sig,
                        skip,
                        call_span,
                        args@,
                        m,
                        a,
                        d0,
                        dn,
                    ) by {
                        lemma_arg_reported_widen(x, env, *sig, skip, call_span, args@, m, a, d0, d0, d1, dn);
                    }
                    assert forall|a: int| 0 <= a < args@.len() && (m.overflow_at matches Some(o) ==> a < o) implies #[trigger] arg_slot_reported(
                        x,
                        env,
                        *sig,
                        skip,
                        call_span,
                        args@,
                        m,
                        a,
                        d0,
                        dn,
                    ) by {
                        assert(arg_reported(x, env, *sig, skip, call_span, args@, m, a, d0, dn));
                    }
                    assert(call_arg_reports(x, env, *sig, skip, call_span, args@, m, d0, dn));
                }
                return sig.return_type;
            }
            let slot = if i < m.slots.len() {
                m.slots[i]
            } else {
                None
            };
            match slot {
                Some(p) if p < n => {
                    let param_ty = types[p];
                    let arg_ty = self.check_expr(&args[i].value, locals);
                    let ghost s2 = *self;
                    let coercible = is_unsuffixed_int_literal(&args[i].value.node)
                        && self.types.is_integer_type(param_ty);
                    if arg_ty != param_ty && arg_ty != TypeId(ERROR_ID) && param_ty != TypeId(
                        ERROR_ID,
                    ) && !coercible {
                        self.report_mismatch(args[i].value.span, param_ty, arg_ty);
                        proof {
                            let dn = self.diagnostics.diagnostics@;
                            assert(dn[dn.len() - 1] == dn.last());
                            assert(mismatch_appended(
                                s1.diagnostics.diagnostics@,
                                dn,
                                args@[i as int].value.span,
                                ty_name(x, param_ty),
                                ty_name(x, arg_ty),
                            ));
                        }
                    }
                    proof {
                        lemma_body_frame_trans(s1, s2, *self);
                        let d0 = s0.diagnostics.diagnostics@;
                        let d1 = s1.diagnostics.diagnostics@;
                        let d2 = s2.diagnostics.diagnostics@;
                        let dn = self.diagnostics.diagnostics@;
                        assert(types@[p as int] == sig.params@[start + p].1);
                        lemma_lasting_widen(x, env, args@[i as int].value, d1, d1, d2, dn);
                        assert(arg_reported(x, env, *sig, skip, call_span, args@, m, i as int, d1, dn));
                    }
                },
                _ => {
                    self.check_expr(&args[i].value, locals);
                    let ghost s2 = *self;
                    match &args[i].name {
                        Some(nm) => {
                            self.report(
                                CheckerDiagnostic::UnknownParameterName {
                                    span: args[i].value.span,
                                    name: nm.clone(),
                                },
                            );
                        },
                        None => {
                            self.report(
                                CheckerDiagnostic::ArgumentCountMismatch {
                                    span: call_span,
                                    expected: to_decimal(n),
                                    found: to_decimal(args.len()),
                                },
                            );
                        },
                    }
                    proof {
                        lemma_body_frame_trans(s1, s2, *self);
                        let d1 = s1.diagnostics.diagnostics@;
                        let d2 = s2.diagnostics.diagnostics@;
                        let dn = self.diagnostics.diagnostics@;
                        assert(dn[dn.len() - 1] == dn.last());
                        lemma_lasting_widen(x, env, args@[i as int].value, d1, d1, d2, dn);
                        assert(arg_reported(x, env, *sig, skip, call_span, args@, m, i as int, d1, dn));
                    }
                },
            }
            proof {
                lemma_body_frame_trans(s0, s1, *self);
                let d0 = s0.diagnostics.diagnostics@;
                let d1 = s1.diagnostics.diagnostics@;
                let dn = self.diagnostics.diagnostics@;
                assert forall|a: int| 0 <= a < i + 1 implies #[trigger] arg_reported(
                    x,
                    env,
                    *sig,
                    skip,
                    call_span,
                    args@,
                    m,
                    a,
                    d0,
                    dn,
                ) by {
                    if a < i {
                        lemma_arg_reported_widen(x, env, *sig, skip, call_span, args@, m, a, d0, d0, d1, dn);
                    } else {
                        lemma_arg_reported_widen(x, env, *sig, skip, call_span, args@, m, a, d0, d1, dn, dn);
                    }
                }
            }
            i = i + 1;
        }
        let ghost d_args = self.diagnostics.diagnostics@;
        let mut q: usize = 0;
        while q < m.missing.len()
            invariant
                q <= m.missing@.len(),
                n == names@.len(),
                n == callable_names(*sig, skip).len(),
                start == callable_start(*sig, skip),
                forall|k: int| 0 <= k < n ==> #[trigger] names@[k] == sig.params@[start + k].0,
                m.overflow_at is None,
                is_arg_match(callable_names(*sig, skip), callable_defaults(*sig, skip), arg_names_view(args@), m),
                Self::body_frame(s0, *self),
                locals.scopes() == old(locals).scopes(),
                self.diagnostics.diagnostics@ == d_args + missing_diags(
                    *sig,
                    skip,
                    call_span,
                    m.missing@.take(q as int),
                ),
                fits ==> m.missing@.len() == 0 && self.diagnostics == s0.diagnostics,
                forall|a: int|
                    0 <= a < args@.len() ==> #[trigger] arg_reported(
                        x,
                        env,
                        *sig,
                        skip,
                        call_span,
                        args@,
                        m,
                        a,
                        s0.diagnostics.diagnostics@,
                        d_args,
                    ),
            decreases m.missing@.len() - q,
        {
            let p = m.missing[q];
            assert(p < n);
            let ghost s1 = *self;
            self.report(
                CheckerDiagnostic::MissingRequiredArgument {
                    span: call_span,
                    name: names[p].clone(),
                },
            );
            proof {
                lemma_body_frame_trans(s0, s1, *self);
                assert(m.missing@.take(q + 1) =~= m.missing@.take(q as int).push(p));
                assert(missing_diags(*sig, skip, call_span, m.missing@.take(q + 1))
                    =~= missing_diags(*sig, skip, call_span, m.missing@.take(q as int)).push(
                    CheckerDiagnostic::MissingRequiredArgument {
                        span: call_span,
                        name: sig.params@[start + p].0,
                    },
                ));
                assert(self.diagnostics.diagnostics@ =~= d_args + missing_diags(
                    *sig,
                    skip,
                    call_span,
                    m.missing@.take(q + 1),
                ));
            }
            q = q + 1;
        }
        proof {
            assert(m.missing@.take(m.missing@.len() as int) =~= m.missing@);
            let d = self.diagnostics.diagnostics@;
            let md = missing_diags(*sig, skip, call_span, m.missing@);
            assert(d.subrange(d.len() - md.len(), d.len() as int) =~= md);
            reveal(call_args_reported);
            assert(call_diags_end(d, *sig, skip, call_span, m, args@.len()));
            let d0 = s0.diagnostics.diagnostics@;
            assert forall|a: int| 0 <= a < args@.len() implies #[trigger] arg_reported(
                x,
                env,
                *sig,
                skip,
                call_span,
                args@,
                m,
                a,
                d0,
                d,
            ) by {
                lemma_arg_reported_widen(x, env, *sig, skip, call_span, args@, m, a, d0, d0, d_args, d);
            }
            assert forall|a: int| 0 <= a < args@.len() && (m.overflow_at matches Some(o) ==> a < o) implies #[trigger] arg_slot_reported(
                x,
                env,
                *sig,
                skip,
                call_span,
                args@,
                m,
                a,
                d0,
                d,
            ) by {
                assert(arg_reported(x, env, *sig, skip, call_span, args@, m, a, d0, d));
            }
            assert(call_arg_reports(x, env, *sig, skip, call_span, args@, m, d0, d));
        }
        sig.return_type
    }
}

impl Checker {
    /// Type-check an expression with the given locals, report what is wrong
    /// with it, and return its type.
    pub fn check_expr(&mut self, e: &SpannedExpr, locals: &mut ScopedLocals<LocalInfo>) -> (t: TypeId)
        requires
            old(self).well_formed(),
        ensures
            Self::body_frame(*old(self), *final(self)),
            final(locals).scopes() == old(locals).scopes(),
            t == expr_ty(ctx_of(*old(self)), env_of(*old(locals)), *e),
            e.node is Literal && !(e.node->Literal_0 is TemplateString) ==> final(self).diagnostics
                == old(self).diagnostics,
            clean(ctx_of(*old(self)), env_of(*old(locals)), *e) ==> final(self).diagnostics
                == old(self).diagnostics,
            operation_reports(
                ctx_of(*old(self)),
                env_of(*old(locals)),
                *e,
                old(self).diagnostics.diagnostics@,
                final(self).diagnostics.diagnostics@,
            ),
            lone_if_checked(
                ctx_of(*old(self)),
                env_of(*old(locals)),
                *e,
                old(self).diagnostics.diagnostics@,
                final(self).diagnostics.diagnostics@,
            ),
            e.node is Ident ==> ident_reported(
                old(self).diagnostics.diagnostics@,
                final(self).diagnostics.diagnostics@,
                e.span,
                e.node->Ident_0@,
                env_of(*old(locals)).dom().contains(e.node->Ident_0@) || scope_get(
                    old(self).structs@,
                    e.node->Ident_0@,
                ) is Some,
            ),
            own_report(
                ctx_of(*old(self)),
                env_of(*old(locals)),
                *e,
                final(self).diagnostics.diagnostics@.last(),
            ),
            reports_of(
                ctx_of(*old(self)),
                env_of(*old(locals)),
                *e,
                old(self).current_return_type,
                old(self).diagnostics.diagnostics@,
                final(self).diagnostics.diagnostics@,
            ),
        decreases e, 2nat,
    {
        let ghost s0 = *self;
        proof {
            lemma_body_frame_refl(s0);
        }
        match &e.node {
            Expr::Literal(l) => match l {
                Literal::String(_) => TypeId(13),
                Literal::TemplateString { exprs, .. } => {
                    self.check_exprs_only(exprs, locals);
                    TypeId(13)
                },
                Literal::Int(_, Some(suffix)) => match suffix {
                    IntSuffix::I8 => TypeId(1),
                    IntSuffix::I16 => TypeId(2),
                    IntSuffix::I32 => TypeId(3),
                    IntSuffix::I64 => TypeId(4),
                    IntSuffix::U8 => TypeId(5),
                    IntSuffix::U16 => TypeId(6),
                    IntSuffix::U32 => TypeId(7),
                    IntSuffix::U64 => TypeId(8),
                },
                Literal::Int(_, None) => TypeId(3),
                Literal::Bool(_) => TypeId(11),
                Literal::Char(_) => TypeId(12),
            },
            Expr::Ident(name) => {
                match locals.get(name.as_str()) {
                    Some(info) => info.ty,
                    None => match find_binding(&self.structs, name) {
                        Some(i) => self.structs[i].1,
                        None => {
                            let n = name.clone();
                            proof {
                                assert(!env_of(*old(locals)).dom().contains(name@));
                            }
                            self.report(CheckerDiagnostic::UndefinedVariable { span: e.span, name: n });
                            proof {
                                let d = self.diagnostics.diagnostics@;
                                assert(d.drop_last() =~= s0.diagnostics.diagnostics@);
                            }
                            TypeId(ERROR_ID)
                        },
                    },
                }
            },
            Expr::Call { .. } => self.check_call_expr(e, locals),
            Expr::MethodCall { object, method, args } => {
                let obj_ty = self.check_expr(object, locals);
                let ghost s1 = *self;
                if obj_ty == TypeId(ERROR_ID) {
                    self.check_args_only(args, locals);
                    proof {
                        lemma_body_frame_trans(s0, s1, *self);
                    }
                    return TypeId(ERROR_ID);
                }
                let shown = self.types.display_name(obj_ty);
                let key = mangle(&shown, method);
                let found = match self.functions.get_by_key(&key) {
                    Some(sig) => Some(sig.duplicate()),
                    None => None,
                };
                match found {
                    Some(sig) => {
                        if sig.is_mut_method {
                            if let Expr::Ident(var) = &object.node {
                                let immutable = match locals.get(var.as_str()) {
                                    Some(info) => !info.is_mut,
                                    None => false,
                                };
                                if immutable {
                                    self.report(
                                        CheckerDiagnostic::MutatingMethodOnImmutable {
                                            span: e.span,
                                            method: method.clone(),
                                        },
                                    );
                                }
                            }
                        }
                        let ghost s2 = *self;
                        let t = self.check_call_args(e.span, &sig, args, locals, 1);
                        proof {
                            lemma_body_frame_trans(s1, s2, *self);
                            lemma_body_frame_trans(s0, s1, *self);
                        }
                        t
                    },
                    None => {
                        self.report(
                            CheckerDiagnostic::UndefinedMethod {
                                span: e.span,
                                ty: shown,
                                method: method.clone(),
                            },
                        );
                        let ghost s2 = *self;
                        self.check_args_only(args, locals);
                        proof {
                            lemma_body_frame_trans(s1, s2, *self);
                            lemma_body_frame_trans(s0, s1, *self);
                        }
                        TypeId(ERROR_ID)
                    },
                }
            },
            Expr::StaticCall { owner, method, args } => {
                let et = match find_binding(&self.enums, owner) {
                    Some(i) => Some(self.enums[i].1),
                    None => None,
                };
                if let Some(et) = et {
                    if let Some(fts) = self.variant_field_types(et, method) {
                        self.check_variant_call_args(e.span, &fts, args, locals);
                        return et;
                    }
                }
                let key = mangle(owner, method);
                let found = match self.functions.get_by_key(&key) {
                    Some(sig) => Some(sig.duplicate()),
                    None => None,
                };
                match found {
                    Some(sig) => self.check_call_args(e.span, &sig, args, locals, 0),
                    None => {
                        self.report(CheckerDiagnostic::UndefinedFunction { span: e.span, name: key });
                        let ghost s1 = *self;
                        self.check_args_only(args, locals);
                        proof {
                            lemma_body_frame_trans(s0, s1, *self);
                        }
                        TypeId(ERROR_ID)
                    },
                }
            },
            Expr::Block(b) => self.check_block(b, locals),
            Expr::Return(_) => self.check_return(e, locals),
            Expr::Assign { .. } => self.check_assign(e, locals),
            Expr::If { .. } => self.check_if(e, locals),
            Expr::While { .. } => self.check_while(e, locals),
            Expr::Binary { .. } => self.check_binary(e, locals),
            Expr::Unary { .. } => self.check_unary(e, locals),
            Expr::FieldAccess { .. } => self.check_field_access(e, locals),
            Expr::Grouped(inner) => self.check_expr(inner, locals),
            Expr::StructLiteral { .. } => self.check_struct_literal(e, locals),
            Expr::EnumLiteral { .. } => self.check_enum_literal(e, locals),
            Expr::IfLet { .. } => self.check_if_let(e, locals),
            Expr::CompoundAssign { .. } => self.check_compound_assign(e, locals),
            Expr::Cast { .. } => self.check_cast(e, locals),
            Expr::Range { .. } => self.check_range(e, locals),
            Expr::IndexAccess { .. } => self.check_index(e, locals),
            Expr::QuestionMark(inner) => {
                let t = self.check_expr(inner, locals);
                self.unwrapped_type(t)
            },
            Expr::For { .. } => self.check_for(e, locals),
            Expr::Loop { body, .. } => {
                self.check_block(&body.node, locals);
                TypeId(0)
            },
            Expr::Break { value, .. } => {
                if let Some(v) = value {
                    self.check_expr(v, locals);
                }
                TypeId(17)
            },
            Expr::Continue { .. } => TypeId(17),
            Expr::Match { .. } => self.check_match(e, locals),
        }
    }

    /// The field types of a struct type, in order.
    fn field_types(&self, st: TypeId) -> (fts: Vec<TypeId>)
        requires
            self.types.kind(st) is Struct,
        ensures
            self.types.kind(st) matches crate::types::KindView::Struct { fields, .. } && fts@.len()
                == fields.len() && forall|i: int| 0 <= i < fields.len() ==> #[trigger] fts@[i] == fields[i].1,
    {
        let mut fts: Vec<TypeId> = Vec::new();
        match self.types.struct_fields(st) {
            Some(fs) => {
                let mut i: usize = 0;
                while i < fs.len()
                    invariant
                        i <= fs@.len(),
                        fts@.len() == i,
                        forall|j: int| 0 <= j < i ==> #[trigger] fts@[j] == fs@[j].1,
                    decreases fs@.len() - i,
                {
                    fts.push(fs[i].1);
                    i = i + 1;
                }
            },
            None => {},
        }
        fts
    }

    /// Report a condition that is not a `bool`.
    /// Type-check a `return`: its value against the function's return type (the first `return` fixes that type when none was declared).
    fn check_return(&mut self, e: &SpannedExpr, locals: &mut ScopedLocals<LocalInfo>) -> (t: TypeId)
        requires
            old(self).well_formed(),
            e.node is Return,
        ensures
            Self::body_frame(*old(self), *final(self)),
            final(locals).scopes() == old(locals).scopes(),
            t == expr_ty(ctx_of(*old(self)), env_of(*old(locals)), *e),
            reports_of(
                ctx_of(*old(self)),
                env_of(*old(locals)),
                *e,
                old(self).current_return_type,
                old(self).diagnostics.diagnostics@,
                final(self).diagnostics.diagnostics@,
            ),
        decreases e, 1nat,
    {
        let ghost s0 = *self;
        proof {
            lemma_body_frame_refl(s0);
        }
        let value = match &e.node {
            Expr::Return(value) => value,
            _ => {
                return TypeId(ERROR_ID);
            },
        };
        match value {
            Some(inner) => {
                let val_ty = self.check_expr(inner, locals);
                let ghost s1 = *self;
                match self.current_return_type {
                    Some(ret_ty) => {
                        if val_ty != ret_ty && val_ty != TypeId(ERROR_ID) && ret_ty != TypeId(
                            ERROR_ID,
                        ) {
                            let expected = self.types.display_name(ret_ty);
                            let found = self.types.display_name(val_ty);
                            self.report(
                                CheckerDiagnostic::ReturnTypeMismatch {
                                    span: inner.span,
                                    expected,
                                    found,
                                },
                            );
                        }
                    },
                    None => {
                        self.current_return_type = Some(val_ty);
                        proof {
                            lemma_body_frame_set_return(s1, *self);
                        }
                    },
                }
                proof {
                    lemma_body_frame_trans(s0, s1, *self);
                }
            },
            None => {
                if self.current_return_type.is_none() {
                    self.current_return_type = Some(TypeId(0));
                    proof {
                        lemma_body_frame_set_return(s0, *self);
                    }
                }
            },
        }
        TypeId(17)
    }

    /// Type-check an assignment: the value, then the place it is written to.
    fn check_assign(&mut self, e: &SpannedExpr, locals: &mut ScopedLocals<LocalInfo>) -> (t: TypeId)
        requires
            old(self).well_formed(),
            e.node is Assign,
        ensures
            Self::body_frame(*old(self), *final(self)),
            final(locals).scopes() == old(locals).scopes(),
            t == expr_ty(ctx_of(*old(self)), env_of(*old(locals)), *e),
            reports_of(
                ctx_of(*old(self)),
                env_of(*old(locals)),
                *e,
                old(self).current_return_type,
                old(self).diagnostics.diagnostics@,
                final(self).diagnostics.diagnostics@,
            ),
            clean(ctx_of(*old(self)), env_of(*old(locals)), *e) ==> final(self).diagnostics
                == old(self).diagnostics,
        decreases e, 1nat,
    {
        let ghost s0 = *self;
        proof {
            lemma_body_frame_refl(s0);
        }
        let (target, value) = match &e.node {
            Expr::Assign { target, value } => (target, value),
            _ => {
                return TypeId(ERROR_ID);
            },
        };
        let val_ty = self.check_expr(value, locals);
        let ghost s1 = *self;
        self.check_assign_target(target, value.span, val_ty, locals);
        proof {
            lemma_body_frame_trans(s0, s1, *self);
            lemma_appended_weaken(s0, s1, *self);
        }
        TypeId(0)
    }

    /// Type-check a call: of a function, against its signature; of a struct's
    /// name, as a constructor; of anything else, as an error.
    fn check_call_expr(&mut self, e: &SpannedExpr, locals: &mut ScopedLocals<LocalInfo>) -> (t: TypeId)
        requires
            old(self).well_formed(),
            e.node is Call,
        ensures
            Self::body_frame(*old(self), *final(self)),
            final(locals).scopes() == old(locals).scopes(),
            t == expr_ty(ctx_of(*old(self)), env_of(*old(locals)), *e),
            reports_of(
                ctx_of(*old(self)),
                env_of(*old(locals)),
                *e,
                old(self).current_return_type,
                old(self).diagnostics.diagnostics@,
                final(self).diagnostics.diagnostics@,
            ),
            clean(ctx_of(*old(self)), env_of(*old(locals)), *e) ==> final(self).diagnostics
                == old(self).diagnostics,
        decreases e, 1nat,
    {
        let ghost s0 = *self;
        proof {
            lemma_body_frame_refl(s0);
        }
        let (callee, args) = match &e.node {
            Expr::Call { callee, args } => (callee, args),
            _ => {
                return TypeId(ERROR_ID);
            },
        };
        match &callee.node {
            Expr::Ident(name) => {
                let found = match self.functions.get_by_key(name) {
                    Some(sig) => Some(sig.duplicate()),
                    None => None,
                };
                match found {
                    Some(sig) => {
                        let ghost orig = s0.functions.lookup(name@).unwrap();
                        proof {
                            lemma_same_sig_fits(ctx_of(s0), env_of(*old(locals)), sig, orig, 0, args@);
                        }
                        let t = self.check_call_args(e.span, &sig, args, locals, 0);
                        proof {
                            let x = ctx_of(s0);
                            let env = env_of(*old(locals));
                            let d0 = s0.diagnostics.diagnostics@;
                            let dn = self.diagnostics.diagnostics@;
                            let m = choose|m: ArgMatch|
                                is_arg_match(
                                    callable_names(sig, 0),
                                    callable_defaults(sig, 0),
                                    arg_names_view(args@),
                                    m,
                                ) && call_arg_reports(x, env, sig, 0, e.span, args@, m, d0, dn);
                            lemma_same_sig_slots(x, env, sig, orig, 0, e.span, args@, m, d0, dn);
                        }
                        t
                    },
                    None => {
                        let st = match find_binding(&self.structs, name) {
                            Some(i) => Some(self.structs[i].1),
                            None => None,
                        };
                        match st {
                            Some(st) if self.types.is_struct(st) => {
                                let fts = self.field_types(st);
                                self.check_ctor_args(&fts, args, locals);
                                st
                            },
                            _ => {
                                self.report(
                                    CheckerDiagnostic::UndefinedFunction {
                                        span: callee.span,
                                        name: name.clone(),
                                    },
                                );
                                proof {
                                    let d = self.diagnostics.diagnostics@;
                                    let i = s0.diagnostics.diagnostics@.len() as int;
                                    assert(d[i] matches CheckerDiagnostic::UndefinedFunction { span: sp, name: n } && sp
                                        == callee.span && n@ == name@);
                                    assert(undefined_fn_appended(s0.diagnostics.diagnostics@, d, callee.span, name@));
                                }
                                let ghost s1 = *self;
                                self.check_args_only(args, locals);
                                proof {
                                    lemma_body_frame_trans(s0, s1, *self);
                                    lemma_appended_kept(s0, s1, *self);
                                }
                                TypeId(ERROR_ID)
                            },
                        }
                    },
                }
            },
            _ => {
                self.check_expr(callee, locals);
                let ghost s1 = *self;
                self.check_args_only(args, locals);
                proof {
                    lemma_body_frame_trans(s0, s1, *self);
                }
                TypeId(ERROR_ID)
            },
        }
    }

    /// Type-check an `if`: the condition must be a `bool`; with an `else`, both branches must have one type.
    fn check_if(&mut self, e: &SpannedExpr, locals: &mut ScopedLocals<LocalInfo>) -> (t: TypeId)
        requires
            old(self).well_formed(),
            e.node is If,
        ensures
            Self::body_frame(*old(self), *final(self)),
            final(locals).scopes() == old(locals).scopes(),
            t == expr_ty(ctx_of(*old(self)), env_of(*old(locals)), *e),
            reports_of(
                ctx_of(*old(self)),
                env_of(*old(locals)),
                *e,
                old(self).current_return_type,
                old(self).diagnostics.diagnostics@,
                final(self).diagnostics.diagnostics@,
            ),
            own_report(
                ctx_of(*old(self)),
                env_of(*old(locals)),
                *e,
                final(self).diagnostics.diagnostics@.last(),
            ),
            lone_if_checked(
                ctx_of(*old(self)),
                env_of(*old(locals)),
                *e,
                old(self).diagnostics.diagnostics@,
                final(self).diagnostics.diagnostics@,
            ),
        decreases e, 1nat,
    {
        let ghost s0 = *self;
        proof {
            lemma_body_frame_refl(s0);
        }
        let (condition, then_branch, else_branch) = match &e.node {
            Expr::If { condition, then_branch, else_branch } => (condition, then_branch, else_branch),
            _ => {
                return TypeId(ERROR_ID);
            },
        };
        self.check_condition(condition, locals);
        let ghost s1 = *self;
        let then_ty = self.check_block(&then_branch.node, locals);
        let ghost s2 = *self;
        proof {
            lemma_body_frame_trans(s0, s1, s2);
            lemma_appended_kept(s0, s1, s2);
        }
        match else_branch {
            Some(else_expr) => {
                let else_ty = self.check_expr(else_expr, locals);
                let ghost s3 = *self;
                if then_ty != else_ty && then_ty != TypeId(ERROR_ID) && else_ty != TypeId(
                    ERROR_ID,
                ) {
                    self.report_mismatch(else_expr.span, then_ty, else_ty);
                }
                proof {
                    lemma_body_frame_trans(s2, s3, *self);
                    lemma_body_frame_trans(s0, s2, *self);
                    lemma_appended_kept(s0, s2, *self);
                }
                then_ty
            },
            None => TypeId(0),
        }
    }

    /// Type-check a `while`: the condition must be a `bool`; the body is checked in a scope of its own.
    fn check_while(&mut self, e: &SpannedExpr, locals: &mut ScopedLocals<LocalInfo>) -> (t: TypeId)
        requires
            old(self).well_formed(),
            e.node is While,
        ensures
            Self::body_frame(*old(self), *final(self)),
            final(locals).scopes() == old(locals).scopes(),
            t == expr_ty(ctx_of(*old(self)), env_of(*old(locals)), *e),
            reports_of(
                ctx_of(*old(self)),
                env_of(*old(locals)),
                *e,
                old(self).current_return_type,
                old(self).diagnostics.diagnostics@,
                final(self).diagnostics.diagnostics@,
            ),
        decreases e, 1nat,
    {
        let ghost s0 = *self;
        proof {
            lemma_body_frame_refl(s0);
        }
        let (condition, body) = match &e.node {
            Expr::While { condition, body, .. } => (condition, body),
            _ => {
                return TypeId(ERROR_ID);
            },
        };
        self.check_condition(condition, locals);
        let ghost s1 = *self;
        self.check_block(&body.node, locals);
        proof {
            lemma_body_frame_trans(s0, s1, *self);
            lemma_appended_kept(s0, s1, *self);
        }
        TypeId(0)
    }

    fn check_condition(&mut self, condition: &SpannedExpr, locals: &mut ScopedLocals<LocalInfo>)
        requires
            old(self).well_formed(),
        ensures
            Self::body_frame(*old(self), *final(self)),
            final(locals).scopes() == old(locals).scopes(),
            condition_reported(
                ctx_of(*old(self)),
                env_of(*old(locals)),
                *condition,
                old(self).diagnostics.diagnostics@,
                final(self).diagnostics.diagnostics@,
            ),
            clean(ctx_of(*old(self)), env_of(*old(locals)), *condition) ==> lone_if_reports(
                ctx_of(*old(self)),
                env_of(*old(locals)),
                *condition,
                old(self).diagnostics.diagnostics@,
                final(self).diagnostics.diagnostics@,
            ),
        decreases condition, 3nat,
    {
        let cond_ty = self.check_expr(condition, locals);
        let ghost s1 = *self;
        if cond_ty != TypeId(11) && cond_ty != TypeId(ERROR_ID) {
            let found = self.types.display_name(cond_ty);
            self.report(
                CheckerDiagnostic::TypeMismatch {
                    span: condition.span,
                    expected: String::from_str("bool"),
                    found,
                },
            );
            proof {
                lemma_body_frame_trans(*old(self), s1, *self);
                let d = self.diagnostics.diagnostics@;
                assert(mismatch_report(d[d.len() - 1], condition.span, "bool"@, ty_name(ctx_of(*old(self)), cond_ty)));
            }
        }
    }

    /// Check the place an assignment writes to, given the type of the value.
    fn check_assign_target(
        &mut self,
        target: &SpannedExpr,
        value_span: Span,
        val_ty: TypeId,
        locals: &mut ScopedLocals<LocalInfo>,
    )
        requires
            old(self).well_formed(),
        ensures
            Self::body_frame(*old(self), *final(self)),
            final(locals).scopes() == old(locals).scopes(),
            target.node is Ident ==> if env_of(*old(locals)).dom().contains(target.node->Ident_0@) {
                !env_of(*old(locals))[target.node->Ident_0@].is_mut ==> immutable_appended(
                    old(self).diagnostics.diagnostics@,
                    final(self).diagnostics.diagnostics@,
                    target.span,
                    target.node->Ident_0@,
                )
            } else {
                undefined_appended(
                    old(self).diagnostics.diagnostics@,
                    final(self).diagnostics.diagnostics@,
                    target.span,
                    target.node->Ident_0@,
                )
            },
            (target.node is Ident && env_of(*old(locals)).dom().contains(target.node->Ident_0@) && env_of(
                *old(locals),
            )[target.node->Ident_0@].is_mut && (val_ty == env_of(*old(locals))[target.node->Ident_0@].ty || val_ty
                == TypeId(ERROR_ID) || env_of(*old(locals))[target.node->Ident_0@].ty == TypeId(ERROR_ID)))
                ==> final(self).diagnostics == old(self).diagnostics,
        decreases target, 3nat,
    {
        let ghost s0 = *self;
        proof {
            lemma_body_frame_refl(s0);
        }
        match &target.node {
            Expr::Ident(name) => {
                let found = match locals.get(name.as_str()) {
                    Some(info) => Some(*info),
                    None => None,
                };
                match found {
                    Some(info) => {
                        if !info.is_mut {
                            self.report(
                                CheckerDiagnostic::ImmutableAssignment {
                                    span: target.span,
                                    name: name.clone(),
                                },
                            );
                            proof {
                                let d = self.diagnostics.diagnostics@;
                                let i = s0.diagnostics.diagnostics@.len() as int;
                                assert(d[i] matches CheckerDiagnostic::ImmutableAssignment { span: sp, name: n } && sp
                                    == target.span && n@ == name@);
                                assert(immutable_appended(s0.diagnostics.diagnostics@, d, target.span, name@));
                            }
                        }
                        let ghost s1 = *self;
                        if val_ty != info.ty && val_ty != TypeId(ERROR_ID) && info.ty != TypeId(
                            ERROR_ID,
                        ) {
                            self.report_mismatch(value_span, info.ty, val_ty);
                        }
                        proof {
                            lemma_body_frame_trans(s0, s1, *self);
                            lemma_appended_kept(s0, s1, *self);
                        }
                    },
                    None => {
                        self.report(
                            CheckerDiagnostic::UndefinedVariable { span: target.span, name: name.clone() },
                        );
                        proof {
                            let d = self.diagnostics.diagnostics@;
                            let i = s0.diagnostics.diagnostics@.len() as int;
                            assert(d[i] matches CheckerDiagnostic::UndefinedVariable { span: sp, name: n } && sp
                                == target.span && n@ == name@);
                            assert(undefined_appended(s0.diagnostics.diagnostics@, d, target.span, name@));
                        }
                    },
                }
            },
            Expr::FieldAccess { object, field } => {
                let obj_ty = self.check_expr(object, locals);
                let ghost s1 = *self;
                if obj_ty != TypeId(ERROR_ID) {
                    let (sname, fty) = match self.types.resolve(obj_ty) {
                        TypeKind::Struct { name, fields, .. } => match field_index(fields, field) {
                            Some(j) => (Some(name.clone()), Some(fields[j].1)),
                            None => (Some(name.clone()), None),
                        },
                        _ => (None, None),
                    };
                    match (sname, fty) {
                        (_, Some(ft)) => {
                            if val_ty != ft && val_ty != TypeId(ERROR_ID) && ft != TypeId(ERROR_ID) {
                                self.report_mismatch(value_span, ft, val_ty);
                            }
                        },
                        (Some(sn), None) => {
                            self.report(
                                CheckerDiagnostic::UnknownField {
                                    span: target.span,
                                    name: sn,
                                    field: field.clone(),
                                },
                            );
                        },
                        (None, None) => {
                            let tn = self.types.display_name(obj_ty);
                            self.report(
                                CheckerDiagnostic::FieldAccessOnNonStruct { span: target.span, ty: tn },
                            );
                        },
                    }
                }
                proof {
                    lemma_body_frame_trans(s0, s1, *self);
                }
            },
            Expr::IndexAccess { object, index } => {
                let ot = self.check_expr(object, locals);
                let ghost s1 = *self;
                let it = self.check_expr(index, locals);
                let ghost s2 = *self;
                proof {
                    lemma_body_frame_trans(s0, s1, s2);
                }
                if ot != TypeId(ERROR_ID) && it != TypeId(ERROR_ID) {
                    if !self.types.is_integer_type(it) {
                        let ty = self.types.display_name(it);
                        self.report(
                            CheckerDiagnostic::InvalidOperatorType { span: index.span, op: String::from_str("index"), ty },
                        );
                    }
                    let ghost s3 = *self;
                    proof {
                        if kind_is_integer(s2.types.kind(it)) {
                            lemma_body_frame_refl(s2);
                        }
                    }
                    let ty = self.types.display_name(ot);
                    self.report(
                        CheckerDiagnostic::InvalidOperatorType { span: target.span, op: String::from_str("index"), ty },
                    );
                    proof {
                        lemma_body_frame_trans(s2, s3, *self);
                        lemma_body_frame_trans(s0, s2, *self);
                    }
                }
            },
            _ => {},
        }
    }

    /// Check a struct literal: its name, each field value against the
    /// declared field type, fields it does not declare and fields it leaves
    /// out.
    fn check_struct_literal(&mut self, e: &SpannedExpr, locals: &mut ScopedLocals<LocalInfo>) -> (t: TypeId)
        requires
            old(self).well_formed(),
            e.node is StructLiteral,
        ensures
            Self::body_frame(*old(self), *final(self)),
            final(locals).scopes() == old(locals).scopes(),
            t == expr_ty(ctx_of(*old(self)), env_of(*old(locals)), *e),
        decreases e, 1nat,
    {
        let ghost s0 = *self;
        proof {
            lemma_body_frame_refl(s0);
        }
        let (name, fields) = match &e.node {
            Expr::StructLiteral { name, fields } => (name, fields),
            _ => {
                return TypeId(ERROR_ID);
            },
        };
        let st = match find_binding(&self.structs, name) {
            Some(i) => self.structs[i].1,
            None => {
                self.report(CheckerDiagnostic::UndefinedStruct { span: e.span, name: name.clone() });
                return TypeId(ERROR_ID);
            },
        };
        let expected: Vec<(String, TypeId)> = match self.types.resolve(st) {
            TypeKind::Struct { fields: fs, .. } => copy_fields(fs),
            _ => {
                return TypeId(ERROR_ID);
            },
        };
        let ghost s1 = *self;
        self.check_field_values(name, &expected, fields, locals);
        proof {
            lemma_body_frame_trans(s0, s1, *self);
        }
        let mut k: usize = 0;
        while k < expected.len()
            invariant
                k <= expected@.len(),
                Self::body_frame(s0, *self),
                locals.scopes() == old(locals).scopes(),
            decreases expected@.len() - k,
        {
            let en = &expected[k].0;
            let mut present = false;
            let mut m: usize = 0;
            while m < fields.len()
                invariant
                    m <= fields@.len(),
                decreases fields@.len() - m,
            {
                if fields[m].0 == *en {
                    present = true;
                }
                m = m + 1;
            }
            if !present {
                let ghost s1 = *self;
                self.report(
                    CheckerDiagnostic::MissingField { span: e.span, name: name.clone(), field: en.clone() },
                );
                proof {
                    lemma_body_frame_trans(s0, s1, *self);
                }
            }
            k = k + 1;
        }
        st
    }

    /// Check the arguments of a tuple-struct constructor against its field
    /// types, by position.
    pub(crate) fn check_ctor_args(&mut self, fts: &Vec<TypeId>, args: &Vec<CallArg>, locals: &mut ScopedLocals<LocalInfo>)
        requires
            old(self).well_formed(),
        ensures
            Self::body_frame(*old(self), *final(self)),
            final(locals).scopes() == old(locals).scopes(),
            values_reported(
                ctx_of(*old(self)),
                env_of(*old(locals)),
                fts@,
                arg_values(args@),
                old(self).diagnostics.diagnostics@,
                final(self).diagnostics.diagnostics@,
            ),
        decreases args, 0nat,
    {
        let ghost s0 = *self;
        let ghost x = ctx_of(*self);
        let ghost env = env_of(*locals);
        let ghost vals = arg_values(args@);
        proof {
            lemma_body_frame_refl(s0);
        }
        let mut i: usize = 0;
        while i < args.len()
            invariant
                i <= args@.len(),
                Self::body_frame(s0, *self),
                locals.scopes() == old(locals).scopes(),
                x == ctx_of(s0),
                env == env_of(*old(locals)),
                vals == arg_values(args@),
                values_reported(
                    x,
                    env,
                    fts@,
                    vals.take(i as int),
                    s0.diagnostics.diagnostics@,
                    self.diagnostics.diagnostics@,
                ),
            decreases args@.len() - i,
        {
            let ghost s2 = *self;
            let arg_ty = self.check_expr(&args[i].value, locals);
            let ghost s3 = *self;
            if i < fts.len() {
                let ft = fts[i];
                if arg_ty != ft && arg_ty != TypeId(ERROR_ID) && ft != TypeId(ERROR_ID) {
                    self.report_mismatch(args[i].value.span, ft, arg_ty);
                    proof {
                        let d = self.diagnostics.diagnostics@;
                        assert(mismatch_report(d[d.len() - 1], args[i as int].value.span, ty_name(x, ft), ty_name(x, arg_ty)));
                        assert(mismatch_appended(s3.diagnostics.diagnostics@, d, args[i as int].value.span, ty_name(x, ft), ty_name(x, arg_ty)));
                    }
                }
            }
            proof {
                lemma_body_frame_trans(s2, s3, *self);
                lemma_body_frame_trans(s0, s2, *self);
                let d0 = s0.diagnostics.diagnostics@;
                let d2 = s2.diagnostics.diagnostics@;
                let d3 = s3.diagnostics.diagnostics@;
                let dn = self.diagnostics.diagnostics@;
                assert forall|j: int| 0 <= j < vals.take(i + 1).len() && j < fts@.len() implies {
                    let v = expr_ty(x, env, #[trigger] vals.take(i + 1)[j]);
                    v != fts@[j] && v != err_ty() && fts@[j] != err_ty() ==> mismatch_appended(
                        d0,
                        dn,
                        vals.take(i + 1)[j].span,
                        ty_name(x, fts@[j]),
                        ty_name(x, v),
                    )
                } by {
                    let v = expr_ty(x, env, vals.take(i + 1)[j]);
                    if v != fts@[j] && v != err_ty() && fts@[j] != err_ty() {
                        if j < i {
                            assert(vals.take(i + 1)[j] == vals.take(i as int)[j]);
                            lemma_mismatch_widen(d0, d0, d2, dn, vals[j].span, ty_name(x, fts@[j]), ty_name(x, v));
                        } else {
                            lemma_mismatch_widen(d0, d3, dn, dn, vals[j].span, ty_name(x, fts@[j]), ty_name(x, v));
                        }
                    }
                }
            }
            i = i + 1;
        }
        proof {
            assert(vals.take(i as int) =~= vals);
        }
    }

    /// Check the field values of a struct literal against the declared
    /// fields: a value for an undeclared field is reported.
    fn check_field_values(
        &mut self,
        name: &String,
        expected: &Vec<(String, TypeId)>,
        fields: &Vec<(String, SpannedExpr)>,
        locals: &mut ScopedLocals<LocalInfo>,
    )
        requires
            old(self).well_formed(),
        ensures
            Self::body_frame(*old(self), *final(self)),
            final(locals).scopes() == old(locals).scopes(),
            fields_reported(
                ctx_of(*old(self)),
                env_of(*old(locals)),
                name@,
                crate::types::fields_view(expected@),
                fields@,
                old(self).diagnostics.diagnostics@,
                final(self).diagnostics.diagnostics@,
            ),
        decreases fields, 0nat,
    {
        let ghost s0 = *self;
        let ghost x = ctx_of(*self);
        let ghost env = env_of(*locals);
        let ghost ev = crate::types::fields_view(expected@);
        proof {
            lemma_body_frame_refl(s0);
        }
        let mut i: usize = 0;
        while i < fields.len()
            invariant
                i <= fields@.len(),
                Self::body_frame(s0, *self),
                locals.scopes() == old(locals).scopes(),
                x == ctx_of(s0),
                env == env_of(*old(locals)),
                ev == crate::types::fields_view(expected@),
                fields_reported(
                    x,
                    env,
                    name@,
                    ev,
                    fields@.take(i as int),
                    s0.diagnostics.diagnostics@,
                    self.diagnostics.diagnostics@,
                ),
            decreases fields@.len() - i,
        {
            let ghost s1 = *self;
            let fname = &fields[i].0;
            let fval = &fields[i].1;
            let found = field_index(expected, fname);
            proof {
                lemma_field_ty(expected@, fname@, found);
            }
            match found {
                Some(j) => {
                    let ft = expected[j].1;
                    let vt = self.check_expr(fval, locals);
                    let ghost s2 = *self;
                    if vt != ft && vt != TypeId(ERROR_ID) && ft != TypeId(ERROR_ID) {
                        self.report_mismatch(fval.span, ft, vt);
                        proof {
                            let d = self.diagnostics.diagnostics@;
                            assert(mismatch_report(d[d.len() - 1], fval.span, ty_name(x, ft), ty_name(x, vt)));
                            assert(mismatch_appended(s2.diagnostics.diagnostics@, d, fval.span, ty_name(x, ft), ty_name(x, vt)));
                            lemma_mismatch_widen(s1.diagnostics.diagnostics@, s2.diagnostics.diagnostics@, d, d, fval.span, ty_name(x, ft), ty_name(x, vt));
                        }
                    }
                    proof {
                        lemma_body_frame_trans(s1, s2, *self);
                    }
                },
                None => {
                    self.check_expr(fval, locals);
                    let ghost s2 = *self;
                    self.report(
                        CheckerDiagnostic::UnknownField {
                            span: fval.span,
                            name: name.clone(),
                            field: fname.clone(),
                        },
                    );
                    proof {
                        lemma_body_frame_trans(s1, s2, *self);
                        let d = self.diagnostics.diagnostics@;
                        let k = d.len() - 1;
                        assert(d[k] matches CheckerDiagnostic::UnknownField { span: sp, name: n, field: f } && sp
                            == fval.span && n@ == name@ && f@ == fname@);
                    }
                },
            }
            proof {
                lemma_body_frame_trans(s0, s1, *self);
                let d0 = s0.diagnostics.diagnostics@;
                let d1 = s1.diagnostics.diagnostics@;
                let dn = self.diagnostics.diagnostics@;
                let fs = fields@;
                assert forall|q: int| 0 <= q < fs.take(i + 1).len() implies match field_ty(ev, (#[trigger] fs.take(i + 1)[q]).0@) {
                    Some(ft) => {
                        let v = expr_ty(x, env, fs.take(i + 1)[q].1);
                        v != ft && v != err_ty() && ft != err_ty() ==> mismatch_appended(
                            d0,
                            dn,
                            fs.take(i + 1)[q].1.span,
                            ty_name(x, ft),
                            ty_name(x, v),
                        )
                    },
                    None => exists|k: int|
                        d0.len() <= k < dn.len() && (#[trigger] dn[k] matches CheckerDiagnostic::UnknownField {
                            span: sp,
                            name: n,
                            field: f,
                        } && sp == fs.take(i + 1)[q].1.span && n@ == name@ && f@ == fs.take(i + 1)[q].0@),
                } by {
                    if q < i {
                        assert(fs.take(i + 1)[q] == fs.take(i as int)[q]);
                        match field_ty(ev, fs[q].0@) {
                            Some(ft) => {
                                let v = expr_ty(x, env, fs[q].1);
                                if v != ft && v != err_ty() && ft != err_ty() {
                                    lemma_mismatch_widen(d0, d0, d1, dn, fs[q].1.span, ty_name(x, ft), ty_name(x, v));
                                }
                            },
                            None => {
                                let k = choose|k: int|
                                    d0.len() <= k < d1.len() && (#[trigger] d1[k] matches CheckerDiagnostic::UnknownField {
                                        span: sp,
                                        name: n,
                                        field: f,
                                    } && sp == fs[q].1.span && n@ == name@ && f@ == fs[q].0@);
                                assert(dn[k] == d1[k]);
                            },
                        }
                    } else {
                        match field_ty(ev, fs[q].0@) {
                            Some(ft) => {},
                            None => {
                                let k = dn.len() - 1;
                                assert(dn[k] matches CheckerDiagnostic::UnknownField { span: sp, name: n, field: f } && sp
                                    == fs[q].1.span && n@ == name@ && f@ == fs[q].0@);
                            },
                        }
                    }
                }
            }
            i = i + 1;
        }
        proof {
            assert(fields@.take(i as int) =~= fields@);
        }
    }

    /// Type-check a block in a scope of its own and return its type.
    pub fn check_block(&mut self, b: &Block, locals: &mut ScopedLocals<LocalInfo>) -> (t: TypeId)
        requires
            old(self).well_formed(),
        ensures
            Self::body_frame(*old(self), *final(self)),
            final(locals).scopes() == old(locals).scopes(),
            t == block_ty(ctx_of(*old(self)), env_of(*old(locals)), *b),
            forall|i: int|
                0 <= i < b.stmts@.len() ==> stmt_reported(
                    ctx_of(*old(self)),
                    stmts_env(ctx_of(*old(self)), env_of(*old(locals)), b.stmts@, i as nat),
                    #[trigger] b.stmts@[i],
                    old(self).diagnostics.diagnostics@,
                    final(self).diagnostics.diagnostics@,
                ),
            b.tail_expr is Some ==> lasting_reports(
                ctx_of(*old(self)),
                stmts_env(ctx_of(*old(self)), env_of(*old(locals)), b.stmts@, b.stmts@.len()),
                *b.tail_expr.unwrap(),
                old(self).diagnostics.diagnostics@,
                final(self).diagnostics.diagnostics@,
            ),
            clean_block(ctx_of(*old(self)), env_of(*old(locals)), *b) ==> final(self).diagnostics
                == old(self).diagnostics,
        decreases b, 0nat,
    {
        let ghost s0 = *self;
        let ghost x = ctx_of(*self);
        let ghost env0 = env_of(*locals);
        let ghost sc0 = locals.scopes();
        proof {
            lemma_body_frame_refl(s0);
        }
        locals.push_scope();
        proof {
            lemma_env_same(*locals, *old(locals));
        }
        let mut i: usize = 0;
        while i < b.stmts.len()
            invariant
                i <= b.stmts@.len(),
                Self::body_frame(s0, *self),
                ctx_of(*self) == x,
                locals.depth() == sc0.len() + 1,
                locals.scopes().drop_last() == sc0,
                env_of(*locals) == stmts_env(x, env0, b.stmts@, i as nat),
                clean_block(x, env0, *b) ==> self.diagnostics == s0.diagnostics,
                forall|j: int|
                    0 <= j < i ==> stmt_reported(
                        x,
                        stmts_env(x, env0, b.stmts@, j as nat),
                        #[trigger] b.stmts@[j],
                        s0.diagnostics.diagnostics@,
                        self.diagnostics.diagnostics@,
                    ),
            decreases b.stmts@.len() - i,
        {
            let ghost s1 = *self;
            self.check_stmt(&b.stmts[i], locals);
            proof {
                lemma_body_frame_trans(s0, s1, *self);
                let d0 = s0.diagnostics.diagnostics@;
                let d1 = s1.diagnostics.diagnostics@;
                let d2 = self.diagnostics.diagnostics@;
                assert forall|j: int| 0 <= j < i + 1 implies stmt_reported(
                    x,
                    stmts_env(x, env0, b.stmts@, j as nat),
                    #[trigger] b.stmts@[j],
                    d0,
                    d2,
                ) by {
                    if j < i {
                        lemma_stmt_reported_widen(x, stmts_env(x, env0, b.stmts@, j as nat), b.stmts@[j], d0, d0, d1, d2);
                    } else {
                        lemma_stmt_reported_widen(x, stmts_env(x, env0, b.stmts@, j as nat), b.stmts@[j], d0, d1, d2, d2);
                    }
                }
            }
            i = i + 1;
        }
        let ghost s1 = *self;
        let t = match &b.tail_expr {
            Some(tail) => self.check_expr(tail, locals),
            None => {
                if b.stmts.len() > 0 && stmt_diverges_exec(&b.stmts[b.stmts.len() - 1]) {
                    TypeId(17)
                } else {
                    TypeId(0)
                }
            },
        };
        proof {
            if b.tail_expr is Some {
                lemma_body_frame_trans(s0, s1, *self);
            }
            let d0 = s0.diagnostics.diagnostics@;
            let d1 = s1.diagnostics.diagnostics@;
            let d2 = self.diagnostics.diagnostics@;
            assert forall|j: int| 0 <= j < b.stmts@.len() implies stmt_reported(
                x,
                stmts_env(x, env0, b.stmts@, j as nat),
                #[trigger] b.stmts@[j],
                d0,
                d2,
            ) by {
                lemma_stmt_reported_widen(x, stmts_env(x, env0, b.stmts@, j as nat), b.stmts@[j], d0, d0, d1, d2);
            }
            if b.tail_expr is Some {
                lemma_lasting_widen(
                    x,
                    stmts_env(x, env0, b.stmts@, b.stmts@.len()),
                    *b.tail_expr.unwrap(),
                    d0,
                    d1,
                    d2,
                    d2,
                );
            }
        }
        locals.pop_scope();
        assert(locals.scopes() =~= sc0);
        t
    }

    /// Type-check `let name: ty = value` (or a `const`): a written type
    /// that the value does not have is reported (an unsuffixed integer
    /// literal fits any integer type); the name is bound in the innermost
    /// scope with the written type, or else the value's, and recorded for
    /// the editor.
    fn check_let(
        &mut self,
        name: &Spanned<String>,
        ty: &Option<Spanned<TypeExpr>>,
        value: &SpannedExpr,
        is_mut: bool,
        locals: &mut ScopedLocals<LocalInfo>,
    )
        requires
            old(self).well_formed(),
        ensures
            Self::body_frame(*old(self), *final(self)),
            final(locals).depth() == old(locals).depth(),
            final(locals).scopes().drop_last() == old(locals).scopes().drop_last(),
            env_of(*final(locals)) == env_of(*old(locals)).insert(
                name.node@,
                LocalInfo {
                    ty: let_value_ty(ctx_of(*old(self)), env_of(*old(locals)), *ty, *value),
                    is_mut,
                    def_span: name.span,
                },
            ),
            let_reported(
                ctx_of(*old(self)),
                env_of(*old(locals)),
                *ty,
                *value,
                old(self).diagnostics.diagnostics@,
                final(self).diagnostics.diagnostics@,
            ),
            lasting_reports(
                ctx_of(*old(self)),
                env_of(*old(locals)),
                *value,
                old(self).diagnostics.diagnostics@,
                final(self).diagnostics.diagnostics@,
            ),
            ty is None && clean(ctx_of(*old(self)), env_of(*old(locals)), *value) ==> final(self).diagnostics
                == old(self).diagnostics,
        decreases value, 3nat,
    {
        let ghost s0 = *self;
        let val_ty = self.check_expr(value, locals);
        let ghost s1 = *self;
        let final_ty = match ty {
            Some(te) => {
                let declared = self.resolve_type(te);
                let ghost s2 = *self;
                assert(Self::body_frame(s1, s2));
                proof {
                    if resolved_type(s1.structs@, s1.enums@, s1.type_aliases@, s1.self_type, te.node) is None {
                        let d = s2.diagnostics.diagnostics@;
                        let i = s1.diagnostics.diagnostics@.len() as int;
                        assert(d[i] matches CheckerDiagnostic::UnknownType { span: sp, name: n } && sp == te.span
                            && n@ == te.node->Named_0@);
                        assert(unknown_type_appended(s0.diagnostics.diagnostics@, d, te.span, te.node->Named_0@));
                    }
                }
                let coercible = is_unsuffixed_int_literal(&value.node)
                    && self.types.is_integer_type(declared);
                if val_ty != declared && val_ty != TypeId(ERROR_ID) && declared != TypeId(
                    ERROR_ID,
                ) && !coercible {
                    self.report_mismatch(value.span, declared, val_ty);
                    proof {
                        let d = self.diagnostics.diagnostics@;
                        assert(mismatch_report(d[d.len() - 1], value.span, ty_name(ctx_of(s0), declared), ty_name(ctx_of(s0), val_ty)));
                        assert(mismatch_appended(s0.diagnostics.diagnostics@, d, value.span, ty_name(ctx_of(s0), declared), ty_name(ctx_of(s0), val_ty)));
                    }
                }
                proof {
                    lemma_body_frame_trans(s1, s2, *self);
                    lemma_appended_kept(s0, s2, *self);
                }
                declared
            },
            None => val_ty,
        };
        let ghost lbefore = *locals;
        locals.insert(
            name.node.clone(),
            LocalInfo { ty: final_ty, is_mut, def_span: name.span },
        );
        proof {
            assert(env_of(*locals) =~= env_of(lbefore).insert(
                name.node@,
                LocalInfo { ty: final_ty, is_mut, def_span: name.span },
            ));
        }
        let ghost s3 = *self;
        self.symbol_table.record_definition(
            name.span,
            DefinitionInfo {
                name: name.node.clone(),
                kind: SymbolKind::LocalVariable,
                def_span: name.span,
                type_id: Some(final_ty),
            },
        );
        self.symbol_table.record_expr_type(name.span, final_ty);
        proof {
            lemma_body_frame_symbols(s3, *self);
            lemma_body_frame_trans(s1, s3, *self);
            lemma_body_frame_trans(s0, s1, *self);
            lemma_lasting_widen(
                ctx_of(s0),
                env_of(*old(locals)),
                *value,
                s0.diagnostics.diagnostics@,
                s0.diagnostics.diagnostics@,
                s1.diagnostics.diagnostics@,
                self.diagnostics.diagnostics@,
            );
        }
    }

    /// Type-check a statement; a `let` binds its name in the innermost scope.
    pub fn check_stmt(&mut self, s: &SpannedStmt, locals: &mut ScopedLocals<LocalInfo>)
        requires
            old(self).well_formed(),
        ensures
            Self::body_frame(*old(self), *final(self)),
            final(locals).depth() == old(locals).depth(),
            final(locals).scopes().drop_last() == old(locals).scopes().drop_last(),
            env_of(*final(locals)) == stmt_env(ctx_of(*old(self)), env_of(*old(locals)), *s),
            stmt_reported(
                ctx_of(*old(self)),
                env_of(*old(locals)),
                *s,
                old(self).diagnostics.diagnostics@,
                final(self).diagnostics.diagnostics@,
            ),
            clean_stmt(ctx_of(*old(self)), env_of(*old(locals)), *s) ==> final(self).diagnostics
                == old(self).diagnostics,
        decreases s, 0nat,
    {
        let ghost s0 = *self;
        proof {
            lemma_body_frame_refl(s0);
        }
        match &s.node {
            Stmt::Expr(e) => {
                self.check_expr(e, locals);
            },
            Stmt::LetPattern { pattern, value, is_mut, .. } => {
                let vt = self.check_expr(value, locals);
                let ghost s1 = *self;
                self.check_pattern_bindings(pattern, vt, *is_mut, locals);
                proof {
                    lemma_body_frame_trans(s0, s1, *self);
                    lemma_lasting_widen(
                        ctx_of(s0),
                        env_of(*old(locals)),
                        *value,
                        s0.diagnostics.diagnostics@,
                        s0.diagnostics.diagnostics@,
                        s1.diagnostics.diagnostics@,
                        self.diagnostics.diagnostics@,
                    );
                }
            },
            Stmt::Let { name, ty, value, is_mut } => {
                self.check_let(name, ty, value, *is_mut, locals);
            },
            Stmt::Const { name, ty, value } => {
                self.check_let(name, ty, value, false, locals);
            },
            Stmt::Defer { body } => {
                self.check_block(&body.node, locals);
            },
        }
    }
}

/// Whether a statement always leaves its block.
pub fn stmt_diverges_exec(s: &SpannedStmt) -> (r: bool)
    ensures
        r == stmt_diverges(*s),
    decreases s, 1nat,
{
    match &s.node {
        Stmt::Expr(e) => expr_diverges_exec(e),
        Stmt::Let { .. } => false,
        Stmt::Const { .. } => false,
        Stmt::LetPattern { .. } => false,
        Stmt::Defer { .. } => false,
    }
}

/// Whether an expression always leaves the enclosing block.
pub fn expr_diverges_exec(e: &SpannedExpr) -> (r: bool)
    ensures
        r == expr_diverges(*e),
    decreases e, 0nat,
{
    match &e.node {
        Expr::Return(_) => true,
        Expr::Break { .. } => true,
        Expr::Continue { .. } => true,
        Expr::Block(b) => b.stmts.len() > 0 && stmt_diverges_exec(&b.stmts[b.stmts.len() - 1]),
        _ => false,
    }
}

/// A copy of a field list.
pub(crate) fn copy_fields(fs: &Vec<(String, TypeId)>) -> (r: Vec<(String, TypeId)>)
    ensures
        crate::types::fields_view(r@) == crate::types::fields_view(fs@),
{
    let mut r: Vec<(String, TypeId)> = Vec::new();
    let mut i: usize = 0;
    while i < fs.len()
        invariant
            i <= fs@.len(),
            crate::types::fields_view(r@) == crate::types::fields_view(fs@).take(i as int),
        decreases fs@.len() - i,
    {
        let ghost before = r@;
        let nm = fs[i].0.clone();
        r.push((nm, fs[i].1));
        assert(crate::types::fields_view(r@) =~= crate::types::fields_view(before).push(
            (nm@, fs@[i as int].1),
        ));
        assert(crate::types::fields_view(r@) =~= crate::types::fields_view(fs@).take(i + 1));
        i = i + 1;
    }
    assert(crate::types::fields_view(fs@).take(i as int) =~= crate::types::fields_view(fs@));
    r
}

/// Setting the return type where none was known keeps the frame.
proof fn lemma_body_frame_set_return(a: Checker, b: Checker)
    requires
        a.well_formed(),
        a.current_return_type is None,
        b.diagnostics == a.diagnostics,
        b.functions == a.functions,
        b.structs == a.structs,
        b.enums == a.enums,
        b.type_aliases == a.type_aliases,
        b.types.kinds() == a.types.kinds(),
        b.found_main == a.found_main,
        b.require_main == a.require_main,
        b.self_type == a.self_type,
        b.item_def_spans == a.item_def_spans,
        b.symbol_table == a.symbol_table,
    ensures
        Checker::body_frame(a, b),
{
    lemma_body_frame_refl(a);
}

/// Recording symbols keeps the frame of a body.
pub proof fn lemma_body_frame_symbols(a: Checker, b: Checker)
    requires
        a.well_formed(),
        b.symbol_table.well_formed(),
        b.symbol_table.file_symbols@ == a.symbol_table.file_symbols@,
        b.diagnostics == a.diagnostics,
        b.functions == a.functions,
        b.structs == a.structs,
        b.enums == a.enums,
        b.type_aliases == a.type_aliases,
        b.types.kinds() == a.types.kinds(),
        b.found_main == a.found_main,
        b.require_main == a.require_main,
        b.current_return_type == a.current_return_type,
        b.self_type == a.self_type,
        b.item_def_spans == a.item_def_spans,
    ensures
        Checker::body_frame(a, b),
{
    lemma_body_frame_refl(a);
}

/// Appending a diagnostic other than a missing `main` keeps the frame.
proof fn lemma_body_frame_trans_add(a: Checker, b: Checker, d: CheckerDiagnostic)
    requires
        a.well_formed(),
        b.diagnostics.diagnostics@ == a.diagnostics.diagnostics@.push(d),
        !(d is NoMainFunction),
        b.functions == a.functions,
        b.structs == a.structs,
        b.enums == a.enums,
        b.type_aliases == a.type_aliases,
        b.types.kinds() == a.types.kinds(),
        b.found_main == a.found_main,
        b.require_main == a.require_main,
        b.current_return_type == a.current_return_type,
        b.self_type == a.self_type,
        b.item_def_spans == a.item_def_spans,
        b.symbol_table == a.symbol_table,
    ensures
        Checker::body_frame(a, b),
{
}

} // verus!
