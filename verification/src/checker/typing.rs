use vstd::prelude::*;

use super::{mangled, resolved_type, Checker, FunctionTable, LocalInfo};
use crate::ast::{
    BinOp, Block, Expr, IntSuffix, Literal, MatchArm, Pattern, SpannedExpr, SpannedStmt, Stmt, UnaryOp,
};
use crate::scoped_locals::{lookup, scope_get, ScopedLocals};
use crate::span::Spanned;
use crate::types::{
    fields_view, variants_view, EnumVariant, kind_is_integer, kind_is_numeric, kind_is_signed, kind_name, KindView, TypeId,
    ERROR_ID,
};

verus! {

/// The local variables visible in a stack of scopes, by name.
pub open spec fn env_of(l: ScopedLocals<LocalInfo>) -> Map<Seq<char>, LocalInfo> {
    scopes_env(l.scopes())
}

/// The bindings a stack of scopes makes visible, by name.
pub open spec fn scopes_env(sc: Seq<Seq<(String, LocalInfo)>>) -> Map<Seq<char>, LocalInfo> {
    Map::new(|k: Seq<char>| lookup(sc, k) is Some, |k: Seq<char>| lookup(sc, k).unwrap())
}

/// What typing an expression reads of the checker: the function table, the
/// struct table, the interned kinds, the type `Self` stands for and the enum
/// table.
pub type TyCtx = (
    FunctionTable,
    Seq<(String, TypeId)>,
    Seq<KindView>,
    Option<TypeId>,
    Seq<(String, TypeId)>,
    Seq<(String, TypeId)>,
);

pub open spec fn ctx_of(c: Checker) -> TyCtx {
    (c.functions, c.structs@, c.types.kinds(), c.self_type, c.enums@, c.type_aliases@)
}

/// The structure of a type id in a context (the error type for an unknown id).
pub open spec fn ctx_kind(x: TyCtx, t: TypeId) -> KindView {
    if t.0 < x.2.len() {
        x.2[t.0 as int]
    } else {
        KindView::Error
    }
}

pub open spec fn err_ty() -> TypeId {
    TypeId(ERROR_ID)
}

/// The type an integer suffix names.
pub open spec fn suffix_ty(s: IntSuffix) -> TypeId {
    match s {
        IntSuffix::I8 => TypeId(1),
        IntSuffix::I16 => TypeId(2),
        IntSuffix::I32 => TypeId(3),
        IntSuffix::I64 => TypeId(4),
        IntSuffix::U8 => TypeId(5),
        IntSuffix::U16 => TypeId(6),
        IntSuffix::U32 => TypeId(7),
        IntSuffix::U64 => TypeId(8),
    }
}

/// The type of a literal.
pub open spec fn literal_ty(l: Literal) -> TypeId {
    match l {
        Literal::String(_) => TypeId(13),
        Literal::TemplateString { .. } => TypeId(13),
        Literal::Int(_, Some(s)) => suffix_ty(s),
        Literal::Int(_, None) => TypeId(3),
        Literal::Bool(_) => TypeId(11),
        Literal::Char(_) => TypeId(12),
    }
}

/// The method an operator is overloaded by on a user-defined type.
pub open spec fn op_method(op: BinOp) -> Option<Seq<char>> {
    match op {
        BinOp::Add => Some("add"@),
        BinOp::Sub => Some("sub"@),
        BinOp::Mul => Some("mul"@),
        BinOp::Div => Some("div"@),
        BinOp::Mod => Some("rem"@),
        BinOp::Eq => Some("eq"@),
        BinOp::Ne => Some("ne"@),
        BinOp::Lt => Some("lt"@),
        BinOp::Le => Some("le"@),
        BinOp::Gt => Some("gt"@),
        BinOp::Ge => Some("ge"@),
        _ => None,
    }
}

pub open spec fn is_arith(op: BinOp) -> bool {
    op is Add || op is Sub || op is Mul || op is Div || op is Mod || op is Shl || op is Shr
}

pub open spec fn is_bitwise(op: BinOp) -> bool {
    op is BitAnd || op is BitOr || op is BitXor
}

pub open spec fn is_comparison(op: BinOp) -> bool {
    op is Eq || op is Ne || op is Lt || op is Le || op is Gt || op is Ge
}

/// The name a type is shown by, in the checker's type table.
pub open spec fn ty_name(x: TyCtx, t: TypeId) -> Seq<char> {
    kind_name(ctx_kind(x, t))
}

/// The type of a binary operation on operands of types `l` and `r`.
pub open spec fn binary_ty(x: TyCtx, op: BinOp, l: TypeId, r: TypeId) -> TypeId {
    if l == err_ty() || r == err_ty() {
        err_ty()
    } else if op_method(op) is Some && x.0.lookup(
        mangled(ty_name(x, l), op_method(op).unwrap()),
    ) is Some {
        x.0.lookup(mangled(ty_name(x, l), op_method(op).unwrap())).unwrap().return_type
    } else if l != r {
        err_ty()
    } else if is_arith(op) {
        if kind_is_numeric(ctx_kind(x, l)) {
            l
        } else {
            err_ty()
        }
    } else if is_bitwise(op) {
        if kind_is_integer(ctx_kind(x, l)) {
            l
        } else {
            err_ty()
        }
    } else if is_comparison(op) {
        TypeId(11)
    } else if l == TypeId(11) {
        TypeId(11)
    } else {
        err_ty()
    }
}

/// The type of a unary operation on an operand of type `t`.
pub open spec fn unary_ty(x: TyCtx, op: UnaryOp, t: TypeId) -> TypeId {
    if t == err_ty() {
        err_ty()
    } else {
        match op {
            UnaryOp::Neg => if kind_is_signed(ctx_kind(x, t)) {
                t
            } else {
                err_ty()
            },
            UnaryOp::Not => if t == TypeId(11) {
                TypeId(11)
            } else {
                err_ty()
            },
            UnaryOp::BitNot => if kind_is_integer(ctx_kind(x, t)) {
                t
            } else {
                err_ty()
            },
        }
    }
}

/// The type of the first field named `name`, if any.
pub open spec fn field_ty(fields: Seq<(Seq<char>, TypeId)>, name: Seq<char>) -> Option<TypeId>
    decreases fields.len(),
{
    if fields.len() == 0 {
        None
    } else if fields[0].0 == name {
        Some(fields[0].1)
    } else {
        field_ty(fields.drop_first(), name)
    }
}

/// The type a struct name denotes, when it names a struct.
pub open spec fn struct_named(x: TyCtx, name: Seq<char>) -> Option<TypeId> {
    match scope_get(x.1, name) {
        Some(t) => if ctx_kind(x, t) is Struct {
            Some(t)
        } else {
            None
        },
        None => None,
    }
}

/// The fields of the first variant named `name`, if any.
pub open spec fn variant_named(
    vs: Seq<(Seq<char>, Seq<(Seq<char>, TypeId)>)>,
    name: Seq<char>,
) -> Option<Seq<(Seq<char>, TypeId)>>
    decreases vs.len(),
{
    if vs.len() == 0 {
        None
    } else if vs[0].0 == name {
        Some(vs[0].1)
    } else {
        variant_named(vs.drop_first(), name)
    }
}

/// The fields of a variant of the enum type `t`, when `t` is an enum with
/// such a variant.
pub open spec fn enum_variant_fields(x: TyCtx, t: TypeId, variant: Seq<char>) -> Option<
    Seq<(Seq<char>, TypeId)>,
> {
    match ctx_kind(x, t) {
        KindView::Enum { variants, .. } => variant_named(variants, variant),
        _ => None,
    }
}

/// Whether an enum's name is `base` or a name made from it for a type
/// argument (`base$...`).
pub open spec fn in_family(name: Seq<char>, base: Seq<char>) -> bool {
    name == base || (name.len() > base.len() && name.take(base.len() + 1int) == base.push('$'))
}

/// The type of the first field of the first variant named `v`, when that
/// variant has a field.
pub open spec fn first_payload(vs: Seq<(Seq<char>, Seq<(Seq<char>, TypeId)>)>, v: Seq<char>) -> Option<TypeId> {
    match variant_named(vs, v) {
        Some(fs) => if fs.len() > 0 {
            Some(fs[0].1)
        } else {
            None
        },
        None => None,
    }
}

/// The type of `e?` when `e` has type `t`: what the `Some` of an `Option`
/// or the `Ok` of a `Result` holds; any other type is left as it is.
pub open spec fn unwrapped_ty(x: TyCtx, t: TypeId) -> TypeId {
    match ctx_kind(x, t) {
        KindView::Enum { name, variants } => {
            let p = if in_family(name, "Option"@) {
                first_payload(variants, "Some"@)
            } else if in_family(name, "Result"@) {
                first_payload(variants, "Ok"@)
            } else {
                None
            };
            match p {
                Some(u) => u,
                None => t,
            }
        },
        _ => t,
    }
}

/// The enum `Owner::Variant(..)` constructs, when `Owner` is an enum with
/// that variant.
pub open spec fn enum_ctor(x: TyCtx, owner: Seq<char>, variant: Seq<char>) -> Option<TypeId> {
    match scope_get(x.4, owner) {
        Some(t) => if enum_variant_fields(x, t, variant) is Some {
            Some(t)
        } else {
            None
        },
        None => None,
    }
}

/// The type of the `i`-th field of a field list; the error type past its
/// end.
pub open spec fn nth_field_ty(fs: Seq<(Seq<char>, TypeId)>, i: int) -> TypeId {
    if 0 <= i < fs.len() {
        fs[i].1
    } else {
        err_ty()
    }
}

/// The enum a variant pattern matches against: the one it names, or else
/// the type of the value matched when that is an enum.
pub open spec fn pattern_enum(x: TyCtx, enum_name: Option<String>, t: TypeId) -> Option<TypeId> {
    match enum_name {
        Some(n) => scope_get(x.4, n@),
        None => if ctx_kind(x, t) is Enum {
            Some(t)
        } else {
            None
        },
    }
}

/// The locals visible after a pattern matched against a value of type `t`
/// has bound its names (each sub-pattern against the type of its field).
pub open spec fn pattern_env(
    x: TyCtx,
    env: Map<Seq<char>, LocalInfo>,
    p: Spanned<Pattern>,
    t: TypeId,
) -> Map<Seq<char>, LocalInfo>
    decreases p, 0nat,
{
    match p.node {
        Pattern::Wildcard => env,
        Pattern::Literal(_) => env,
        Pattern::Binding(name) => env.insert(
            name@,
            LocalInfo { ty: t, is_mut: false, def_span: p.span },
        ),
        Pattern::Enum { enum_name, variant, fields } => match pattern_enum(x, enum_name, t) {
            Some(et) => match enum_variant_fields(x, et, variant@) {
                Some(fs) => pats_env(x, env, fields@, fs, fields@.len()),
                None => env,
            },
            None => if t == err_ty() {
                pats_env(x, env, fields@, Seq::empty(), fields@.len())
            } else {
                env
            },
        },
        Pattern::Struct { name, fields } => {
            let st = match scope_get(x.1, name@) {
                Some(s) => s,
                None => t,
            };
            match ctx_kind(x, st) {
                KindView::Struct { fields: sfs, .. } => struct_pats_env(
                    x,
                    env,
                    fields@,
                    sfs,
                    fields@.len(),
                ),
                _ => env,
            }
        },
    }
}

/// The locals after the first `n` sub-patterns of a variant pattern, the
/// `i`-th matched against the type of the variant's `i`-th field.
pub open spec fn pats_env(
    x: TyCtx,
    env: Map<Seq<char>, LocalInfo>,
    pats: Seq<Spanned<Pattern>>,
    fs: Seq<(Seq<char>, TypeId)>,
    n: nat,
) -> Map<Seq<char>, LocalInfo>
    decreases pats, n,
{
    if n == 0 || n > pats.len() {
        env
    } else {
        pattern_env(
            x,
            pats_env(x, env, pats, fs, (n - 1) as nat),
            pats[n - 1],
            nth_field_ty(fs, n - 1),
        )
    }
}

/// The locals after the first `n` field patterns of a struct pattern, each
/// matched against the type of the field it names.
pub open spec fn struct_pats_env(
    x: TyCtx,
    env: Map<Seq<char>, LocalInfo>,
    pats: Seq<(String, Spanned<Pattern>)>,
    sfs: Seq<(Seq<char>, TypeId)>,
    n: nat,
) -> Map<Seq<char>, LocalInfo>
    decreases pats, n,
{
    if n == 0 || n > pats.len() {
        env
    } else {
        pattern_env(
            x,
            struct_pats_env(x, env, pats, sfs, (n - 1) as nat),
            pats[n - 1].1,
            match field_ty(sfs, pats[n - 1].0@) {
                Some(ft) => ft,
                None => err_ty(),
            },
        )
    }
}

/// The type of a `match` over its first `n` arms: the type of the first
/// arm whose body is not of the never type (`None` while there is none).
/// Each arm's body is typed with the names its pattern binds.
pub open spec fn arms_ty(
    x: TyCtx,
    env: Map<Seq<char>, LocalInfo>,
    st: TypeId,
    arms: Seq<MatchArm>,
    n: nat,
) -> Option<TypeId>
    decreases arms, n,
{
    if n == 0 || n > arms.len() {
        None
    } else {
        let prev = arms_ty(x, env, st, arms, (n - 1) as nat);
        let body = expr_ty(x, pattern_env(x, env, arms[n - 1].pattern, st), arms[n - 1].body);
        if prev is None && body != TypeId(17) {
            Some(body)
        } else {
            prev
        }
    }
}

/// Whether a statement always leaves the enclosing block (a `return`, a
/// `break` or a `continue`, or a block that ends in one).
pub open spec fn stmt_diverges(s: SpannedStmt) -> bool
    decreases s, 1nat,
{
    match s.node {
        Stmt::Expr(e) => expr_diverges(e),
        Stmt::Let { .. } => false,
        Stmt::Const { .. } => false,
        Stmt::LetPattern { .. } => false,
        Stmt::Defer { .. } => false,
    }
}

pub open spec fn expr_diverges(e: SpannedExpr) -> bool
    decreases e, 0nat,
{
    match e.node {
        Expr::Return(_) => true,
        Expr::Break { .. } => true,
        Expr::Continue { .. } => true,
        Expr::Block(b) => b.stmts@.len() > 0 && stmt_diverges(b.stmts@.last()),
        _ => false,
    }
}

/// Whether a value of type `s` may be cast to type `d`: between numeric
/// types, from `bool` or `char` to an integer, from an integer to `char`,
/// and between the pointer types `RawPtr`/`MutRawPtr` and `RawPtr`/`CStr`.
pub open spec fn cast_allowed(x: TyCtx, s: TypeId, d: TypeId) -> bool {
    ||| kind_is_numeric(ctx_kind(x, s)) && kind_is_numeric(ctx_kind(x, d))
    ||| s == TypeId(11) && kind_is_integer(ctx_kind(x, d))
    ||| s == TypeId(12) && kind_is_integer(ctx_kind(x, d))
    ||| kind_is_integer(ctx_kind(x, s)) && d == TypeId(12)
    ||| s == TypeId(14) && d == TypeId(15)
    ||| s == TypeId(15) && d == TypeId(14)
    ||| s == TypeId(14) && d == TypeId(16)
    ||| s == TypeId(16) && d == TypeId(14)
}

/// The type of a cast of a value of type `s` to the written type `d`.
pub open spec fn cast_ty(x: TyCtx, s: TypeId, d: TypeId) -> TypeId {
    if s == err_ty() || d == err_ty() {
        err_ty()
    } else if cast_allowed(x, s, d) {
        d
    } else {
        err_ty()
    }
}

/// The type of `object[index]` for an object of type `o` and an index of
/// type `i`: a string's elements are characters; the index must be an
/// integer.
pub open spec fn index_ty(x: TyCtx, o: TypeId, i: TypeId) -> TypeId {
    if o == err_ty() || i == err_ty() {
        err_ty()
    } else if !kind_is_integer(ctx_kind(x, i)) {
        err_ty()
    } else if ctx_kind(x, o) is String {
        TypeId(12)
    } else {
        err_ty()
    }
}

/// The type a written type denotes in a context (the error type for an
/// unknown name).
pub open spec fn written_ty(x: TyCtx, t: crate::ast::TypeExpr) -> TypeId {
    match resolved_type(x.1, x.4, x.5, x.3, t) {
        Some(r) => r,
        None => err_ty(),
    }
}

/// The type the checker gives an expression, with the visible locals `env`.
pub open spec fn expr_ty(x: TyCtx, env: Map<Seq<char>, LocalInfo>, e: SpannedExpr) -> TypeId
    decreases e, 0nat,
{
    match e.node {
        Expr::Literal(l) => literal_ty(l),
        Expr::Ident(name) => if env.dom().contains(name@) {
            env[name@].ty
        } else {
            match scope_get(x.1, name@) {
                Some(t) => t,
                None => err_ty(),
            }
        },
        Expr::Call { callee, .. } => match callee.node {
            Expr::Ident(name) => match x.0.lookup(name@) {
                Some(sig) => sig.return_type,
                None => match struct_named(x, name@) {
                    Some(t) => t,
                    None => err_ty(),
                },
            },
            _ => err_ty(),
        },
        Expr::MethodCall { object, method, .. } => {
            let t = expr_ty(x, env, *object);
            if t == err_ty() {
                err_ty()
            } else {
                match x.0.lookup(mangled(ty_name(x, t), method@)) {
                    Some(sig) => sig.return_type,
                    None => err_ty(),
                }
            }
        },
        Expr::StaticCall { owner, method, .. } => match enum_ctor(x, owner@, method@) {
            Some(t) => t,
            None => match x.0.lookup(mangled(owner@, method@)) {
                Some(sig) => sig.return_type,
                None => err_ty(),
            },
        },
        Expr::Block(b) => block_ty(x, env, b),
        Expr::Return(_) => TypeId(17),
        Expr::Binary { op, left, right } => binary_ty(
            x,
            op,
            expr_ty(x, env, *left),
            expr_ty(x, env, *right),
        ),
        Expr::Unary { op, operand } => unary_ty(x, op, expr_ty(x, env, *operand)),
        Expr::Assign { .. } => TypeId(0),
        Expr::If { then_branch, else_branch, .. } => match else_branch {
            Some(_) => block_ty(x, env, then_branch.node),
            None => TypeId(0),
        },
        Expr::While { .. } => TypeId(0),
        Expr::Loop { .. } => TypeId(0),
        Expr::Break { .. } => TypeId(17),
        Expr::Continue { .. } => TypeId(17),
        Expr::CompoundAssign { .. } => TypeId(0),
        Expr::Range { .. } => TypeId(0),
        Expr::IndexAccess { object, index } => index_ty(
            x,
            expr_ty(x, env, *object),
            expr_ty(x, env, *index),
        ),
        Expr::For { .. } => TypeId(0),
        Expr::QuestionMark(inner) => unwrapped_ty(x, expr_ty(x, env, *inner)),
        Expr::Cast { expr, target_type } => cast_ty(
            x,
            expr_ty(x, env, *expr),
            written_ty(x, target_type.node),
        ),
        Expr::IfLet { pattern, scrutinee, then_branch, else_branch } => match else_branch {
            Some(_) => block_ty(
                x,
                pattern_env(x, env, pattern, expr_ty(x, env, *scrutinee)),
                then_branch.node,
            ),
            None => TypeId(0),
        },
        Expr::Grouped(inner) => expr_ty(x, env, *inner),
        Expr::StructLiteral { name, .. } => match struct_named(x, name@) {
            Some(t) => t,
            None => err_ty(),
        },
        Expr::FieldAccess { object, field } => {
            let t = expr_ty(x, env, *object);
            if t == err_ty() {
                err_ty()
            } else {
                match ctx_kind(x, t) {
                    KindView::Struct { fields, .. } => match field_ty(fields, field@) {
                        Some(ft) => ft,
                        None => err_ty(),
                    },
                    _ => err_ty(),
                }
            }
        },
        Expr::EnumLiteral { enum_name, variant, .. } => match scope_get(x.4, enum_name@) {
            Some(t) => if ctx_kind(x, t) is Enum {
                t
            } else {
                err_ty()
            },
            None => match x.0.lookup(mangled(enum_name@, variant@)) {
                Some(sig) => sig.return_type,
                None => err_ty(),
            },
        },
        Expr::Match { scrutinee, arms } => match arms_ty(
            x,
            env,
            expr_ty(x, env, *scrutinee),
            arms@,
            arms@.len(),
        ) {
            Some(t) => t,
            None => TypeId(0),
        },
    }
}

/// The locals visible after a statement.
pub open spec fn stmt_env(x: TyCtx, env: Map<Seq<char>, LocalInfo>, s: SpannedStmt) -> Map<
    Seq<char>,
    LocalInfo,
>
    decreases s, 0nat,
{
    match s.node {
        Stmt::Expr(_) => env,
        Stmt::Let { name, ty, value, is_mut } => {
            let t = match ty {
                Some(te) => match resolved_type(x.1, x.4, x.5, x.3, te.node) {
                    Some(r) => r,
                    None => err_ty(),
                },
                None => expr_ty(x, env, value),
            };
            env.insert(name.node@, LocalInfo { ty: t, is_mut, def_span: name.span })
        },
        Stmt::Const { name, ty, value } => {
            let t = match ty {
                Some(te) => match resolved_type(x.1, x.4, x.5, x.3, te.node) {
                    Some(r) => r,
                    None => err_ty(),
                },
                None => expr_ty(x, env, value),
            };
            env.insert(name.node@, LocalInfo { ty: t, is_mut: false, def_span: name.span })
        },
        Stmt::LetPattern { pattern, value, is_mut, .. } => let_pattern_env(
            x,
            env,
            pattern,
            expr_ty(x, env, value),
            is_mut,
        ),
        Stmt::Defer { .. } => env,
    }
}

/// The locals visible after `let pattern = value` binds the names of the
/// pattern, the value having type `t`: a binding takes `t`; the field
/// patterns of a struct pattern take the types of the fields they name (the
/// error type for a struct or field that does not exist); the sub-patterns
/// of a variant pattern take the error type.
pub open spec fn let_pattern_env(
    x: TyCtx,
    env: Map<Seq<char>, LocalInfo>,
    p: Spanned<Pattern>,
    t: TypeId,
    is_mut: bool,
) -> Map<Seq<char>, LocalInfo>
    decreases p, 0nat,
{
    match p.node {
        Pattern::Wildcard => env,
        Pattern::Literal(_) => env,
        Pattern::Binding(name) => env.insert(name@, LocalInfo { ty: t, is_mut, def_span: p.span }),
        Pattern::Enum { fields, .. } => let_pats_env(x, env, fields@, is_mut, fields@.len()),
        Pattern::Struct { name, fields } => {
            let st = match scope_get(x.1, name@) {
                Some(s) => s,
                None => err_ty(),
            };
            match ctx_kind(x, st) {
                KindView::Struct { fields: sfs, .. } => let_struct_pats_env(
                    x,
                    env,
                    fields@,
                    sfs,
                    is_mut,
                    fields@.len(),
                ),
                _ => env,
            }
        },
    }
}

/// The locals after the first `n` sub-patterns of a variant pattern in a
/// `let`, each bound with the error type.
pub open spec fn let_pats_env(
    x: TyCtx,
    env: Map<Seq<char>, LocalInfo>,
    pats: Seq<Spanned<Pattern>>,
    is_mut: bool,
    n: nat,
) -> Map<Seq<char>, LocalInfo>
    decreases pats, n,
{
    if n == 0 || n > pats.len() {
        env
    } else {
        let_pattern_env(x, let_pats_env(x, env, pats, is_mut, (n - 1) as nat), pats[n - 1], err_ty(), is_mut)
    }
}

/// The locals after the first `n` field patterns of a struct pattern in a
/// `let`, each bound with the type of the field it names.
pub open spec fn let_struct_pats_env(
    x: TyCtx,
    env: Map<Seq<char>, LocalInfo>,
    pats: Seq<(String, Spanned<Pattern>)>,
    sfs: Seq<(Seq<char>, TypeId)>,
    is_mut: bool,
    n: nat,
) -> Map<Seq<char>, LocalInfo>
    decreases pats, n,
{
    if n == 0 || n > pats.len() {
        env
    } else {
        let_pattern_env(
            x,
            let_struct_pats_env(x, env, pats, sfs, is_mut, (n - 1) as nat),
            pats[n - 1].1,
            match field_ty(sfs, pats[n - 1].0@) {
                Some(ft) => ft,
                None => err_ty(),
            },
            is_mut,
        )
    }
}

/// The locals visible after the first `n` statements of a block.
pub open spec fn stmts_env(
    x: TyCtx,
    env: Map<Seq<char>, LocalInfo>,
    stmts: Seq<SpannedStmt>,
    n: nat,
) -> Map<Seq<char>, LocalInfo>
    decreases stmts, n,
{
    if n == 0 || n > stmts.len() {
        env
    } else {
        stmt_env(x, stmts_env(x, env, stmts, (n - 1) as nat), stmts[n - 1])
    }
}

/// The type the checker gives a block.
pub open spec fn block_ty(x: TyCtx, env: Map<Seq<char>, LocalInfo>, b: Block) -> TypeId
    decreases b, 0nat,
{
    let inner = stmts_env(x, env, b.stmts@, b.stmts@.len());
    match b.tail_expr {
        Some(t) => expr_ty(x, inner, *t),
        None => if b.stmts@.len() > 0 && stmt_diverges(b.stmts@.last()) {
            TypeId(17)
        } else {
            TypeId(0)
        },
    }
}

/// The first field named `name` in a list is the one a left-to-right search
/// finds.
pub proof fn lemma_field_ty(fs: Seq<(String, TypeId)>, name: Seq<char>, r: Option<usize>)
    requires
        match r {
            Some(i) => i < fs.len() && fs[i as int].0@ == name && forall|j: int|
                0 <= j < i ==> fs[j].0@ != name,
            None => forall|j: int| 0 <= j < fs.len() ==> fs[j].0@ != name,
        },
    ensures
        field_ty(fields_view(fs), name) == match r {
            Some(i) => Some(fs[i as int].1),
            None => None::<TypeId>,
        },
    decreases fs.len(),
{
    if fs.len() > 0 {
        assert(fields_view(fs).drop_first() =~= fields_view(fs.drop_first()));
        match r {
            Some(i) => {
                if i > 0 {
                    lemma_field_ty(fs.drop_first(), name, Some((i - 1) as usize));
                }
            },
            None => {
                lemma_field_ty(fs.drop_first(), name, None);
            },
        }
    }
}

/// The first variant named `name` in a list is the one a left-to-right
/// search finds.
pub proof fn lemma_variant_named(vs: Seq<EnumVariant>, name: Seq<char>, r: Option<usize>)
    requires
        match r {
            Some(i) => i < vs.len() && vs[i as int].name@ == name && forall|j: int|
                0 <= j < i ==> vs[j].name@ != name,
            None => forall|j: int| 0 <= j < vs.len() ==> vs[j].name@ != name,
        },
    ensures
        variant_named(variants_view(vs), name) == match r {
            Some(i) => Some(fields_view(vs[i as int].fields@)),
            None => None::<Seq<(Seq<char>, TypeId)>>,
        },
    decreases vs.len(),
{
    if vs.len() > 0 {
        assert(variants_view(vs).drop_first() =~= variants_view(vs.drop_first()));
        match r {
            Some(i) => {
                if i > 0 {
                    lemma_variant_named(vs.drop_first(), name, Some((i - 1) as usize));
                }
            },
            None => {
                lemma_variant_named(vs.drop_first(), name, None);
            },
        }
    }
}

/// The type a `let` with this written type and value gives its name.
pub open spec fn let_value_ty(
    x: TyCtx,
    env: Map<Seq<char>, LocalInfo>,
    ty: Option<Spanned<crate::ast::TypeExpr>>,
    value: SpannedExpr,
) -> TypeId {
    match ty {
        Some(te) => written_ty(x, te.node),
        None => expr_ty(x, env, value),
    }
}

/// The type a `let` gives its name: the written type (the error type when it
/// names no type), or else the type of the value.
pub open spec fn let_ty(x: TyCtx, env: Map<Seq<char>, LocalInfo>, s: SpannedStmt) -> TypeId {
    match s.node {
        Stmt::Let { ty, value, .. } => match ty {
            Some(te) => match resolved_type(x.1, x.4, x.5, x.3, te.node) {
                Some(r) => r,
                None => err_ty(),
            },
            None => expr_ty(x, env, value),
        },
        _ => TypeId(0),
    }
}

/// After a `let`, its name has the `let`'s type, whatever it meant before
/// (a `let` shadows an earlier binding of the same name).
pub proof fn law_let_binds_name(x: TyCtx, env: Map<Seq<char>, LocalInfo>, s: SpannedStmt, e: SpannedExpr)
    requires
        s.node is Let,
        e.node is Ident,
        e.node->Ident_0@ == s.node->Let_name.node@,
    ensures
        expr_ty(x, stmt_env(x, env, s), e) == let_ty(x, env, s),
{
}

/// A `let` changes the type of no other name.
pub proof fn law_let_keeps_other_names(
    x: TyCtx,
    env: Map<Seq<char>, LocalInfo>,
    s: SpannedStmt,
    e: SpannedExpr,
)
    requires
        e.node is Ident,
        s.node is Let || s.node is Expr,
        s.node is Let ==> e.node->Ident_0@ != s.node->Let_name.node@,
    ensures
        expr_ty(x, stmt_env(x, env, s), e) == expr_ty(x, env, e),
{
}

/// A binding pattern gives its name the type of the value it matches,
/// whatever the name meant before.
pub proof fn law_binding_pattern_binds(
    x: TyCtx,
    env: Map<Seq<char>, LocalInfo>,
    p: Spanned<Pattern>,
    t: TypeId,
    e: SpannedExpr,
)
    requires
        p.node is Binding,
        e.node is Ident,
        e.node->Ident_0@ == p.node->Binding_0@,
    ensures
        expr_ty(x, pattern_env(x, env, p, t), e) == t,
{
}

/// A wildcard or literal pattern binds no name.
pub proof fn law_wildcard_and_literal_bind_nothing(
    x: TyCtx,
    env: Map<Seq<char>, LocalInfo>,
    p: Spanned<Pattern>,
    t: TypeId,
)
    requires
        p.node is Wildcard || p.node is Literal,
    ensures
        pattern_env(x, env, p, t) == env,
{
}

/// `let name = value` written as a pattern gives the name the value's type.
pub proof fn law_let_pattern_binds_name(x: TyCtx, env: Map<Seq<char>, LocalInfo>, s: SpannedStmt, e: SpannedExpr)
    requires
        s.node is LetPattern,
        s.node->LetPattern_pattern.node is Binding,
        e.node is Ident,
        e.node->Ident_0@ == s.node->LetPattern_pattern.node->Binding_0@,
    ensures
        expr_ty(x, stmt_env(x, env, s), e) == expr_ty(x, env, s.node->LetPattern_value),
{
}

} // verus!
