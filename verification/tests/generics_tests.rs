// Generic functions: mangled names, instances, inferred type arguments,
// and the operator rules applied to operands of the error type.

use lib::ast::{BinOp, Block, EnumVariantDef, Expr, Param, SpannedExpr, StructField, TypeExpr, UnaryOp, VariantKind};
use lib::checker::generics::{GenericEnumDef, GenericFunctionDef, GenericImplMethod, GenericStructDef, TypeParam};
use lib::checker::Checker;
use lib::diagnostic::CheckerDiagnostic;
use lib::span::{Span, Spanned};
use lib::types::TypeId;

fn sp<T>(node: T) -> Spanned<T> {
    Spanned::new(node, Span::dummy())
}

fn ty(name: &str) -> Spanned<TypeExpr> {
    sp(TypeExpr::Named(name.to_string()))
}

fn ident(name: &str) -> SpannedExpr {
    sp(Expr::Ident(name.to_string()))
}

fn param(name: &str, ty_name: &str) -> Param {
    Param { name: name.to_string(), ty: ty(ty_name), default_value: None, is_self: false, is_mut: false }
}

fn tp(name: &str) -> TypeParam {
    TypeParam { name: name.to_string(), bounds: vec![] }
}

// fn identity<T>(x: T) -> T { x }
fn identity() -> GenericFunctionDef {
    GenericFunctionDef {
        type_params: vec![tp("T")],
        ast_params: vec![param("x", "T")],
        ast_return_type: Some(ty("T")),
        ast_body: sp(Block { stmts: vec![], tail_expr: Some(Box::new(ident("x"))) }),
        span: Span::dummy(),
    }
}

// fn pair<A, B>(a: A, b: B) {}
fn pair() -> GenericFunctionDef {
    GenericFunctionDef {
        type_params: vec![tp("A"), tp("B")],
        ast_params: vec![param("a", "A"), param("b", "B")],
        ast_return_type: None,
        ast_body: sp(Block { stmts: vec![], tail_expr: None }),
        span: Span::dummy(),
    }
}

#[test]
fn mangle_name_appends_type_names() {
    let c = Checker::new();
    let name = c.mangle_name(&"pair".to_string(), &vec![TypeId(3), TypeId(11)]);
    assert_eq!(name, "pair$i32$bool");
    let plain = c.mangle_name(&"f".to_string(), &vec![]);
    assert_eq!(plain, "f");
}

#[test]
fn monomorphize_registers_substituted_signature() {
    let mut c = Checker::new();
    let key = c.monomorphize_function(&"identity".to_string(), &identity(), &vec![TypeId(3)]);
    assert_eq!(key, Some("identity$i32".to_string()));
    let sig = c.functions.get("identity$i32").unwrap();
    assert_eq!(sig.params.len(), 1);
    assert_eq!(sig.params[0].0, "x");
    assert_eq!(sig.params[0].1, TypeId(3));
    assert_eq!(sig.return_type, TypeId(3));
    assert!(c.diagnostics.diagnostics.is_empty());
    assert!(c.functions.get("identity").is_none());
}

#[test]
fn monomorphize_reuses_registered_instance() {
    let mut c = Checker::new();
    let first = c.monomorphize_function(&"identity".to_string(), &identity(), &vec![TypeId(11)]);
    let second = c.monomorphize_function(&"identity".to_string(), &identity(), &vec![TypeId(11)]);
    assert_eq!(first, Some("identity$bool".to_string()));
    assert_eq!(second, first);
    assert!(c.diagnostics.diagnostics.is_empty());
}

#[test]
fn monomorphize_wrong_type_argument_count() {
    let mut c = Checker::new();
    let key = c.monomorphize_function(&"identity".to_string(), &identity(), &vec![TypeId(3), TypeId(4)]);
    assert_eq!(key, None);
    assert!(c.functions.get("identity$i32$i64").is_none());
}

#[test]
fn monomorphize_reports_unknown_parameter_type() {
    let mut c = Checker::new();
    let mut g = identity();
    g.ast_params = vec![param("x", "Missing")];
    let key = c.monomorphize_function(&"identity".to_string(), &g, &vec![TypeId(3)]);
    assert_eq!(key, Some("identity$i32".to_string()));
    assert_eq!(c.diagnostics.diagnostics.len(), 1);
    assert!(matches!(c.diagnostics.diagnostics[0], CheckerDiagnostic::UnknownType { .. }));
}

#[test]
fn infer_type_args_from_argument_types() {
    let c = Checker::new();
    let inferred = c.infer_type_args(&pair(), &vec![TypeId(3), TypeId(11)]);
    assert_eq!(inferred, Some(vec![TypeId(3), TypeId(11)]));
    let missing = c.infer_type_args(&pair(), &vec![TypeId(3)]);
    assert_eq!(missing, None);
}

#[test]
fn infer_type_args_skips_error_arguments() {
    let c = Checker::new();
    let inferred = c.infer_type_args(&pair(), &vec![TypeId(18), TypeId(11)]);
    assert_eq!(inferred, None);
}

#[test]
fn unify_binds_only_type_parameters() {
    let c = Checker::new();
    let mut inferred: Vec<(String, TypeId)> = vec![];
    c.unify_type_expr_with_concrete(&TypeExpr::Named("i32".to_string()), TypeId(3), &mut inferred);
    assert!(inferred.is_empty());
    c.unify_type_expr_with_concrete(&TypeExpr::Named("T".to_string()), TypeId(3), &mut inferred);
    c.unify_type_expr_with_concrete(&TypeExpr::Named("T".to_string()), TypeId(11), &mut inferred);
    assert_eq!(inferred, vec![("T".to_string(), TypeId(3))]);
}

#[test]
fn resolve_type_with_subst_prefers_type_arguments() {
    let mut c = Checker::new();
    let subst = vec![("T".to_string(), TypeId(11))];
    assert_eq!(c.resolve_type_with_subst(&ty("T"), &subst), TypeId(11));
    assert_eq!(c.resolve_type_with_subst(&ty("i64"), &subst), TypeId(4));
    assert!(c.diagnostics.diagnostics.is_empty());
}

#[test]
fn type_id_to_type_expr_names_types() {
    let c = Checker::new();
    assert!(matches!(c.type_id_to_type_expr(TypeId(0), Span::dummy()).node, TypeExpr::Unit));
    match c.type_id_to_type_expr(TypeId(3), Span::dummy()).node {
        TypeExpr::Named(n) => assert_eq!(n, "i32"),
        TypeExpr::Unit => panic!("expected a named type"),
    }
}

#[test]
fn generic_body_checks_under_instance() {
    let mut c = Checker::new();
    let key = c.monomorphize_function(&"identity".to_string(), &identity(), &vec![TypeId(3)]).unwrap();
    c.check_generic_fn_body(&key, &identity());
    assert!(c.diagnostics.diagnostics.is_empty());
}

#[test]
fn binary_with_error_operand_reports_nothing() {
    let mut c = Checker::new();
    let e = sp(Expr::Binary { op: BinOp::Add, left: Box::new(ident("a")), right: Box::new(ident("b")) });
    let t = c.apply_binary(&e, TypeId(18), TypeId(3));
    assert_eq!(t, TypeId(18));
    assert!(c.diagnostics.diagnostics.is_empty());
    let t2 = c.apply_binary(&e, TypeId(3), TypeId(11));
    assert_eq!(t2, TypeId(18));
    assert_eq!(c.diagnostics.diagnostics.len(), 1);
    assert!(matches!(c.diagnostics.diagnostics[0], CheckerDiagnostic::TypeMismatch { .. }));
}

#[test]
fn unary_with_error_operand_reports_nothing() {
    let mut c = Checker::new();
    let e = sp(Expr::Unary { op: UnaryOp::Not, operand: Box::new(ident("a")) });
    assert_eq!(c.apply_unary(&e, TypeId(18)), TypeId(18));
    assert!(c.diagnostics.diagnostics.is_empty());
    assert_eq!(c.apply_unary(&e, TypeId(11)), TypeId(11));
    assert_eq!(c.apply_unary(&e, TypeId(3)), TypeId(18));
    assert_eq!(c.diagnostics.diagnostics.len(), 1);
}

#[test]
fn cast_with_error_operand_reports_nothing() {
    let mut c = Checker::new();
    let e = sp(Expr::Cast { expr: Box::new(ident("a")), target_type: ty("i64") });
    assert_eq!(c.apply_cast(&e, TypeId(18), TypeId(4)), TypeId(18));
    assert!(c.diagnostics.diagnostics.is_empty());
    assert_eq!(c.apply_cast(&e, TypeId(3), TypeId(4)), TypeId(4));
    assert!(c.diagnostics.diagnostics.is_empty());
}

#[test]
fn fresh_checker_holds_builtin_types() {
    let c = Checker::new();
    assert_eq!(c.types.display_name(TypeId(3)), "i32");
    assert_eq!(c.types.display_name(TypeId(11)), "bool");
    assert_eq!(c.types.display_name(TypeId(0)), "unit");
}

fn struct_field(name: &str, ty_name: &str) -> StructField {
    StructField { name: name.to_string(), ty: ty(ty_name), is_pub: true }
}

#[test]
fn monomorphize_struct_registers_instance() {
    let mut c = Checker::new();
    let g = GenericStructDef { type_params: vec![tp("T")], fields: vec![struct_field("value", "T")], span: Span::dummy() };
    let id = c.monomorphize_struct_concrete(&"Holder".to_string(), &g, &vec![TypeId(3)]).unwrap();
    assert!(c.structs.iter().any(|(n, t)| n == "Holder$i32" && *t == id));
    assert_eq!(c.types.display_name(id), "Holder$i32");
    let again = c.monomorphize_struct_concrete(&"Holder".to_string(), &g, &vec![TypeId(3)]);
    assert_eq!(again, Some(id));
    let other = c.monomorphize_struct_concrete(&"Holder".to_string(), &g, &vec![TypeId(11)]).unwrap();
    assert_ne!(other, id);
    assert!(c.diagnostics.diagnostics.is_empty());
    assert_eq!(c.monomorphize_struct_concrete(&"Holder".to_string(), &g, &vec![]), None);
}

#[test]
fn monomorphize_enum_registers_instance() {
    let mut c = Checker::new();
    let g = GenericEnumDef {
        type_params: vec![tp("T")],
        variants: vec![
            EnumVariantDef { name: "Some".to_string(), kind: VariantKind::Tuple(vec![ty("T")]) },
            EnumVariantDef { name: "None".to_string(), kind: VariantKind::Unit },
        ],
        span: Span::dummy(),
    };
    let id = c.monomorphize_enum_concrete(&"Maybe".to_string(), &g, &vec![TypeId(11)]).unwrap();
    assert!(c.enums.iter().any(|(n, t)| n == "Maybe$bool" && *t == id));
    assert_eq!(c.monomorphize_enum_concrete(&"Maybe".to_string(), &g, &vec![TypeId(11)]), Some(id));
    assert!(c.diagnostics.diagnostics.is_empty());
}

// impl<T> Holder<T> { fn get(self) -> T { ... } fn make(v: T) -> Self { ... } }
fn holder_methods() -> Vec<GenericImplMethod> {
    let receiver = Param { name: "self".to_string(), ty: ty("Self"), default_value: None, is_self: true, is_mut: false };
    vec![
        GenericImplMethod {
            type_params: vec![tp("T")],
            method_name: "get".to_string(),
            ast_params: vec![receiver],
            ast_return_type: Some(ty("T")),
            ast_body: sp(Block { stmts: vec![], tail_expr: None }),
            span: Span::dummy(),
            is_pub: true,
        },
        GenericImplMethod {
            type_params: vec![tp("T")],
            method_name: "make".to_string(),
            ast_params: vec![param("v", "T")],
            ast_return_type: Some(ty("Self")),
            ast_body: sp(Block { stmts: vec![], tail_expr: None }),
            span: Span::dummy(),
            is_pub: false,
        },
    ]
}

#[test]
fn instantiate_impl_methods_registers_each_method() {
    let mut c = Checker::new();
    let g = GenericStructDef { type_params: vec![tp("T")], fields: vec![struct_field("value", "T")], span: Span::dummy() };
    let id = c.monomorphize_struct_concrete(&"Holder".to_string(), &g, &vec![TypeId(3)]).unwrap();
    let subst = vec![("T".to_string(), TypeId(3))];
    c.instantiate_impl_methods(&"Holder$i32".to_string(), id, &holder_methods(), &subst);
    let get = c.functions.get("Holder$i32__get").unwrap();
    assert_eq!(get.params[0].1, id);
    assert_eq!(get.return_type, TypeId(3));
    assert!(get.is_method);
    let make = c.functions.get("Holder$i32__make").unwrap();
    assert_eq!(make.params[0].1, TypeId(3));
    assert_eq!(make.return_type, id);
    assert!(!make.is_method);
    assert!(c.diagnostics.diagnostics.is_empty());
}

#[test]
fn check_generic_impl_block_checks_each_body() {
    let mut c = Checker::new();
    let g = GenericStructDef { type_params: vec![tp("T")], fields: vec![struct_field("value", "T")], span: Span::dummy() };
    let id = c.monomorphize_struct_concrete(&"Holder".to_string(), &g, &vec![TypeId(3)]).unwrap();
    let subst = vec![("T".to_string(), TypeId(3))];
    c.instantiate_impl_methods(&"Holder$i32".to_string(), id, &holder_methods(), &subst);
    c.check_generic_impl_block(&"Holder$i32".to_string(), &holder_methods());
    // Both bodies are empty blocks while the methods declare non-unit returns.
    assert_eq!(c.diagnostics.diagnostics.len(), 2);
    assert!(c.diagnostics.diagnostics.iter().all(|d| matches!(d, CheckerDiagnostic::ReturnTypeMismatch { .. })));
}
