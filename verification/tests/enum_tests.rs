// Enums, variant constructors and `match`, checked and lowered.  Each
// program is written out as the syntax tree the parser gives for the source
// text quoted above it.

use lib::ast::{
    BinOp, Block, CallArg, EnumVariantDef, Expr, Item, Literal, MatchArm, Module, Param, Pattern,
    SpannedExpr, SpannedItem, SpannedStmt, Stmt, StructField, TypeExpr, VariantKind,
};
use lib::checker::{CheckedModule, Checker};
use lib::diagnostic::DiagnosticBag;
use lib::ir::{ConstValue, Instruction, Program, Terminator};
use lib::lower::Lowerer;
use lib::span::{Span, Spanned};
use lib::types::TypeKind;

fn sp<T>(node: T) -> Spanned<T> {
    Spanned::new(node, Span::dummy())
}

fn ty(name: &str) -> Spanned<TypeExpr> {
    sp(TypeExpr::Named(name.to_string()))
}

fn ident(name: &str) -> SpannedExpr {
    sp(Expr::Ident(name.to_string()))
}

fn int_lit(text: &str) -> SpannedExpr {
    sp(Expr::Literal(Literal::Int(text.to_string(), None)))
}

fn string(text: &str) -> SpannedExpr {
    sp(Expr::Literal(Literal::String(text.to_string())))
}

fn arg(value: SpannedExpr) -> CallArg {
    CallArg { name: None, value }
}

fn static_call(owner: &str, method: &str, args: Vec<CallArg>) -> SpannedExpr {
    sp(Expr::StaticCall { owner: owner.to_string(), method: method.to_string(), args })
}

fn method_call(object: SpannedExpr, method: &str, args: Vec<CallArg>) -> SpannedExpr {
    sp(Expr::MethodCall { object: Box::new(object), method: method.to_string(), args })
}

fn enum_lit(enum_name: &str, variant: &str, args: Vec<SpannedExpr>) -> SpannedExpr {
    sp(Expr::EnumLiteral { enum_name: enum_name.to_string(), variant: variant.to_string(), args })
}

fn binary(op: BinOp, left: SpannedExpr, right: SpannedExpr) -> SpannedExpr {
    sp(Expr::Binary { op, left: Box::new(left), right: Box::new(right) })
}

fn block(stmts: Vec<SpannedStmt>, tail: Option<SpannedExpr>) -> Block {
    Block { stmts, tail_expr: tail.map(Box::new) }
}

fn expr_stmt(e: SpannedExpr) -> SpannedStmt {
    sp(Stmt::Expr(e))
}

fn let_stmt(name: &str, ty_name: Option<&str>, value: SpannedExpr) -> SpannedStmt {
    sp(Stmt::Let { name: sp(name.to_string()), ty: ty_name.map(ty), value, is_mut: false })
}

fn param(name: &str, ty_name: &str) -> Param {
    Param { name: name.to_string(), ty: ty(ty_name), default_value: None, is_self: false, is_mut: false }
}

fn self_param() -> Param {
    Param { name: "self".to_string(), ty: ty("Self"), default_value: None, is_self: true, is_mut: false }
}

fn func(name: &str, params: Vec<Param>, ret: Option<&str>, body: Block) -> SpannedItem {
    sp(Item::FnDef { name: name.to_string(), params, return_type: ret.map(ty), body: sp(body), is_pub: false })
}

fn main_with(stmts: Vec<SpannedStmt>) -> SpannedItem {
    func("main", vec![], None, block(stmts, None))
}

fn struct_def(name: &str, fields: Vec<(&str, &str)>) -> SpannedItem {
    sp(Item::StructDef {
        name: name.to_string(),
        fields: fields
            .into_iter()
            .map(|(n, t)| StructField { name: n.to_string(), ty: ty(t), is_pub: false })
            .collect(),
        is_pub: false,
        is_extern: false,
    })
}

fn shape_enum() -> SpannedItem {
    // enum Shape { Circle(i32), Rect(i32, i32), Empty }
    sp(Item::EnumDef {
        name: "Shape".to_string(),
        variants: vec![
            EnumVariantDef { name: "Circle".to_string(), kind: VariantKind::Tuple(vec![ty("i32")]) },
            EnumVariantDef {
                name: "Rect".to_string(),
                kind: VariantKind::Tuple(vec![ty("i32"), ty("i32")]),
            },
            EnumVariantDef { name: "Empty".to_string(), kind: VariantKind::Unit },
        ],
        is_pub: false,
    })
}

fn pat(p: Pattern) -> Spanned<Pattern> {
    sp(p)
}

fn bind(name: &str) -> Spanned<Pattern> {
    pat(Pattern::Binding(name.to_string()))
}

fn variant_pat(enum_name: &str, variant: &str, fields: Vec<Spanned<Pattern>>) -> Spanned<Pattern> {
    pat(Pattern::Enum { enum_name: Some(enum_name.to_string()), variant: variant.to_string(), fields })
}

fn arm(pattern: Spanned<Pattern>, body: SpannedExpr) -> MatchArm {
    MatchArm { pattern, guard: None, body }
}

fn match_expr(scrutinee: SpannedExpr, arms: Vec<MatchArm>) -> SpannedExpr {
    sp(Expr::Match { scrutinee: Box::new(scrutinee), arms })
}

fn area_match(scrutinee: SpannedExpr) -> SpannedExpr {
    // match s { Shape::Circle(r) => r, Shape::Rect(w, h) => w * h, _ => 0 }
    match_expr(
        scrutinee,
        vec![
            arm(variant_pat("Shape", "Circle", vec![bind("r")]), ident("r")),
            arm(
                variant_pat("Shape", "Rect", vec![bind("w"), bind("h")]),
                binary(BinOp::Mul, ident("w"), ident("h")),
            ),
            arm(pat(Pattern::Wildcard), int_lit("0")),
        ],
    )
}

fn check_module(items: Vec<SpannedItem>) -> (CheckedModule, DiagnosticBag) {
    Checker::new().check(&Module { items })
}

fn messages(diags: &DiagnosticBag) -> Vec<String> {
    diags.reports().into_iter().map(|r| r.message).collect()
}

fn lower_module(items: Vec<SpannedItem>) -> Program {
    let module = Module { items };
    let (checked, diags) = Checker::new().check(&module);
    assert!(!diags.has_errors(), "checker errors: {:?}", diags.reports());
    Lowerer::new(checked).lower(&module)
}

fn main_insts(program: &Program) -> Vec<&Instruction> {
    let f = program
        .functions
        .iter()
        .find(|f| program.interner.resolve(f.name) == "main")
        .expect("main is lowered");
    f.blocks.iter().flat_map(|b| b.instructions.iter()).collect()
}

#[test]
fn enum_definition_is_registered_with_its_variants() {
    // enum Shape { Circle(i32), Rect(i32, i32), Empty }
    // fn main() {}
    let (checked, diags) = check_module(vec![shape_enum(), main_with(vec![])]);
    assert!(!diags.has_errors(), "{:?}", messages(&diags));
    let (_, id) = checked.enums.iter().find(|(n, _)| n == "Shape").expect("Shape is registered");
    match checked.types.resolve(*id) {
        TypeKind::Enum { name, variants } => {
            assert_eq!(name, "Shape");
            let names: Vec<&str> = variants.iter().map(|v| v.name.as_str()).collect();
            assert_eq!(names, vec!["Circle", "Rect", "Empty"]);
            let rect: Vec<&str> = variants[1].fields.iter().map(|(n, _)| n.as_str()).collect();
            assert_eq!(rect, vec!["0", "1"]);
            assert!(variants[2].fields.is_empty());
        },
        other => panic!("not an enum: {:?}", other),
    }
}

#[test]
fn enum_with_struct_variant_names_its_fields() {
    // enum Msg { Move { x: i32, y: i64 } }
    // fn main() {}
    let msg = sp(Item::EnumDef {
        name: "Msg".to_string(),
        variants: vec![EnumVariantDef {
            name: "Move".to_string(),
            kind: VariantKind::Struct(vec![
                StructField { name: "x".to_string(), ty: ty("i32"), is_pub: false },
                StructField { name: "y".to_string(), ty: ty("i64"), is_pub: false },
            ]),
        }],
        is_pub: false,
    });
    let (checked, diags) = check_module(vec![msg, main_with(vec![])]);
    assert!(!diags.has_errors(), "{:?}", messages(&diags));
    let (_, id) = checked.enums.iter().find(|(n, _)| n == "Msg").unwrap();
    match checked.types.resolve(*id) {
        TypeKind::Enum { variants, .. } => {
            let names: Vec<&str> = variants[0].fields.iter().map(|(n, _)| n.as_str()).collect();
            assert_eq!(names, vec!["x", "y"]);
        },
        other => panic!("not an enum: {:?}", other),
    }
}

#[test]
fn enum_named_like_a_struct_is_a_duplicate_type() {
    // struct Shape { a: i32 }
    // enum Shape { Circle(i32), Rect(i32, i32), Empty }
    let (_, diags) = check_module(vec![struct_def("Shape", vec![("a", "i32")]), shape_enum(), main_with(vec![])]);
    assert_eq!(messages(&diags), vec!["duplicate type 'Shape'".to_string()]);
}

#[test]
fn enum_defined_twice_is_a_duplicate_type() {
    let (_, diags) = check_module(vec![shape_enum(), shape_enum(), main_with(vec![])]);
    assert_eq!(messages(&diags), vec!["duplicate type 'Shape'".to_string()]);
}

#[test]
fn variant_constructor_has_the_enum_type() {
    // fn main() { let s: Shape = Shape::Rect(2, 3); let e: Shape = Shape::Empty; }
    let (_, diags) = check_module(vec![
        shape_enum(),
        main_with(vec![
            let_stmt("s", Some("Shape"), static_call("Shape", "Rect", vec![arg(int_lit("2")), arg(int_lit("3"))])),
            let_stmt("e", Some("Shape"), enum_lit("Shape", "Empty", vec![])),
        ]),
    ]);
    assert!(!diags.has_errors(), "{:?}", messages(&diags));
}

#[test]
fn variant_constructor_with_wrong_argument_count() {
    // fn main() { let s = Shape::Rect(2); }
    let (_, diags) = check_module(vec![
        shape_enum(),
        main_with(vec![let_stmt("s", None, static_call("Shape", "Rect", vec![arg(int_lit("2"))]))]),
    ]);
    assert_eq!(messages(&diags), vec!["expected 2 argument(s), found 1".to_string()]);
}

#[test]
fn variant_constructor_with_wrong_argument_type() {
    // fn main() { let s = Shape::Circle("x"); }
    let (_, diags) = check_module(vec![
        shape_enum(),
        main_with(vec![let_stmt("s", None, static_call("Shape", "Circle", vec![arg(string("x"))]))]),
    ]);
    assert_eq!(messages(&diags), vec!["type mismatch: expected 'i32', found 'string'".to_string()]);
}

#[test]
fn variant_literal_of_unknown_variant() {
    // fn main() { let s = Shape::Triangle; }
    let (_, diags) = check_module(vec![
        shape_enum(),
        main_with(vec![let_stmt("s", None, enum_lit("Shape", "Triangle", vec![]))]),
    ]);
    assert_eq!(messages(&diags), vec!["struct 'Shape' has no field 'Triangle'".to_string()]);
}

#[test]
fn variant_literal_of_unknown_enum() {
    // fn main() { let s = Color::Red; }
    let (_, diags) = check_module(vec![main_with(vec![let_stmt("s", None, enum_lit("Color", "Red", vec![]))])]);
    assert_eq!(messages(&diags), vec!["undefined struct 'Color'".to_string()]);
}

#[test]
fn variant_literal_with_arguments_checks_them() {
    // fn main() { let s = Shape::Rect(1, "two"); }
    let (_, diags) = check_module(vec![
        shape_enum(),
        main_with(vec![let_stmt("s", None, enum_lit("Shape", "Rect", vec![int_lit("1"), string("two")]))]),
    ]);
    assert_eq!(messages(&diags), vec!["type mismatch: expected 'i32', found 'string'".to_string()]);
}

#[test]
fn match_binds_variant_fields_with_their_types() {
    // fn area(s: Shape) -> i32 { match s { Shape::Circle(r) => r, Shape::Rect(w, h) => w * h, _ => 0 } }
    let (_, diags) = check_module(vec![
        shape_enum(),
        func("area", vec![param("s", "Shape")], Some("i32"), block(vec![], Some(area_match(ident("s"))))),
        main_with(vec![]),
    ]);
    assert!(!diags.has_errors(), "{:?}", messages(&diags));
}

#[test]
fn match_arms_must_agree_in_type() {
    // fn main() { let s = Shape::Empty; let x = match s { Shape::Circle(r) => r, _ => "none" }; }
    let (_, diags) = check_module(vec![
        shape_enum(),
        main_with(vec![
            let_stmt("s", None, enum_lit("Shape", "Empty", vec![])),
            let_stmt(
                "x",
                None,
                match_expr(
                    ident("s"),
                    vec![
                        arm(variant_pat("Shape", "Circle", vec![bind("r")]), ident("r")),
                        arm(pat(Pattern::Wildcard), string("none")),
                    ],
                ),
            ),
        ]),
    ]);
    assert_eq!(messages(&diags), vec!["type mismatch: expected 'i32', found 'string'".to_string()]);
}

#[test]
fn match_guard_must_be_bool() {
    // fn main() { let n = match 5 { x if 1 => x, _ => 0 }; }
    let guarded = MatchArm { pattern: bind("x"), guard: Some(Box::new(int_lit("1"))), body: ident("x") };
    let (_, diags) = check_module(vec![main_with(vec![let_stmt(
        "n",
        None,
        match_expr(int_lit("5"), vec![guarded, arm(pat(Pattern::Wildcard), int_lit("0"))]),
    )])]);
    assert_eq!(messages(&diags), vec!["type mismatch: expected 'bool', found 'i32'".to_string()]);
}

#[test]
fn match_type_is_that_of_the_first_arm_that_does_not_diverge() {
    // fn f(n: i32) -> i32 { let v: i32 = match n { 0 => return 1, m => m }; v }
    let (_, diags) = check_module(vec![
        func(
            "f",
            vec![param("n", "i32")],
            Some("i32"),
            block(
                vec![let_stmt(
                    "v",
                    Some("i32"),
                    match_expr(
                        ident("n"),
                        vec![
                            arm(pat(Pattern::Literal(Literal::Int("0".to_string(), None))), sp(Expr::Return(Some(Box::new(int_lit("1")))))),
                            arm(bind("m"), ident("m")),
                        ],
                    ),
                )],
                Some(ident("v")),
            ),
        ),
        main_with(vec![]),
    ]);
    assert!(!diags.has_errors(), "{:?}", messages(&diags));
}

#[test]
fn match_without_arms_is_unit() {
    // fn main() { let u: i32 = match 1 {}; }
    let (_, diags) = check_module(vec![main_with(vec![let_stmt("u", Some("i32"), match_expr(int_lit("1"), vec![]))])]);
    assert_eq!(messages(&diags), vec!["type mismatch: expected 'i32', found 'unit'".to_string()]);
}

#[test]
fn pattern_bindings_end_with_their_arm() {
    // fn main() { let x = match 1 { r => r }; let y = r; }
    let (_, diags) = check_module(vec![main_with(vec![
        let_stmt("x", None, match_expr(int_lit("1"), vec![arm(bind("r"), ident("r"))])),
        let_stmt("y", None, ident("r")),
    ])]);
    assert_eq!(messages(&diags), vec!["undefined variable 'r'".to_string()]);
}

#[test]
fn struct_pattern_binds_fields() {
    // struct P { x: i32, y: string }
    // fn f(p: P) -> i32 { match p { P { x: a, y: b } => a } }
    let struct_pat = pat(Pattern::Struct {
        name: "P".to_string(),
        fields: vec![("x".to_string(), bind("a")), ("y".to_string(), bind("b"))],
    });
    let (_, diags) = check_module(vec![
        struct_def("P", vec![("x", "i32"), ("y", "string")]),
        func(
            "f",
            vec![param("p", "P")],
            Some("i32"),
            block(vec![], Some(match_expr(ident("p"), vec![arm(struct_pat, ident("a"))]))),
        ),
        main_with(vec![]),
    ]);
    assert!(!diags.has_errors(), "{:?}", messages(&diags));
}

#[test]
fn methods_can_be_defined_on_enums() {
    // impl Shape { fn area(self) -> i32 { match self { ... } } }
    // fn main() { let s = Shape::Circle(4); let a: i32 = s.area(); }
    let (checked, diags) = check_module(vec![
        shape_enum(),
        sp(Item::ImplBlock {
            self_type: "Shape".to_string(),
            methods: vec![func("area", vec![self_param()], Some("i32"), block(vec![], Some(area_match(ident("self")))))],
        }),
        main_with(vec![
            let_stmt("s", None, static_call("Shape", "Circle", vec![arg(int_lit("4"))])),
            let_stmt("a", Some("i32"), method_call(ident("s"), "area", vec![])),
        ]),
    ]);
    assert!(!diags.has_errors(), "{:?}", messages(&diags));
    assert!(checked.functions.contains_key("Shape__area"));
}

#[test]
fn lowered_variant_stores_tag_then_fields() {
    // fn main() { let s = Shape::Rect(2, 3); }
    let program = lower_module(vec![
        shape_enum(),
        main_with(vec![let_stmt("s", None, static_call("Shape", "Rect", vec![arg(int_lit("2")), arg(int_lit("3"))]))]),
    ]);
    let insts = main_insts(&program);
    assert!(matches!(insts[0], Instruction::Alloc(_, _)));
    assert!(matches!(insts[1], Instruction::Const(_, ConstValue::I32(1))));
    assert!(matches!(insts[2], Instruction::Store(_, 0, _)));
    assert!(insts.iter().any(|i| matches!(i, Instruction::Store(_, 1, _))));
    assert!(insts.iter().any(|i| matches!(i, Instruction::Store(_, 2, _))));
    // The enum value held by `s` is released when `main`'s block ends.
    assert!(insts.iter().any(|i| matches!(i, Instruction::Release(_, Some(_)))));
}

#[test]
fn lowered_unit_variant_stores_only_its_tag() {
    // fn main() { let e = Shape::Empty; }
    let program = lower_module(vec![shape_enum(), main_with(vec![let_stmt("e", None, enum_lit("Shape", "Empty", vec![]))])]);
    let insts = main_insts(&program);
    assert!(matches!(insts[0], Instruction::Alloc(_, _)));
    assert!(matches!(insts[1], Instruction::Const(_, ConstValue::I32(2))));
    assert!(matches!(insts[2], Instruction::Store(_, 0, _)));
    assert!(!insts.iter().any(|i| matches!(i, Instruction::Store(_, 1, _))));
}

#[test]
fn lowered_match_compares_tags_and_loads_fields() {
    // fn area(s: Shape) -> i32 { match s { Shape::Circle(r) => r, Shape::Rect(w, h) => w * h, _ => 0 } }
    let program = lower_module(vec![
        shape_enum(),
        func("area", vec![param("s", "Shape")], Some("i32"), block(vec![], Some(area_match(ident("s"))))),
        main_with(vec![]),
    ]);
    let f = program.functions.iter().find(|f| program.interner.resolve(f.name) == "area").unwrap();
    let insts: Vec<&Instruction> = f.blocks.iter().flat_map(|b| b.instructions.iter()).collect();
    // The tag is loaded once from field 0.
    assert_eq!(insts.iter().filter(|i| matches!(i, Instruction::Load(_, _, 0))).count(), 1);
    // Each variant arm compares the tag with its own.
    assert!(insts.iter().any(|i| matches!(i, Instruction::Const(_, ConstValue::I32(0)))));
    assert!(insts.iter().any(|i| matches!(i, Instruction::Const(_, ConstValue::I32(1)))));
    assert_eq!(insts.iter().filter(|i| matches!(i, Instruction::Eq(_, _, _))).count(), 2);
    // Bound fields are loaded from fields 1 and 2.
    assert_eq!(insts.iter().filter(|i| matches!(i, Instruction::Load(_, _, 1))).count(), 2);
    assert_eq!(insts.iter().filter(|i| matches!(i, Instruction::Load(_, _, 2))).count(), 1);
    // Two conditional branches, one per variant arm.
    let branches = f.blocks.iter().filter(|b| matches!(b.terminator, Terminator::Branch(_, _, _))).count();
    assert_eq!(branches, 2);
    // Every arm copies its value into the result.
    assert_eq!(insts.iter().filter(|i| matches!(i, Instruction::Copy(_, _))).count(), 3);
    assert!(matches!(f.blocks.last().unwrap().terminator, Terminator::Return(_)));
}

#[test]
fn lowered_literal_match_compares_values() {
    // fn f(n: i32) -> i32 { match n { 1 => 10, _ => 20 } }
    let program = lower_module(vec![
        func(
            "f",
            vec![param("n", "i32")],
            Some("i32"),
            block(
                vec![],
                Some(match_expr(
                    ident("n"),
                    vec![
                        arm(pat(Pattern::Literal(Literal::Int("1".to_string(), None))), int_lit("10")),
                        arm(pat(Pattern::Wildcard), int_lit("20")),
                    ],
                )),
            ),
        ),
        main_with(vec![]),
    ]);
    let f = program.functions.iter().find(|f| program.interner.resolve(f.name) == "f").unwrap();
    let insts: Vec<&Instruction> = f.blocks.iter().flat_map(|b| b.instructions.iter()).collect();
    assert!(insts.iter().any(|i| matches!(i, Instruction::Const(_, ConstValue::I32(1)))));
    assert_eq!(insts.iter().filter(|i| matches!(i, Instruction::Eq(_, _, _))).count(), 1);
    assert!(!insts.iter().any(|i| matches!(i, Instruction::Load(_, _, _))));
    assert_eq!(insts.iter().filter(|i| matches!(i, Instruction::Copy(_, _))).count(), 2);
}

#[test]
fn lowered_match_without_a_catch_all_defaults_to_unit() {
    // fn main() { let s = Shape::Empty; match s { Shape::Empty => 1 }; }
    let program = lower_module(vec![
        shape_enum(),
        main_with(vec![
            let_stmt("s", None, enum_lit("Shape", "Empty", vec![])),
            expr_stmt(match_expr(ident("s"), vec![arm(variant_pat("Shape", "Empty", vec![]), int_lit("1"))])),
        ]),
    ]);
    let insts = main_insts(&program);
    assert!(insts.iter().any(|i| matches!(i, Instruction::ConstUnit(_))));
}

#[test]
fn enum_parameters_are_released_on_return() {
    // fn area(s: Shape) -> i32 { match s { ... } }
    let program = lower_module(vec![
        shape_enum(),
        func("area", vec![param("s", "Shape")], Some("i32"), block(vec![], Some(area_match(ident("s"))))),
        main_with(vec![]),
    ]);
    let f = program.functions.iter().find(|f| program.interner.resolve(f.name) == "area").unwrap();
    let last = f.blocks.last().unwrap();
    assert!(last.instructions.iter().any(|i| matches!(i, Instruction::Release(r, Some(_)) if r.0 == 0)));
    assert!(matches!(last.terminator, Terminator::Return(_)));
}

#[test]
fn lowered_method_call_on_an_enum_calls_the_mangled_method() {
    // impl Shape { fn area(self) -> i32 { match self { ... } } }
    // fn main() { let s = Shape::Circle(4); let a = s.area(); }
    let program = lower_module(vec![
        shape_enum(),
        sp(Item::ImplBlock {
            self_type: "Shape".to_string(),
            methods: vec![func("area", vec![self_param()], Some("i32"), block(vec![], Some(area_match(ident("self")))))],
        }),
        main_with(vec![
            let_stmt("s", None, static_call("Shape", "Circle", vec![arg(int_lit("4"))])),
            let_stmt("a", None, method_call(ident("s"), "area", vec![])),
        ]),
    ]);
    let insts = main_insts(&program);
    assert!(insts.iter().any(|i| matches!(
        i,
        Instruction::Call(_, lib::ir::FunctionRef::Named(s), _) if program.interner.resolve(*s) == "Shape__area"
    )));
}

fn let_pattern(pattern: Spanned<Pattern>, value: SpannedExpr, is_mut: bool) -> SpannedStmt {
    sp(Stmt::LetPattern { pattern, ty: None, value, is_mut })
}

fn point_pattern() -> Spanned<Pattern> {
    // P { x: a, y: b }
    pat(Pattern::Struct { name: "P".to_string(), fields: vec![("x".to_string(), bind("a")), ("y".to_string(), bind("b"))] })
}

#[test]
fn let_with_a_struct_pattern_binds_field_types() {
    // struct P { x: i32, y: string }
    // fn f(p: P) -> string { let P { x: a, y: b } = p; let n: i32 = a; b }
    let (_, diags) = check_module(vec![
        struct_def("P", vec![("x", "i32"), ("y", "string")]),
        func(
            "f",
            vec![param("p", "P")],
            Some("string"),
            block(vec![let_pattern(point_pattern(), ident("p"), false), let_stmt("n", Some("i32"), ident("a"))], Some(ident("b"))),
        ),
        main_with(vec![]),
    ]);
    assert!(!diags.has_errors(), "{:?}", messages(&diags));
}

#[test]
fn let_pattern_bindings_are_immutable_unless_declared_mut() {
    // fn f(p: P) { let P { x: a, y: b } = p; a = 1; }
    let assign = sp(Expr::Assign { target: Box::new(ident("a")), value: Box::new(int_lit("1")) });
    let (_, diags) = check_module(vec![
        struct_def("P", vec![("x", "i32"), ("y", "string")]),
        func(
            "f",
            vec![param("p", "P")],
            None,
            block(vec![let_pattern(point_pattern(), ident("p"), false), expr_stmt(assign)], None),
        ),
        main_with(vec![]),
    ]);
    assert_eq!(messages(&diags), vec!["cannot assign to immutable variable 'a'".to_string()]);
}

#[test]
fn let_with_a_variant_pattern_binds_the_error_type() {
    // fn main() { let s = Shape::Circle(1); let Shape::Circle(r) = s; let t: string = r; }
    let (_, diags) = check_module(vec![
        shape_enum(),
        main_with(vec![
            let_stmt("s", None, static_call("Shape", "Circle", vec![arg(int_lit("1"))])),
            let_pattern(variant_pat("Shape", "Circle", vec![bind("r")]), ident("s"), false),
            let_stmt("t", Some("string"), ident("r")),
        ]),
    ]);
    assert!(!diags.has_errors(), "{:?}", messages(&diags));
}

#[test]
fn lowered_let_pattern_loads_the_fields() {
    // fn f(p: P) -> i32 { let P { x: a, y: b } = p; a }
    let program = lower_module(vec![
        struct_def("P", vec![("x", "i32"), ("y", "string")]),
        func("f", vec![param("p", "P")], Some("i32"), block(vec![let_pattern(point_pattern(), ident("p"), false)], Some(ident("a")))),
        main_with(vec![]),
    ]);
    let f = program.functions.iter().find(|f| program.interner.resolve(f.name) == "f").unwrap();
    let insts: Vec<&Instruction> = f.blocks.iter().flat_map(|b| b.instructions.iter()).collect();
    let a_reg = insts
        .iter()
        .find_map(|i| if let Instruction::Load(d, _, 0) = i { Some(*d) } else { None })
        .expect("field x is loaded");
    assert!(insts.iter().any(|i| matches!(i, Instruction::Load(_, _, 1))));
    match f.blocks.last().unwrap().terminator {
        Terminator::Return(r) => assert_eq!(r, a_reg),
        ref t => panic!("unexpected terminator {:?}", t),
    }
}

#[test]
fn enums_are_completion_symbols() {
    // enum Shape { .. }  struct P { x: i32 }  fn helper() {}  fn main() {}
    let (checked, diags) = check_module(vec![
        shape_enum(),
        struct_def("P", vec![("x", "i32")]),
        func("helper", vec![], None, block(vec![], None)),
        main_with(vec![]),
    ]);
    assert!(!diags.has_errors(), "{:?}", messages(&diags));
    let symbols: Vec<(&str, lib::symbol_table::SymbolKind)> =
        checked.symbol_table.file_symbols.iter().map(|(n, k, _, _)| (n.as_str(), *k)).collect();
    assert!(symbols.contains(&("Shape", lib::symbol_table::SymbolKind::Enum)));
    assert!(symbols.contains(&("P", lib::symbol_table::SymbolKind::Struct)));
    assert!(symbols.contains(&("helper", lib::symbol_table::SymbolKind::Function)));
    assert!(symbols.contains(&("main", lib::symbol_table::SymbolKind::Function)));
    // Built-in functions are not offered.
    assert!(!symbols.iter().any(|(n, _)| n.starts_with("__")));
    // Functions come first, then structs, then enums.
    let p_at = symbols.iter().position(|s| s.0 == "P").unwrap();
    let shape_at = symbols.iter().position(|s| s.0 == "Shape").unwrap();
    let helper_at = symbols.iter().position(|s| s.0 == "helper").unwrap();
    assert!(helper_at < p_at && p_at < shape_at);
}
