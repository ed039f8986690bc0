// Each program is written out as the syntax tree the parser gives for the
// source text quoted above it.

use lib::ast::{
    BinOp, Block, CallArg, Expr, ExternFnDecl, Item, Literal, Module, Param, SpannedExpr,
    SpannedItem, SpannedStmt, Stmt, StructField, TypeExpr,
};
use lib::checker::{CheckedModule, Checker, FunctionKind};
use lib::diagnostic::{CheckerDiagnostic, DiagnosticBag};
use lib::types::TypeId;
use lib::span::{Span, Spanned};

fn sp<T>(node: T) -> Spanned<T> {
    Spanned::new(node, Span::dummy())
}

fn ty(name: &str) -> Spanned<TypeExpr> {
    sp(TypeExpr::Named(name.to_string()))
}

fn ident(name: &str) -> SpannedExpr {
    sp(Expr::Ident(name.to_string()))
}

fn int_lit(text: &str) -> SpannedExpr {
    sp(Expr::Literal(Literal::Int(text.to_string(), None)))
}

fn string(text: &str) -> SpannedExpr {
    sp(Expr::Literal(Literal::String(text.to_string())))
}

fn boolean(b: bool) -> SpannedExpr {
    sp(Expr::Literal(Literal::Bool(b)))
}

fn arg(value: SpannedExpr) -> CallArg {
    CallArg { name: None, value }
}

fn named(name: &str, value: SpannedExpr) -> CallArg {
    CallArg { name: Some(name.to_string()), value }
}

fn call(name: &str, args: Vec<CallArg>) -> SpannedExpr {
    sp(Expr::Call { callee: Box::new(ident(name)), args })
}

fn static_call(owner: &str, method: &str, args: Vec<CallArg>) -> SpannedExpr {
    sp(Expr::StaticCall { owner: owner.to_string(), method: method.to_string(), args })
}

fn method_call(object: SpannedExpr, method: &str, args: Vec<CallArg>) -> SpannedExpr {
    sp(Expr::MethodCall { object: Box::new(object), method: method.to_string(), args })
}

fn binary(op: BinOp, left: SpannedExpr, right: SpannedExpr) -> SpannedExpr {
    sp(Expr::Binary { op, left: Box::new(left), right: Box::new(right) })
}

fn assign(target: SpannedExpr, value: SpannedExpr) -> SpannedExpr {
    sp(Expr::Assign { target: Box::new(target), value: Box::new(value) })
}

fn field(object: SpannedExpr, name: &str) -> SpannedExpr {
    sp(Expr::FieldAccess { object: Box::new(object), field: name.to_string() })
}

fn struct_lit(name: &str, fields: Vec<(&str, SpannedExpr)>) -> SpannedExpr {
    sp(Expr::StructLiteral {
        name: name.to_string(),
        fields: fields.into_iter().map(|(n, v)| (n.to_string(), v)).collect(),
    })
}

fn block(stmts: Vec<SpannedStmt>, tail: Option<SpannedExpr>) -> Block {
    Block { stmts, tail_expr: tail.map(Box::new) }
}

fn block_expr(stmts: Vec<SpannedStmt>, tail: Option<SpannedExpr>) -> SpannedExpr {
    sp(Expr::Block(block(stmts, tail)))
}

fn if_expr(condition: SpannedExpr, then_branch: Block, else_branch: Option<SpannedExpr>) -> SpannedExpr {
    sp(Expr::If {
        condition: Box::new(condition),
        then_branch: sp(then_branch),
        else_branch: else_branch.map(Box::new),
    })
}

fn while_expr(condition: SpannedExpr, body: Block) -> SpannedExpr {
    sp(Expr::While { condition: Box::new(condition), body: sp(body), label: None })
}

fn expr_stmt(e: SpannedExpr) -> SpannedStmt {
    sp(Stmt::Expr(e))
}

fn let_stmt(name: &str, ty_name: Option<&str>, value: SpannedExpr) -> SpannedStmt {
    sp(Stmt::Let { name: sp(name.to_string()), ty: ty_name.map(ty), value, is_mut: false })
}

fn let_mut(name: &str, ty_name: Option<&str>, value: SpannedExpr) -> SpannedStmt {
    sp(Stmt::Let { name: sp(name.to_string()), ty: ty_name.map(ty), value, is_mut: true })
}

fn param(name: &str, ty_name: &str) -> Param {
    Param { name: name.to_string(), ty: ty(ty_name), default_value: None, is_self: false, is_mut: false }
}

fn param_default(name: &str, ty_name: &str, default: SpannedExpr) -> Param {
    Param {
        name: name.to_string(),
        ty: ty(ty_name),
        default_value: Some(Box::new(default)),
        is_self: false,
        is_mut: false,
    }
}

fn self_param(is_mut: bool) -> Param {
    Param { name: "self".to_string(), ty: ty("Self"), default_value: None, is_self: true, is_mut }
}

fn func(name: &str, params: Vec<Param>, ret: Option<&str>, body: Block) -> SpannedItem {
    sp(Item::FnDef { name: name.to_string(), params, return_type: ret.map(ty), body: sp(body), is_pub: false })
}

fn struct_def(name: &str, fields: Vec<(&str, &str)>) -> SpannedItem {
    sp(Item::StructDef {
        name: name.to_string(),
        fields: fields
            .into_iter()
            .map(|(n, t)| StructField { name: n.to_string(), ty: ty(t), is_pub: false })
            .collect(),
        is_pub: false,
        is_extern: false,
    })
}

fn impl_block(self_type: &str, methods: Vec<SpannedItem>) -> SpannedItem {
    sp(Item::ImplBlock { self_type: self_type.to_string(), methods })
}

fn extern_write() -> SpannedItem {
    // extern { fn write(fd: i32, buf: RawPtr, count: u64) -> i64; }
    sp(Item::ExternBlock {
        items: vec![sp(ExternFnDecl {
            name: "write".to_string(),
            params: vec![param("fd", "i32"), param("buf", "RawPtr"), param("count", "u64")],
            return_type: Some(ty("i64")),
        })],
    })
}

fn empty_main() -> SpannedItem {
    func("main", vec![], None, block(vec![], None))
}

fn print_fn() -> SpannedItem {
    // fn print(s: string) { write(1, __str_ptr(s), __str_len(s)); }
    func(
        "print",
        vec![param("s", "string")],
        None,
        block(
            vec![expr_stmt(call(
                "write",
                vec![
                    arg(int_lit("1")),
                    arg(call("__str_ptr", vec![arg(ident("s"))])),
                    arg(call("__str_len", vec![arg(ident("s"))])),
                ],
            ))],
            None,
        ),
    )
}

fn println_fn() -> SpannedItem {
    // fn println(s: string) { print(s); print("\n"); }
    func(
        "println",
        vec![param("s", "string")],
        None,
        block(
            vec![
                expr_stmt(call("print", vec![arg(ident("s"))])),
                expr_stmt(call("print", vec![arg(string("\n"))])),
            ],
            None,
        ),
    )
}

fn add_fn() -> SpannedItem {
    // fn add(a: i32, b: i32) -> i32 { a + b }
    func(
        "add",
        vec![param("a", "i32"), param("b", "i32")],
        Some("i32"),
        block(vec![], Some(binary(BinOp::Add, ident("a"), ident("b")))),
    )
}

fn id_fn() -> SpannedItem {
    // fn id(x: i32) -> i32 { x }
    func("id", vec![param("x", "i32")], Some("i32"), block(vec![], Some(ident("x"))))
}

fn check_module(items: Vec<SpannedItem>) -> (CheckedModule, DiagnosticBag) {
    let module = Module { items };
    Checker::new().check(&module)
}

fn any_message(diags: &DiagnosticBag, text: &str) -> bool {
    diags.reports().iter().any(|r| r.message.contains(text))
}

fn scenario_extern_functions_registered() {
    // extern { fn write(fd: i32, buf: RawPtr, count: u64) -> i64; }
    // fn main() {}
    let (checked, diags) = check_module(vec![extern_write(), empty_main()]);
    assert!(!diags.has_errors(), "unexpected errors: {:?}", diags.reports());
    assert!(checked.functions.contains_key("write"));
    let sig = checked.functions.get("write").unwrap();
    assert_eq!(sig.kind, FunctionKind::Extern);
    assert_eq!(sig.params.len(), 3);
}

fn scenario_undefined_function_error() {
    // fn main() { foo(); }
    let (_, diags) =
        check_module(vec![func("main", vec![], None, block(vec![expr_stmt(call("foo", vec![]))], None))]);
    assert!(diags.has_errors());
    assert!(any_message(&diags, "undefined function 'foo'"));
}

fn scenario_argument_count_mismatch() {
    // fn greet(s: string) {}
    // fn main() { greet("a", "b"); }
    let (_, diags) = check_module(vec![
        func("greet", vec![param("s", "string")], None, block(vec![], None)),
        func(
            "main",
            vec![],
            None,
            block(vec![expr_stmt(call("greet", vec![arg(string("a")), arg(string("b"))]))], None),
        ),
    ]);
    assert!(diags.has_errors());
    assert!(any_message(&diags, "argument"));
}

fn scenario_type_mismatch() {
    // fn greet(s: string) {}
    // fn main() { greet(42); }
    let (_, diags) = check_module(vec![
        func("greet", vec![param("s", "string")], None, block(vec![], None)),
        func("main", vec![], None, block(vec![expr_stmt(call("greet", vec![arg(int_lit("42"))]))], None)),
    ]);
    assert!(diags.has_errors());
    assert!(any_message(&diags, "type mismatch"));
}

fn scenario_builtins_recognized() {
    // fn main() { __str_ptr("hello"); __str_len("hello"); }
    let (checked, diags) = check_module(vec![func(
        "main",
        vec![],
        None,
        block(
            vec![
                expr_stmt(call("__str_ptr", vec![arg(string("hello"))])),
                expr_stmt(call("__str_len", vec![arg(string("hello"))])),
            ],
            None,
        ),
    )]);
    assert!(!diags.has_errors(), "unexpected errors: {:?}", diags.reports());
    assert!(checked.functions.contains_key("__str_ptr"));
    assert!(checked.functions.contains_key("__str_len"));
    assert_eq!(checked.functions.get("__str_ptr").unwrap().kind, FunctionKind::Builtin);
}

fn scenario_main_validation_preserved() {
    // fn foo() {}
    let (_, diags) = check_module(vec![func("foo", vec![], None, block(vec![], None))]);
    assert!(diags.has_errors());
    assert!(any_message(&diags, "no 'main' function"));
}

fn scenario_user_defined_function_registered() {
    // fn print(s: string) {}
    // fn main() { print("hello"); }
    let (checked, diags) = check_module(vec![
        func("print", vec![param("s", "string")], None, block(vec![], None)),
        func("main", vec![], None, block(vec![expr_stmt(call("print", vec![arg(string("hello"))]))], None)),
    ]);
    assert!(!diags.has_errors(), "unexpected errors: {:?}", diags.reports());
    assert!(checked.functions.contains_key("print"));
    let sig = checked.functions.get("print").unwrap();
    assert_eq!(sig.kind, FunctionKind::UserDefined);
    assert_eq!(sig.params.len(), 1);
}

fn scenario_duplicate_function_error() {
    // fn foo() {}
    // fn foo() {}
    // fn main() {}
    let (_, diags) = check_module(vec![
        func("foo", vec![], None, block(vec![], None)),
        func("foo", vec![], None, block(vec![], None)),
        empty_main(),
    ]);
    assert!(diags.has_errors());
    assert!(any_message(&diags, "duplicate function"));
}

fn scenario_unknown_type_error() {
    // fn foo(x: Blah) {}
    // fn main() {}
    let (_, diags) =
        check_module(vec![func("foo", vec![param("x", "Blah")], None, block(vec![], None)), empty_main()]);
    assert!(diags.has_errors());
    assert!(any_message(&diags, "unknown type"));
}

fn scenario_target_program_passes() {
    // extern { fn write(fd: i32, buf: RawPtr, count: u64) -> i64; }
    // fn print(s: string) { write(1, __str_ptr(s), __str_len(s)); }
    // fn println(s: string) { print(s); print("\n"); }
    // fn main() { println("Hello, world!"); }
    let (checked, diags) = check_module(vec![
        extern_write(),
        print_fn(),
        println_fn(),
        func(
            "main",
            vec![],
            None,
            block(vec![expr_stmt(call("println", vec![arg(string("Hello, world!"))]))], None),
        ),
    ]);
    assert!(!diags.has_errors(), "unexpected errors: {:?}", diags.reports());
    assert_eq!(checked.functions.get("write").unwrap().kind, FunctionKind::Extern);
    assert_eq!(checked.functions.get("print").unwrap().kind, FunctionKind::UserDefined);
    assert_eq!(checked.functions.get("println").unwrap().kind, FunctionKind::UserDefined);
}

fn scenario_immutable_assignment_error() {
    // fn main() { let x = 10; x = 20; }
    let (_, diags) = check_module(vec![func(
        "main",
        vec![],
        None,
        block(vec![let_stmt("x", None, int_lit("10")), expr_stmt(assign(ident("x"), int_lit("20")))], None),
    )]);
    assert!(diags.has_errors());
    assert!(any_message(&diags, "immutable"));
}

fn scenario_mutable_assignment_ok() {
    // fn main() { let mut x = 10; x = 20; }
    let (_, diags) = check_module(vec![func(
        "main",
        vec![],
        None,
        block(vec![let_mut("x", None, int_lit("10")), expr_stmt(assign(ident("x"), int_lit("20")))], None),
    )]);
    assert!(!diags.has_errors(), "unexpected errors: {:?}", diags.reports());
}

fn scenario_binary_operator_type_check() {
    // fn main() { let x: i32 = 10; let y: i32 = 20; let z = x + y; }
    let (_, diags) = check_module(vec![func(
        "main",
        vec![],
        None,
        block(
            vec![
                let_stmt("x", Some("i32"), int_lit("10")),
                let_stmt("y", Some("i32"), int_lit("20")),
                let_stmt("z", None, binary(BinOp::Add, ident("x"), ident("y"))),
            ],
            None,
        ),
    )]);
    assert!(!diags.has_errors(), "unexpected errors: {:?}", diags.reports());
}

fn scenario_return_type_check() {
    // fn add(a: i32, b: i32) -> i32 { a + b }
    // fn main() { add(1, 2); }
    let (_, diags) = check_module(vec![
        add_fn(),
        func(
            "main",
            vec![],
            None,
            block(vec![expr_stmt(call("add", vec![arg(int_lit("1")), arg(int_lit("2"))]))], None),
        ),
    ]);
    assert!(!diags.has_errors(), "unexpected errors: {:?}", diags.reports());
}

fn scenario_return_type_mismatch() {
    // fn foo() -> i32 { true }
    // fn main() {}
    let (_, diags) =
        check_module(vec![func("foo", vec![], Some("i32"), block(vec![], Some(boolean(true)))), empty_main()]);
    assert!(diags.has_errors());
    assert!(any_message(&diags, "return type"));
}

fn scenario_if_condition_must_be_bool() {
    // fn main() { if 42 {} }
    let (_, diags) = check_module(vec![func(
        "main",
        vec![],
        None,
        block(vec![expr_stmt(if_expr(int_lit("42"), block(vec![], None), None))], None),
    )]);
    assert!(diags.has_errors());
}

fn counter_loop(name: &str, limit: &str, extra: Vec<SpannedStmt>) -> SpannedExpr {
    // while <name> < <limit> { <extra> <name> = <name> + 1; }
    let mut body = extra;
    body.push(expr_stmt(assign(ident(name), binary(BinOp::Add, ident(name), int_lit("1")))));
    while_expr(binary(BinOp::Lt, ident(name), int_lit(limit)), block(body, None))
}

fn scenario_while_with_comparison() {
    // fn main() { let mut x: i32 = 0; while x < 10 { x = x + 1; } }
    let (_, diags) = check_module(vec![func(
        "main",
        vec![],
        None,
        block(vec![let_mut("x", Some("i32"), int_lit("0")), expr_stmt(counter_loop("x", "10", vec![]))], None),
    )]);
    assert!(!diags.has_errors(), "unexpected errors: {:?}", diags.reports());
}

fn target_main_v2() -> SpannedItem {
    // fn main() {
    //     let x: i32 = 10;
    //     let y = 20;
    //     let sum = add(x, y);
    //     if sum > 25 { println("big"); } else { println("small"); }
    //     let mut counter: i32 = 0;
    //     while counter < 10 { counter = counter + 1; }
    // }
    func(
        "main",
        vec![],
        None,
        block(
            vec![
                let_stmt("x", Some("i32"), int_lit("10")),
                let_stmt("y", None, int_lit("20")),
                let_stmt("sum", None, call("add", vec![arg(ident("x")), arg(ident("y"))])),
                expr_stmt(if_expr(
                    binary(BinOp::Gt, ident("sum"), int_lit("25")),
                    block(vec![expr_stmt(call("println", vec![arg(string("big"))]))], None),
                    Some(block_expr(vec![expr_stmt(call("println", vec![arg(string("small"))]))], None)),
                )),
                let_mut("counter", Some("i32"), int_lit("0")),
                expr_stmt(counter_loop("counter", "10", vec![])),
            ],
            None,
        ),
    )
}

fn scenario_target_program_v2_passes() {
    let (_, diags) = check_module(vec![extern_write(), print_fn(), println_fn(), add_fn(), target_main_v2()]);
    assert!(!diags.has_errors(), "unexpected errors: {:?}", diags.reports());
}

fn inner_block() -> SpannedExpr {
    // { let z = 42; z }
    block_expr(vec![let_stmt("z", None, int_lit("42"))], Some(ident("z")))
}

fn scenario_block_scoping_hides_inner_variables() {
    // fn main() { let n = { let z = 42; z }; n; }
    let (_, diags) = check_module(vec![func(
        "main",
        vec![],
        None,
        block(vec![let_stmt("n", None, inner_block()), expr_stmt(ident("n"))], None),
    )]);
    assert!(!diags.has_errors(), "unexpected errors: {:?}", diags.reports());

    // fn id(x: i32) -> i32 { x }
    // fn main() { let n = { let z = 42; z }; id(z); }
    let (_, diags) = check_module(vec![
        id_fn(),
        func(
            "main",
            vec![],
            None,
            block(vec![let_stmt("n", None, inner_block()), expr_stmt(call("id", vec![arg(ident("z"))]))], None),
        ),
    ]);
    assert!(diags.has_errors(), "z should be undefined outside the block");
}

fn scenario_if_scoping_hides_inner_variables() {
    // fn id(x: i32) -> i32 { x }
    // fn main() { if true { let y = 10; } id(y); }
    let (_, diags) = check_module(vec![
        id_fn(),
        func(
            "main",
            vec![],
            None,
            block(
                vec![
                    expr_stmt(if_expr(boolean(true), block(vec![let_stmt("y", None, int_lit("10"))], None), None)),
                    expr_stmt(call("id", vec![arg(ident("y"))])),
                ],
                None,
            ),
        ),
    ]);
    assert!(diags.has_errors(), "y should be undefined outside the if block");
}

fn scenario_while_scoping_hides_inner_variables() {
    // fn id(x: i32) -> i32 { x }
    // fn main() {
    //     let mut x: i32 = 0;
    //     while x < 1 { let inner = 5; x = x + 1; }
    //     id(inner);
    // }
    let (_, diags) = check_module(vec![
        id_fn(),
        func(
            "main",
            vec![],
            None,
            block(
                vec![
                    let_mut("x", Some("i32"), int_lit("0")),
                    expr_stmt(counter_loop("x", "1", vec![let_stmt("inner", None, int_lit("5"))])),
                    expr_stmt(call("id", vec![arg(ident("inner"))])),
                ],
                None,
            ),
        ),
    ]);
    assert!(diags.has_errors(), "inner should be undefined outside the while block");
}

#[test]
fn tests_extern_functions_registered() {
    scenario_extern_functions_registered();
}

#[test]
fn checker_extern_functions_registered() {
    scenario_extern_functions_registered();
}

#[test]
fn tests_undefined_function_error() {
    scenario_undefined_function_error();
}

#[test]
fn checker_undefined_function_error() {
    scenario_undefined_function_error();
}

#[test]
fn tests_argument_count_mismatch() {
    scenario_argument_count_mismatch();
}

#[test]
fn checker_argument_count_mismatch() {
    scenario_argument_count_mismatch();
}

#[test]
fn tests_type_mismatch() {
    scenario_type_mismatch();
}

#[test]
fn checker_type_mismatch() {
    scenario_type_mismatch();
}

#[test]
fn tests_builtins_recognized() {
    scenario_builtins_recognized();
}

#[test]
fn checker_builtins_recognized() {
    scenario_builtins_recognized();
}

#[test]
fn tests_main_validation_preserved() {
    scenario_main_validation_preserved();
}

#[test]
fn checker_main_validation_preserved() {
    scenario_main_validation_preserved();
}

#[test]
fn tests_user_defined_function_registered() {
    scenario_user_defined_function_registered();
}

#[test]
fn checker_user_defined_function_registered() {
    scenario_user_defined_function_registered();
}

#[test]
fn tests_duplicate_function_error() {
    scenario_duplicate_function_error();
}

#[test]
fn checker_duplicate_function_error() {
    scenario_duplicate_function_error();
}

#[test]
fn tests_unknown_type_error() {
    scenario_unknown_type_error();
}

#[test]
fn checker_unknown_type_error() {
    scenario_unknown_type_error();
}

#[test]
fn tests_target_program_passes() {
    scenario_target_program_passes();
}

#[test]
fn checker_target_program_passes() {
    scenario_target_program_passes();
}

#[test]
fn tests_immutable_assignment_error() {
    scenario_immutable_assignment_error();
}

#[test]
fn checker_immutable_assignment_error() {
    scenario_immutable_assignment_error();
}

#[test]
fn tests_mutable_assignment_ok() {
    scenario_mutable_assignment_ok();
}

#[test]
fn checker_mutable_assignment_ok() {
    scenario_mutable_assignment_ok();
}

#[test]
fn tests_binary_operator_type_check() {
    scenario_binary_operator_type_check();
}

#[test]
fn checker_binary_operator_type_check() {
    scenario_binary_operator_type_check();
}

#[test]
fn tests_return_type_check() {
    scenario_return_type_check();
}

#[test]
fn checker_return_type_check() {
    scenario_return_type_check();
}

#[test]
fn tests_return_type_mismatch() {
    scenario_return_type_mismatch();
}

#[test]
fn checker_return_type_mismatch() {
    scenario_return_type_mismatch();
}

#[test]
fn tests_if_condition_must_be_bool() {
    scenario_if_condition_must_be_bool();
}

#[test]
fn checker_if_condition_must_be_bool() {
    scenario_if_condition_must_be_bool();
}

#[test]
fn tests_while_with_comparison() {
    scenario_while_with_comparison();
}

#[test]
fn checker_while_with_comparison() {
    scenario_while_with_comparison();
}

#[test]
fn tests_target_program_v2_passes() {
    scenario_target_program_v2_passes();
}

#[test]
fn checker_target_program_v2_passes() {
    scenario_target_program_v2_passes();
}

#[test]
fn tests_block_scoping_hides_inner_variables() {
    scenario_block_scoping_hides_inner_variables();
}

#[test]
fn checker_block_scoping_hides_inner_variables() {
    scenario_block_scoping_hides_inner_variables();
}

#[test]
fn tests_if_scoping_hides_inner_variables() {
    scenario_if_scoping_hides_inner_variables();
}

#[test]
fn checker_if_scoping_hides_inner_variables() {
    scenario_if_scoping_hides_inner_variables();
}

#[test]
fn tests_while_scoping_hides_inner_variables() {
    scenario_while_scoping_hides_inner_variables();
}

#[test]
fn checker_while_scoping_hides_inner_variables() {
    scenario_while_scoping_hides_inner_variables();
}

#[test]
fn named_args_type_check() {
    // fn add(a: i32, b: i32) -> i32 { a + b }
    // fn main() { let r = add(1, b: 2); }
    let (_, diags) = check_module(vec![
        add_fn(),
        func(
            "main",
            vec![],
            None,
            block(vec![let_stmt("r", None, call("add", vec![arg(int_lit("1")), named("b", int_lit("2"))]))], None),
        ),
    ]);
    assert!(!diags.has_errors(), "named args should type check: {:?}", diags.reports());
}

#[test]
fn named_args_wrong_name() {
    // fn add(a: i32, b: i32) -> i32 { a + b }
    // fn main() { let r = add(1, c: 2); }
    let (_, diags) = check_module(vec![
        add_fn(),
        func(
            "main",
            vec![],
            None,
            block(vec![let_stmt("r", None, call("add", vec![arg(int_lit("1")), named("c", int_lit("2"))]))], None),
        ),
    ]);
    assert!(diags.has_errors(), "unknown named arg 'c' should fail");
}

fn greet_with_default() -> SpannedItem {
    // fn greet(name: string, times: i32 = 1) -> i32 { times }
    func(
        "greet",
        vec![param("name", "string"), param_default("times", "i32", int_lit("1"))],
        Some("i32"),
        block(vec![], Some(ident("times"))),
    )
}

#[test]
fn default_params_type_check() {
    // fn main() { let a = greet("hello"); let b = greet("world", times: 3); }
    let (_, diags) = check_module(vec![
        greet_with_default(),
        func(
            "main",
            vec![],
            None,
            block(
                vec![
                    let_stmt("a", None, call("greet", vec![arg(string("hello"))])),
                    let_stmt("b", None, call("greet", vec![arg(string("world")), named("times", int_lit("3"))])),
                ],
                None,
            ),
        ),
    ]);
    assert!(!diags.has_errors(), "default params should type check: {:?}", diags.reports());
}

#[test]
fn default_params_missing_required() {
    // fn main() { let a = greet(); }
    let (_, diags) = check_module(vec![
        greet_with_default(),
        func("main", vec![], None, block(vec![let_stmt("a", None, call("greet", vec![]))], None)),
    ]);
    assert!(diags.has_errors(), "missing required arg should fail");
}

#[test]
fn impl_block_static_method_check() {
    // struct Point { x: i32, y: i32 }
    // impl Point { fn new(x: i32, y: i32) -> Point { Point { x: x, y: y } } }
    // fn main() { let p = Point::new(3, y: 4); }
    let (checked, diags) = check_module(vec![
        struct_def("Point", vec![("x", "i32"), ("y", "i32")]),
        impl_block(
            "Point",
            vec![func(
                "new",
                vec![param("x", "i32"), param("y", "i32")],
                Some("Point"),
                block(vec![], Some(struct_lit("Point", vec![("x", ident("x")), ("y", ident("y"))]))),
            )],
        ),
        func(
            "main",
            vec![],
            None,
            block(vec![let_stmt("p", None, static_call("Point", "new", vec![arg(int_lit("3")), named("y", int_lit("4"))]))], None),
        ),
    ]);
    assert!(!diags.has_errors(), "static method should type check: {:?}", diags.reports());
    assert!(checked.functions.contains_key("Point__new"), "mangled name should be registered");
}

#[test]
fn impl_block_instance_method_check() {
    // struct Counter { value: i32 }
    // impl Counter {
    //     fn new(start: i32) -> Counter { Counter { value: start } }
    //     fn get(self) -> i32 { self.value }
    //     fn increment(mut self) { self.value = self.value + 1; }
    // }
    // fn main() { let mut c = Counter::new(0); c.increment(); let v = c.get(); }
    let (_, diags) = check_module(vec![
        struct_def("Counter", vec![("value", "i32")]),
        impl_block(
            "Counter",
            vec![
                func(
                    "new",
                    vec![param("start", "i32")],
                    Some("Counter"),
                    block(vec![], Some(struct_lit("Counter", vec![("value", ident("start"))]))),
                ),
                func("get", vec![self_param(false)], Some("i32"), block(vec![], Some(field(ident("self"), "value")))),
                func(
                    "increment",
                    vec![self_param(true)],
                    None,
                    block(
                        vec![expr_stmt(assign(
                            field(ident("self"), "value"),
                            binary(BinOp::Add, field(ident("self"), "value"), int_lit("1")),
                        ))],
                        None,
                    ),
                ),
            ],
        ),
        func(
            "main",
            vec![],
            None,
            block(
                vec![
                    let_mut("c", None, static_call("Counter", "new", vec![arg(int_lit("0"))])),
                    expr_stmt(method_call(ident("c"), "increment", vec![])),
                    let_stmt("v", None, method_call(ident("c"), "get", vec![])),
                ],
                None,
            ),
        ),
    ]);
    assert!(!diags.has_errors(), "instance methods should type check: {:?}", diags.reports());
}

#[test]
fn impl_block_undefined_method() {
    // struct Point { x: i32, y: i32 }
    // fn main() { let p = Point { x: 1, y: 2 }; p.nonexistent(); }
    let (_, diags) = check_module(vec![
        struct_def("Point", vec![("x", "i32"), ("y", "i32")]),
        func(
            "main",
            vec![],
            None,
            block(
                vec![
                    let_stmt("p", None, struct_lit("Point", vec![("x", int_lit("1")), ("y", int_lit("2"))])),
                    expr_stmt(method_call(ident("p"), "nonexistent", vec![])),
                ],
                None,
            ),
        ),
    ]);
    assert!(diags.has_errors(), "calling undefined method should fail");
}

#[test]
fn struct_field_shorthand_check() {
    // struct Point { x: i32, y: i32 }
    // fn main() { let x = 3; let y = 4; let p = Point { x, y }; }
    let (_, diags) = check_module(vec![
        struct_def("Point", vec![("x", "i32"), ("y", "i32")]),
        func(
            "main",
            vec![],
            None,
            block(
                vec![
                    let_stmt("x", None, int_lit("3")),
                    let_stmt("y", None, int_lit("4")),
                    let_stmt("p", None, struct_lit("Point", vec![("x", ident("x")), ("y", ident("y"))])),
                ],
                None,
            ),
        ),
    ]);
    assert!(!diags.has_errors(), "struct field shorthand should type check: {:?}", diags.reports());
}

fn diags_of(items: Vec<SpannedItem>) -> Vec<CheckerDiagnostic> {
    check_module(items).1.diagnostics
}

fn main_with(stmts: Vec<SpannedStmt>) -> SpannedItem {
    func("main", vec![], None, block(stmts, None))
}

fn counter_struct_and_impl() -> Vec<SpannedItem> {
    vec![
        struct_def("Counter", vec![("value", "i32")]),
        impl_block(
            "Counter",
            vec![
                func(
                    "new",
                    vec![param("start", "i32")],
                    Some("Counter"),
                    block(vec![], Some(struct_lit("Counter", vec![("value", ident("start"))]))),
                ),
                func("increment", vec![self_param(true)], None, block(vec![], None)),
            ],
        ),
    ]
}

#[test]
fn undefined_variable_is_reported() {
    // fn main() { x; }
    let d = diags_of(vec![main_with(vec![expr_stmt(ident("x"))])]);
    assert!(matches!(&d[..], [CheckerDiagnostic::UndefinedVariable { name, .. }] if name == "x"));
}

#[test]
fn main_with_parameters_is_reported() {
    // fn main(a: i32) {}
    let d = diags_of(vec![func("main", vec![param("a", "i32")], None, block(vec![], None))]);
    assert!(matches!(&d[..], [CheckerDiagnostic::InvalidMainSignature { .. }]));
}

#[test]
fn arithmetic_on_bool_is_reported() {
    // fn main() { let a = true + false; }
    let d = diags_of(vec![main_with(vec![let_stmt("a", None, binary(BinOp::Add, boolean(true), boolean(false)))])]);
    assert!(matches!(&d[..], [CheckerDiagnostic::InvalidOperatorType { op, ty, .. }] if op == "add" && ty == "bool"));
}

#[test]
fn missing_required_arguments_are_reported_in_order() {
    // fn f(a: i32, b: i32, c: i32 = 1) -> i32 { a }
    // fn main() { f(); }
    let d = diags_of(vec![
        func(
            "f",
            vec![param("a", "i32"), param("b", "i32"), param_default("c", "i32", int_lit("1"))],
            Some("i32"),
            block(vec![], Some(ident("a"))),
        ),
        main_with(vec![expr_stmt(call("f", vec![]))]),
    ]);
    assert_eq!(d.len(), 2);
    assert!(matches!(&d[0], CheckerDiagnostic::MissingRequiredArgument { name, .. } if name == "a"));
    assert!(matches!(&d[1], CheckerDiagnostic::MissingRequiredArgument { name, .. } if name == "b"));
}

#[test]
fn unknown_parameter_name_is_reported() {
    // fn add(a: i32, b: i32) -> i32 { a + b }
    // fn main() { add(1, c: 2); }
    let d = diags_of(vec![add_fn(), main_with(vec![expr_stmt(call("add", vec![arg(int_lit("1")), named("c", int_lit("2"))]))])]);
    assert!(d.iter().any(|x| matches!(x, CheckerDiagnostic::UnknownParameterName { name, .. } if name == "c")));
    assert!(d.iter().any(|x| matches!(x, CheckerDiagnostic::MissingRequiredArgument { name, .. } if name == "b")));
}

#[test]
fn method_of_no_impl_is_reported() {
    // struct Point { x: i32 }  fn main() { let p = Point { x: 1 }; p.nope(); }
    let d = diags_of(vec![
        struct_def("Point", vec![("x", "i32")]),
        main_with(vec![
            let_stmt("p", None, struct_lit("Point", vec![("x", int_lit("1"))])),
            expr_stmt(method_call(ident("p"), "nope", vec![])),
        ]),
    ]);
    assert!(matches!(&d[..], [CheckerDiagnostic::UndefinedMethod { ty, method, .. }] if ty == "Point" && method == "nope"));
}

#[test]
fn mutating_method_on_immutable_binding_is_reported() {
    // let c = Counter::new(0); c.increment();
    let mut items = counter_struct_and_impl();
    items.push(main_with(vec![
        let_stmt("c", None, static_call("Counter", "new", vec![arg(int_lit("0"))])),
        expr_stmt(method_call(ident("c"), "increment", vec![])),
    ]));
    let d = diags_of(items);
    assert!(matches!(&d[..], [CheckerDiagnostic::MutatingMethodOnImmutable { method, .. }] if method == "increment"));
}

#[test]
fn unknown_and_missing_fields_are_reported() {
    // struct Point { x: i32, y: i32 }  fn main() { let p = Point { x: 1, z: 2 }; }
    let d = diags_of(vec![
        struct_def("Point", vec![("x", "i32"), ("y", "i32")]),
        main_with(vec![let_stmt("p", None, struct_lit("Point", vec![("x", int_lit("1")), ("z", int_lit("2"))]))]),
    ]);
    assert_eq!(d.len(), 2);
    assert!(matches!(&d[0], CheckerDiagnostic::UnknownField { field, .. } if field == "z"));
    assert!(matches!(&d[1], CheckerDiagnostic::MissingField { field, .. } if field == "y"));
}

#[test]
fn field_of_a_number_is_reported() {
    // fn main() { let a = 1; a.x; }
    let d = diags_of(vec![main_with(vec![let_stmt("a", None, int_lit("1")), expr_stmt(field(ident("a"), "x"))])]);
    assert!(matches!(&d[..], [CheckerDiagnostic::FieldAccessOnNonStruct { ty, .. }] if ty == "i32"));
}

#[test]
fn undefined_struct_is_reported() {
    // impl Nope {}  fn main() { let n = Nope {}; }
    let d = diags_of(vec![impl_block("Nope", vec![]), main_with(vec![let_stmt("n", None, struct_lit("Nope", vec![]))])]);
    assert_eq!(d.len(), 2);
    assert!(d.iter().all(|x| matches!(x, CheckerDiagnostic::UndefinedStruct { name, .. } if name == "Nope")));
}

#[test]
fn duplicate_struct_is_reported() {
    // struct Point { x: i32 }  struct Point { y: i32 }  fn main() {}
    let d = diags_of(vec![struct_def("Point", vec![("x", "i32")]), struct_def("Point", vec![("y", "i32")]), empty_main()]);
    assert!(matches!(&d[..], [CheckerDiagnostic::DuplicateStruct { name, .. }] if name == "Point"));
}

#[test]
fn annotated_let_checks_its_value() {
    // fn main() { let s: string = 1; let b: u8 = 1; }
    let d = diags_of(vec![main_with(vec![let_stmt("s", Some("string"), int_lit("1")), let_stmt("b", Some("u8"), int_lit("1"))])]);
    assert!(matches!(&d[..], [CheckerDiagnostic::TypeMismatch { expected, found, .. }] if expected == "string" && found == "i32"));
}

#[test]
fn return_expression_is_checked_and_diverges() {
    // fn f() -> i32 { return true; }  fn g() -> i32 { return 1; }  fn main() {}
    let ret = |v: SpannedExpr| expr_stmt(sp(Expr::Return(Some(Box::new(v)))));
    let d = diags_of(vec![
        func("f", vec![], Some("i32"), block(vec![ret(boolean(true))], None)),
        func("g", vec![], Some("i32"), block(vec![ret(int_lit("1"))], None)),
        empty_main(),
    ]);
    assert!(matches!(&d[..], [CheckerDiagnostic::ReturnTypeMismatch { expected, found, .. }] if expected == "i32" && found == "bool"));
}

#[test]
fn builtins_cannot_be_redefined() {
    // fn panic(msg: string) {}  fn main() {}
    let (checked, diags) = check_module(vec![func("panic", vec![param("msg", "string")], None, block(vec![], None)), empty_main()]);
    assert!(matches!(&diags.diagnostics[0], CheckerDiagnostic::DuplicateFunction { name, .. } if name == "panic"));
    // The body is then checked against the built-in signature, which returns `!`.
    assert!(matches!(&diags.diagnostics[1], CheckerDiagnostic::ReturnTypeMismatch { .. }));
    assert_eq!(checked.functions.get("panic").unwrap().kind, FunctionKind::Builtin);
}

#[test]
fn main_is_not_required_when_disabled() {
    // fn foo() {}
    let module = Module { items: vec![func("foo", vec![], None, block(vec![], None))] };
    let (_, diags) = Checker::new().require_main(false).check(&module);
    assert!(!diags.has_errors());
}

#[test]
fn signature_records_defaults_and_receiver() {
    // impl Counter { fn increment(mut self) {} }, fn greet(name: string, times: i32 = 1) -> i32
    let mut items = counter_struct_and_impl();
    items.push(greet_with_default());
    items.push(empty_main());
    let (checked, diags) = check_module(items);
    assert!(!diags.has_errors(), "{:?}", diags.reports());
    let inc = checked.functions.get("Counter__increment").unwrap();
    assert!(inc.is_method && inc.is_mut_method);
    let greet = checked.functions.get("greet").unwrap();
    assert_eq!(greet.required_params, 1);
    assert_eq!(greet.has_default, vec![false, true]);
    assert_eq!(greet.params[1].1, TypeId(3));
}

#[test]
fn main_returning_unit_is_accepted() {
    // fn main() -> () {}
    let main = sp(Item::FnDef {
        name: "main".to_string(),
        params: vec![],
        return_type: Some(sp(TypeExpr::Unit)),
        body: sp(block(vec![], None)),
        is_pub: false,
    });
    let d = diags_of(vec![main]);
    assert!(d.is_empty());
}

#[test]
fn main_returning_a_value_is_reported() {
    // fn main() -> i32 { 0 }
    let d = diags_of(vec![func("main", vec![], Some("i32"), block(vec![], Some(int_lit("0"))))]);
    assert!(matches!(&d[..], [CheckerDiagnostic::InvalidMainSignature { .. }]));
}

#[test]
fn unknown_named_argument_is_reported() {
    // fn greet(s: string) {} fn main() { greet(t: "a"); }
    let greet = func("greet", vec![param("s", "string")], None, block(vec![], None));
    let d = diags_of(vec![greet, main_with(vec![expr_stmt(call("greet", vec![named("t", string("a"))]))])]);
    assert!(d.iter().any(|x| matches!(x, CheckerDiagnostic::UnknownParameterName { name, .. } if name == "t")));
}

#[test]
fn well_typed_comparison_adds_no_report() {
    // fn main() { let x = 1; x < 10; }
    let d = diags_of(vec![main_with(vec![
        let_stmt("x", None, int_lit("1")),
        expr_stmt(binary(BinOp::Lt, ident("x"), int_lit("10"))),
    ])]);
    assert!(d.is_empty());
}

#[test]
fn logical_and_on_integers_is_reported() {
    // fn main() { 1 && 2; }
    let d = diags_of(vec![main_with(vec![expr_stmt(binary(BinOp::And, int_lit("1"), int_lit("2")))])]);
    assert!(matches!(&d[..], [CheckerDiagnostic::InvalidOperatorType { ty, .. }] if ty == "i32"));
}

#[test]
fn integer_condition_reports_exactly_one_mismatch() {
    // fn main() { if 42 {} }
    let d = diags_of(vec![main_with(vec![expr_stmt(if_expr(int_lit("42"), block(vec![], None), None))])]);
    assert!(matches!(&d[..], [CheckerDiagnostic::TypeMismatch { expected, found, .. }] if expected == "bool" && found == "i32"));
}
