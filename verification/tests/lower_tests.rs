// Each program is written out as the syntax tree the parser gives for the
// source text quoted above it.

use lib::ast::{
    BinOp, Block, CallArg, Expr, ExternFnDecl, Item, Literal, Module, Param, SpannedExpr,
    SpannedItem, SpannedStmt, Stmt, StructField, TypeExpr,
};
use lib::checker::Checker;
use lib::ir::{ConstValue, FunctionRef, Instruction, Program, Terminator};
use lib::lower::Lowerer;
use lib::span::{Span, Spanned};

fn sp<T>(node: T) -> Spanned<T> {
    Spanned::new(node, Span::dummy())
}

fn ty(name: &str) -> Spanned<TypeExpr> {
    sp(TypeExpr::Named(name.to_string()))
}

fn ident(name: &str) -> SpannedExpr {
    sp(Expr::Ident(name.to_string()))
}

fn int_lit(text: &str) -> SpannedExpr {
    sp(Expr::Literal(Literal::Int(text.to_string(), None)))
}

fn string(text: &str) -> SpannedExpr {
    sp(Expr::Literal(Literal::String(text.to_string())))
}

fn arg(value: SpannedExpr) -> CallArg {
    CallArg { name: None, value }
}

fn named(name: &str, value: SpannedExpr) -> CallArg {
    CallArg { name: Some(name.to_string()), value }
}

fn call(name: &str, args: Vec<CallArg>) -> SpannedExpr {
    sp(Expr::Call { callee: Box::new(ident(name)), args })
}

fn static_call(owner: &str, method: &str, args: Vec<CallArg>) -> SpannedExpr {
    sp(Expr::StaticCall { owner: owner.to_string(), method: method.to_string(), args })
}

fn method_call(object: SpannedExpr, method: &str, args: Vec<CallArg>) -> SpannedExpr {
    sp(Expr::MethodCall { object: Box::new(object), method: method.to_string(), args })
}

fn binary(op: BinOp, left: SpannedExpr, right: SpannedExpr) -> SpannedExpr {
    sp(Expr::Binary { op, left: Box::new(left), right: Box::new(right) })
}

fn assign(target: SpannedExpr, value: SpannedExpr) -> SpannedExpr {
    sp(Expr::Assign { target: Box::new(target), value: Box::new(value) })
}

fn field(object: SpannedExpr, name: &str) -> SpannedExpr {
    sp(Expr::FieldAccess { object: Box::new(object), field: name.to_string() })
}

fn struct_lit(name: &str, fields: Vec<(&str, SpannedExpr)>) -> SpannedExpr {
    sp(Expr::StructLiteral {
        name: name.to_string(),
        fields: fields.into_iter().map(|(n, v)| (n.to_string(), v)).collect(),
    })
}

fn block(stmts: Vec<SpannedStmt>, tail: Option<SpannedExpr>) -> Block {
    Block { stmts, tail_expr: tail.map(Box::new) }
}

fn block_expr(stmts: Vec<SpannedStmt>, tail: Option<SpannedExpr>) -> SpannedExpr {
    sp(Expr::Block(block(stmts, tail)))
}

fn if_expr(condition: SpannedExpr, then_branch: Block, else_branch: Option<SpannedExpr>) -> SpannedExpr {
    sp(Expr::If {
        condition: Box::new(condition),
        then_branch: sp(then_branch),
        else_branch: else_branch.map(Box::new),
    })
}

fn while_expr(condition: SpannedExpr, body: Block) -> SpannedExpr {
    sp(Expr::While { condition: Box::new(condition), body: sp(body), label: None })
}

fn expr_stmt(e: SpannedExpr) -> SpannedStmt {
    sp(Stmt::Expr(e))
}

fn let_stmt(name: &str, ty_name: Option<&str>, value: SpannedExpr) -> SpannedStmt {
    sp(Stmt::Let { name: sp(name.to_string()), ty: ty_name.map(ty), value, is_mut: false })
}

fn let_mut(name: &str, ty_name: Option<&str>, value: SpannedExpr) -> SpannedStmt {
    sp(Stmt::Let { name: sp(name.to_string()), ty: ty_name.map(ty), value, is_mut: true })
}

fn param(name: &str, ty_name: &str) -> Param {
    Param { name: name.to_string(), ty: ty(ty_name), default_value: None, is_self: false, is_mut: false }
}

fn param_default(name: &str, ty_name: &str, default: SpannedExpr) -> Param {
    Param {
        name: name.to_string(),
        ty: ty(ty_name),
        default_value: Some(Box::new(default)),
        is_self: false,
        is_mut: false,
    }
}

fn self_param(is_mut: bool) -> Param {
    Param { name: "self".to_string(), ty: ty("Self"), default_value: None, is_self: true, is_mut }
}

fn func(name: &str, params: Vec<Param>, ret: Option<&str>, body: Block) -> SpannedItem {
    sp(Item::FnDef { name: name.to_string(), params, return_type: ret.map(ty), body: sp(body), is_pub: false })
}

fn struct_def(name: &str, fields: Vec<(&str, &str)>) -> SpannedItem {
    sp(Item::StructDef {
        name: name.to_string(),
        fields: fields
            .into_iter()
            .map(|(n, t)| StructField { name: n.to_string(), ty: ty(t), is_pub: false })
            .collect(),
        is_pub: false,
        is_extern: false,
    })
}

fn impl_block(self_type: &str, methods: Vec<SpannedItem>) -> SpannedItem {
    sp(Item::ImplBlock { self_type: self_type.to_string(), methods })
}

fn extern_write() -> SpannedItem {
    // extern { fn write(fd: i32, buf: RawPtr, count: u64) -> i64; }
    sp(Item::ExternBlock {
        items: vec![sp(ExternFnDecl {
            name: "write".to_string(),
            params: vec![param("fd", "i32"), param("buf", "RawPtr"), param("count", "u64")],
            return_type: Some(ty("i64")),
        })],
    })
}

fn empty_main() -> SpannedItem {
    func("main", vec![], None, block(vec![], None))
}

fn print_fn() -> SpannedItem {
    // fn print(s: string) { write(1, __str_ptr(s), __str_len(s)); }
    func(
        "print",
        vec![param("s", "string")],
        None,
        block(
            vec![expr_stmt(call(
                "write",
                vec![
                    arg(int_lit("1")),
                    arg(call("__str_ptr", vec![arg(ident("s"))])),
                    arg(call("__str_len", vec![arg(ident("s"))])),
                ],
            ))],
            None,
        ),
    )
}

fn println_fn() -> SpannedItem {
    // fn println(s: string) { print(s); print("\n"); }
    func(
        "println",
        vec![param("s", "string")],
        None,
        block(
            vec![
                expr_stmt(call("print", vec![arg(ident("s"))])),
                expr_stmt(call("print", vec![arg(string("\n"))])),
            ],
            None,
        ),
    )
}

fn add_fn() -> SpannedItem {
    // fn add(a: i32, b: i32) -> i32 { a + b }
    func(
        "add",
        vec![param("a", "i32"), param("b", "i32")],
        Some("i32"),
        block(vec![], Some(binary(BinOp::Add, ident("a"), ident("b")))),
    )
}

fn counter_loop(name: &str, limit: &str) -> SpannedExpr {
    // while <name> < <limit> { <name> = <name> + 1; }
    let mut body = Vec::new();
    body.push(expr_stmt(assign(ident(name), binary(BinOp::Add, ident(name), int_lit("1")))));
    while_expr(binary(BinOp::Lt, ident(name), int_lit(limit)), block(body, None))
}

fn target_main_v2() -> SpannedItem {
    // fn main() {
    //     let x: i32 = 10;
    //     let y = 20;
    //     let sum = add(x, y);
    //     if sum > 25 { println("big"); } else { println("small"); }
    //     let mut counter: i32 = 0;
    //     while counter < 10 { counter = counter + 1; }
    // }
    func(
        "main",
        vec![],
        None,
        block(
            vec![
                let_stmt("x", Some("i32"), int_lit("10")),
                let_stmt("y", None, int_lit("20")),
                let_stmt("sum", None, call("add", vec![arg(ident("x")), arg(ident("y"))])),
                expr_stmt(if_expr(
                    binary(BinOp::Gt, ident("sum"), int_lit("25")),
                    block(vec![expr_stmt(call("println", vec![arg(string("big"))]))], None),
                    Some(block_expr(vec![expr_stmt(call("println", vec![arg(string("small"))]))], None)),
                )),
                let_mut("counter", Some("i32"), int_lit("0")),
                expr_stmt(counter_loop("counter", "10")),
            ],
            None,
        ),
    )
}

fn lower_module(items: Vec<SpannedItem>) -> Program {
    let module = Module { items };
    let (checked, diags) = Checker::new().check(&module);
    assert!(!diags.has_errors(), "checker errors: {:?}", diags.reports());
    Lowerer::new(checked).lower(&module)
}

fn has_inst(program: &Program, index: usize, pred: fn(&Instruction) -> bool) -> bool {
    program.functions[index].blocks.iter().any(|b| b.instructions.iter().any(|i| pred(i)))
}

fn function_named<'a>(program: &'a Program, name: &str) -> Option<usize> {
    program.functions.iter().position(|f| program.interner.resolve(f.name) == name)
}

fn scenario_lower_target_program() {
    // extern { fn write(fd: i32, buf: RawPtr, count: u64) -> i64; }
    // fn print(s: string) { write(1, __str_ptr(s), __str_len(s)); }
    // fn println(s: string) { print(s); print("\n"); }
    // fn main() { println("Hello, world!"); }
    let program = lower_module(vec![
        extern_write(),
        print_fn(),
        println_fn(),
        func(
            "main",
            vec![],
            None,
            block(vec![expr_stmt(call("println", vec![arg(string("Hello, world!"))]))], None),
        ),
    ]);

    // 4 functions: write (extern), print, println, main
    assert_eq!(program.functions.len(), 4, "expected 4 functions, got {}", program.functions.len());

    // write should be extern
    let write_fn = &program.functions[0];
    assert!(write_fn.is_extern);
    assert_eq!(write_fn.extern_symbol.as_deref(), Some("write"));

    // String constants should include "Hello, world!" and "\n"
    assert!(
        program.string_constants.contains(&"Hello, world!".to_string()),
        "missing 'Hello, world!' in {:?}",
        program.string_constants
    );
    assert!(program.string_constants.contains(&"\n".to_string()), "missing '\\n' in {:?}", program.string_constants);

    // Entry function should be main
    assert!(program.entry_function.is_some());

    // print function should have StringPtr and StringLen instructions
    let print_fn = &program.functions[1];
    assert!(!print_fn.is_extern);
    assert_eq!(print_fn.params.len(), 1);
    let has_str_ptr = has_inst(&program, 1, |i| matches!(i, Instruction::StringPtr(_, _)));
    let has_str_len = has_inst(&program, 1, |i| matches!(i, Instruction::StringLen(_, _)));
    assert!(has_str_ptr, "print should have StringPtr instruction");
    assert!(has_str_len, "print should have StringLen instruction");
}

fn scenario_lower_has_return() {
    // fn main() { __str_ptr("hi"); }
    let program = lower_module(vec![func(
        "main",
        vec![],
        None,
        block(vec![expr_stmt(call("__str_ptr", vec![arg(string("hi"))]))], None),
    )]);
    let main_func = program.functions.iter().find(|f| !f.is_extern).unwrap();
    let last_block = main_func.blocks.last().unwrap();
    assert!(matches!(last_block.terminator, Terminator::Return(_)));
}

fn scenario_extern_function_lowered() {
    // extern { fn write(fd: i32, buf: RawPtr, count: u64) -> i64; }
    // fn main() {}
    let program = lower_module(vec![extern_write(), empty_main()]);
    let write_fn = program.functions.iter().find(|f| f.is_extern).unwrap();
    assert!(write_fn.blocks.is_empty());
    assert_eq!(write_fn.extern_symbol.as_deref(), Some("write"));
}

fn scenario_params_assigned_to_registers() {
    // fn greet(s: string) {}
    // fn main() { greet("hello"); }
    let program = lower_module(vec![
        func("greet", vec![param("s", "string")], None, block(vec![], None)),
        func("main", vec![], None, block(vec![expr_stmt(call("greet", vec![arg(string("hello"))]))], None)),
    ]);
    let greet_fn = &program.functions[0];
    assert_eq!(greet_fn.params.len(), 1);
}

fn scenario_string_dedup() {
    // fn main() { __str_ptr("same"); __str_ptr("same"); }
    let program = lower_module(vec![func(
        "main",
        vec![],
        None,
        block(
            vec![
                expr_stmt(call("__str_ptr", vec![arg(string("same"))])),
                expr_stmt(call("__str_ptr", vec![arg(string("same"))])),
            ],
            None,
        ),
    )]);
    // "same" should appear only once
    assert_eq!(program.string_constants.iter().filter(|s| *s == "same").count(), 1);
}

fn scenario_lower_binary_ops() {
    // fn add(a: i32, b: i32) -> i32 { a + b }
    // fn main() { add(1, 2); }
    let program = lower_module(vec![
        add_fn(),
        func(
            "main",
            vec![],
            None,
            block(vec![expr_stmt(call("add", vec![arg(int_lit("1")), arg(int_lit("2"))]))], None),
        ),
    ]);
    let has_add = has_inst(&program, 0, |i| matches!(i, Instruction::Add(_, _, _)));
    assert!(has_add, "add function should have Add instruction");
}

fn scenario_lower_if_creates_blocks() {
    // fn main() {
    //     let x: i32 = 10;
    //     if x > 5 { __str_ptr("yes"); } else { __str_ptr("no"); }
    // }
    let program = lower_module(vec![func(
        "main",
        vec![],
        None,
        block(
            vec![
                let_stmt("x", Some("i32"), int_lit("10")),
                expr_stmt(if_expr(
                    binary(BinOp::Gt, ident("x"), int_lit("5")),
                    block(vec![expr_stmt(call("__str_ptr", vec![arg(string("yes"))]))], None),
                    Some(block_expr(vec![expr_stmt(call("__str_ptr", vec![arg(string("no"))]))], None)),
                )),
            ],
            None,
        ),
    )]);
    let main_fn = program.functions.iter().find(|f| !f.is_extern).unwrap();
    // If/else should create multiple blocks
    assert!(main_fn.blocks.len() >= 4, "expected at least 4 blocks for if/else, got {}", main_fn.blocks.len());
}

fn scenario_lower_while_creates_blocks() {
    // fn main() { let mut x: i32 = 0; while x < 10 { x = x + 1; } }
    let program = lower_module(vec![func(
        "main",
        vec![],
        None,
        block(vec![let_mut("x", Some("i32"), int_lit("0")), expr_stmt(counter_loop("x", "10"))], None),
    )]);
    let main_fn = program.functions.iter().find(|f| !f.is_extern).unwrap();
    // While should create multiple blocks
    assert!(main_fn.blocks.len() >= 3, "expected at least 3 blocks for while, got {}", main_fn.blocks.len());
}

fn scenario_lower_target_program_v2() {
    let program = lower_module(vec![extern_write(), print_fn(), println_fn(), add_fn(), target_main_v2()]);
    assert!(program.entry_function.is_some());
    assert!(program.functions.len() >= 5, "expected at least 5 functions (write, print, println, add, main)");
}

#[test]
fn tests_lower_target_program() {
    scenario_lower_target_program();
}

#[test]
fn lower_lower_target_program() {
    scenario_lower_target_program();
}

#[test]
fn tests_lower_has_return() {
    scenario_lower_has_return();
}

#[test]
fn lower_lower_has_return() {
    scenario_lower_has_return();
}

#[test]
fn tests_extern_function_lowered() {
    scenario_extern_function_lowered();
}

#[test]
fn lower_extern_function_lowered() {
    scenario_extern_function_lowered();
}

#[test]
fn tests_params_assigned_to_registers() {
    scenario_params_assigned_to_registers();
}

#[test]
fn lower_params_assigned_to_registers() {
    scenario_params_assigned_to_registers();
}

#[test]
fn tests_string_dedup() {
    scenario_string_dedup();
}

#[test]
fn lower_string_dedup() {
    scenario_string_dedup();
}

#[test]
fn tests_lower_binary_ops() {
    scenario_lower_binary_ops();
}

#[test]
fn lower_lower_binary_ops() {
    scenario_lower_binary_ops();
}

#[test]
fn tests_lower_if_creates_blocks() {
    scenario_lower_if_creates_blocks();
}

#[test]
fn lower_lower_if_creates_blocks() {
    scenario_lower_if_creates_blocks();
}

#[test]
fn tests_lower_while_creates_blocks() {
    scenario_lower_while_creates_blocks();
}

#[test]
fn lower_lower_while_creates_blocks() {
    scenario_lower_while_creates_blocks();
}

#[test]
fn tests_lower_target_program_v2() {
    scenario_lower_target_program_v2();
}

#[test]
fn lower_lower_target_program_v2() {
    scenario_lower_target_program_v2();
}

#[test]
fn lower_struct_alloc_store_load() {
    // struct Point { x: i32, y: i32 }
    // fn main() { let p = Point { x: 42, y: 17 }; let val = p.x; }
    let program = lower_module(vec![
        struct_def("Point", vec![("x", "i32"), ("y", "i32")]),
        func(
            "main",
            vec![],
            None,
            block(
                vec![
                    let_stmt("p", None, struct_lit("Point", vec![("x", int_lit("42")), ("y", int_lit("17"))])),
                    let_stmt("val", None, field(ident("p"), "x")),
                ],
                None,
            ),
        ),
    ]);
    let main_fn = program.functions.iter().find(|f| !f.is_extern).unwrap();
    let all_insts: Vec<&Instruction> = main_fn.blocks.iter().flat_map(|b| b.instructions.iter()).collect();

    assert!(all_insts.iter().any(|i| matches!(i, Instruction::Alloc(_, _))), "expected Alloc instruction for struct literal");
    assert!(all_insts.iter().any(|i| matches!(i, Instruction::Store(_, _, _))), "expected Store instruction for field init");
    assert!(all_insts.iter().any(|i| matches!(i, Instruction::Load(_, _, _))), "expected Load instruction for field access");
    assert!(all_insts.iter().any(|i| matches!(i, Instruction::Release(_, _))), "expected Release instruction for scope exit");
}

#[test]
fn lower_struct_caller_retain_callee_release() {
    // struct Point { x: i32, y: i32 }
    // fn use_point(p: Point) { let val = p.x; }
    // fn main() { let p = Point { x: 1, y: 2 }; use_point(p); }
    let program = lower_module(vec![
        struct_def("Point", vec![("x", "i32"), ("y", "i32")]),
        func("use_point", vec![param("p", "Point")], None, block(vec![let_stmt("val", None, field(ident("p"), "x"))], None)),
        func(
            "main",
            vec![],
            None,
            block(
                vec![
                    let_stmt("p", None, struct_lit("Point", vec![("x", int_lit("1")), ("y", int_lit("2"))])),
                    expr_stmt(call("use_point", vec![arg(ident("p"))])),
                ],
                None,
            ),
        ),
    ]);
    // Check main has Retain (caller-retain before calling use_point)
    let main_idx = function_named(&program, "main").unwrap();
    assert!(has_inst(&program, main_idx, |i| matches!(i, Instruction::Retain(_))), "expected Retain in main (caller-retain)");

    // Check use_point has Release (callee-release of param)
    let use_idx = function_named(&program, "use_point").unwrap();
    assert!(
        has_inst(&program, use_idx, |i| matches!(i, Instruction::Release(_, _))),
        "expected Release in use_point (callee-release)"
    );
}

#[test]
fn named_arguments_basic() {
    // fn power(base: i32, exponent: i32) -> i32 { base * exponent }
    // fn main() { let r = power(2, exponent: 3); }
    let program = lower_module(vec![
        func(
            "power",
            vec![param("base", "i32"), param("exponent", "i32")],
            Some("i32"),
            block(vec![], Some(binary(BinOp::Mul, ident("base"), ident("exponent")))),
        ),
        func(
            "main",
            vec![],
            None,
            block(vec![let_stmt("r", None, call("power", vec![arg(int_lit("2")), named("exponent", int_lit("3"))]))], None),
        ),
    ]);
    assert!(program.entry_function.is_some());
}

#[test]
fn named_arguments_all_named() {
    // fn add(a: i32, b: i32) -> i32 { a + b }
    // fn main() { let r = add(a: 1, b: 2); }
    let program = lower_module(vec![
        add_fn(),
        func(
            "main",
            vec![],
            None,
            block(vec![let_stmt("r", None, call("add", vec![named("a", int_lit("1")), named("b", int_lit("2"))]))], None),
        ),
    ]);
    assert!(program.entry_function.is_some());
}

#[test]
fn default_params_basic() {
    // fn repeat_string(s: string, times: i32 = 3) -> i32 { times }
    // fn main() { let a = repeat_string("hello"); let b = repeat_string("world", times: 5); }
    let program = lower_module(vec![
        func(
            "repeat_string",
            vec![param("s", "string"), param_default("times", "i32", int_lit("3"))],
            Some("i32"),
            block(vec![], Some(ident("times"))),
        ),
        func(
            "main",
            vec![],
            None,
            block(
                vec![
                    let_stmt("a", None, call("repeat_string", vec![arg(string("hello"))])),
                    let_stmt("b", None, call("repeat_string", vec![arg(string("world")), named("times", int_lit("5"))])),
                ],
                None,
            ),
        ),
    ]);
    assert!(program.entry_function.is_some());
}

#[test]
fn default_params_multiple() {
    // fn connect(host: string, port: i32 = 8080, timeout_ms: i32 = 30000) -> i32 { port }
    // fn main() {
    //     let a = connect("localhost");
    //     let b = connect("localhost", port: 9090);
    //     let c = connect("localhost", port: 9090, timeout_ms: 5000);
    // }
    let program = lower_module(vec![
        func(
            "connect",
            vec![
                param("host", "string"),
                param_default("port", "i32", int_lit("8080")),
                param_default("timeout_ms", "i32", int_lit("30000")),
            ],
            Some("i32"),
            block(vec![], Some(ident("port"))),
        ),
        func(
            "main",
            vec![],
            None,
            block(
                vec![
                    let_stmt("a", None, call("connect", vec![arg(string("localhost"))])),
                    let_stmt("b", None, call("connect", vec![arg(string("localhost")), named("port", int_lit("9090"))])),
                    let_stmt(
                        "c",
                        None,
                        call(
                            "connect",
                            vec![arg(string("localhost")), named("port", int_lit("9090")), named("timeout_ms", int_lit("5000"))],
                        ),
                    ),
                ],
                None,
            ),
        ),
    ]);
    assert!(program.entry_function.is_some());
}

#[test]
fn impl_block_static_method() {
    // struct Point { x: i32, y: i32 }
    // impl Point { fn new(x: i32, y: i32) -> Point { Point { x: x, y: y } } }
    // fn main() { let p = Point::new(3, y: 4); }
    let program = lower_module(vec![
        struct_def("Point", vec![("x", "i32"), ("y", "i32")]),
        impl_block(
            "Point",
            vec![func(
                "new",
                vec![param("x", "i32"), param("y", "i32")],
                Some("Point"),
                block(vec![], Some(struct_lit("Point", vec![("x", ident("x")), ("y", ident("y"))]))),
            )],
        ),
        func(
            "main",
            vec![],
            None,
            block(vec![let_stmt("p", None, static_call("Point", "new", vec![arg(int_lit("3")), named("y", int_lit("4"))]))], None),
        ),
    ]);
    // Should have a function named Point__new
    let has_point_new = program.functions.iter().any(|f| program.interner.resolve(f.name) == "Point__new");
    assert!(has_point_new, "expected Point__new function");
}

#[test]
fn impl_block_instance_method() {
    // struct Counter { value: i32 }
    // impl Counter {
    //     fn new(start: i32) -> Counter { Counter { value: start } }
    //     fn get(self) -> i32 { self.value }
    //     fn increment(mut self) { self.value = self.value + 1; }
    // }
    // fn main() { let mut c = Counter::new(0); c.increment(); let v = c.get(); }
    let program = lower_module(vec![
        struct_def("Counter", vec![("value", "i32")]),
        impl_block(
            "Counter",
            vec![
                func(
                    "new",
                    vec![param("start", "i32")],
                    Some("Counter"),
                    block(vec![], Some(struct_lit("Counter", vec![("value", ident("start"))]))),
                ),
                func("get", vec![self_param(false)], Some("i32"), block(vec![], Some(field(ident("self"), "value")))),
                func(
                    "increment",
                    vec![self_param(true)],
                    None,
                    block(
                        vec![expr_stmt(assign(
                            field(ident("self"), "value"),
                            binary(BinOp::Add, field(ident("self"), "value"), int_lit("1")),
                        ))],
                        None,
                    ),
                ),
            ],
        ),
        func(
            "main",
            vec![],
            None,
            block(
                vec![
                    let_mut("c", None, static_call("Counter", "new", vec![arg(int_lit("0"))])),
                    expr_stmt(method_call(ident("c"), "increment", vec![])),
                    let_stmt("v", None, method_call(ident("c"), "get", vec![])),
                ],
                None,
            ),
        ),
    ]);
    let has_counter_get = program.functions.iter().any(|f| program.interner.resolve(f.name) == "Counter__get");
    let has_counter_increment =
        program.functions.iter().any(|f| program.interner.resolve(f.name) == "Counter__increment");
    assert!(has_counter_get, "expected Counter__get function");
    assert!(has_counter_increment, "expected Counter__increment function");
}

#[test]
fn struct_field_shorthand() {
    // struct Point { x: i32, y: i32 }
    // fn main() { let x = 3; let y = 4; let p = Point { x, y }; }
    let program = lower_module(vec![
        struct_def("Point", vec![("x", "i32"), ("y", "i32")]),
        func(
            "main",
            vec![],
            None,
            block(
                vec![
                    let_stmt("x", None, int_lit("3")),
                    let_stmt("y", None, int_lit("4")),
                    let_stmt("p", None, struct_lit("Point", vec![("x", ident("x")), ("y", ident("y"))])),
                ],
                None,
            ),
        ),
    ]);
    assert!(program.entry_function.is_some());
}

fn boolean_lit(b: bool) -> SpannedExpr {
    sp(Expr::Literal(Literal::Bool(b)))
}

#[test]
fn lowered_functions_are_numbered_and_return() {
    let program = lower_module(vec![extern_write(), print_fn(), println_fn(), add_fn(), target_main_v2()]);
    for (i, f) in program.functions.iter().enumerate() {
        assert_eq!(f.id.0 as usize, i);
        if f.is_extern {
            assert!(f.blocks.is_empty());
        } else {
            assert!(matches!(f.blocks.last().unwrap().terminator, Terminator::Return(_)));
            assert!(f.blocks.iter().all(|b| b.spans.len() == b.instructions.len()));
        }
    }
    let entry = program.entry_function.unwrap();
    assert_eq!(program.interner.resolve(program.functions[entry.0 as usize].name), "main");
}

#[test]
fn repeated_literal_refers_to_one_constant() {
    // fn main() { __str_ptr("same"); __str_ptr("other"); __str_ptr("same"); }
    let program = lower_module(vec![func(
        "main",
        vec![],
        None,
        block(
            vec![
                expr_stmt(call("__str_ptr", vec![arg(string("same"))])),
                expr_stmt(call("__str_ptr", vec![arg(string("other"))])),
                expr_stmt(call("__str_ptr", vec![arg(string("same"))])),
            ],
            None,
        ),
    )]);
    assert_eq!(program.string_constants, vec!["same".to_string(), "other".to_string()]);
    let indexes: Vec<u32> = program.functions[0]
        .blocks
        .iter()
        .flat_map(|b| b.instructions.iter())
        .filter_map(|i| match i {
            Instruction::Const(_, ConstValue::StringLiteral(k)) => Some(*k),
            _ => None,
        })
        .collect();
    assert_eq!(indexes, vec![0, 1, 0]);
}

#[test]
fn missing_argument_takes_default_value() {
    // fn repeat_string(s: string, times: i32 = 3) -> i32 { times }
    // fn main() { let a = repeat_string("hello"); }
    let program = lower_module(vec![
        func(
            "repeat_string",
            vec![param("s", "string"), param_default("times", "i32", int_lit("3"))],
            Some("i32"),
            block(vec![], Some(ident("times"))),
        ),
        func("main", vec![], None, block(vec![let_stmt("a", None, call("repeat_string", vec![arg(string("hello"))]))], None)),
    ]);
    let main_idx = function_named(&program, "main").unwrap();
    assert!(has_inst(&program, main_idx, |i| matches!(i, Instruction::Const(_, ConstValue::I32(3)))));
    assert!(has_inst(&program, main_idx, |i| matches!(i, Instruction::Call(_, FunctionRef::Named(_), args) if args.len() == 2)));
}

#[test]
fn short_circuit_and_branches() {
    // fn main() { let b = true && false; }
    let program = lower_module(vec![func(
        "main",
        vec![],
        None,
        block(vec![let_stmt("b", None, binary(BinOp::And, boolean_lit(true), boolean_lit(false)))], None),
    )]);
    let f = &program.functions[0];
    assert!(f.blocks.iter().any(|b| matches!(b.terminator, Terminator::Branch(_, _, _))));
    assert!(f.blocks.len() >= 4);
}

#[test]
fn closure_thunk_takes_env_then_params() {
    // A closure `|x: i32| x + 1` with no captures, lowered as thunk 7.
    let module = Module { items: vec![] };
    let (checked, _) = Checker::new().check(&module);
    let mut lowerer = Lowerer::new(checked);
    let body = sp(Expr::Binary {
        op: BinOp::Add,
        left: Box::new(ident("x")),
        right: Box::new(int_lit("1")),
    });
    let closure = lib::lower::PendingClosure {
        func_id: lib::ir::FunctionId(7),
        capture_names: vec![],
        capture_types: vec![],
        params: vec![("x".to_string(), lib::types::TypeId(3))],
        body,
        return_type: lib::types::TypeId(3),
        span: Span::dummy(),
    };
    let f = lowerer.lower_closure_thunk(&module, &closure);
    assert_eq!(f.id, lib::ir::FunctionId(7));
    assert!(!f.is_extern);
    assert_eq!(f.params.len(), 2);
    assert_eq!(f.params[0].1, lib::types::TypeId(4));
    assert_eq!(f.params[1].1, lib::types::TypeId(3));
    assert_eq!(lowerer.interner.resolve(f.name), "__closure_7");
    let last = f.blocks.last().unwrap();
    assert!(matches!(last.terminator, Terminator::Return(_)));
    assert!(f.blocks.iter().any(|b| b.instructions.iter().any(|i| matches!(i, Instruction::Add(_, l, _) if l.0 == 1))));
}

#[test]
fn program_lists_externs_then_functions_and_methods_in_order() {
    // extern { fn write(...) -> i64; }
    // struct Counter { value: i32 }
    // impl Counter { fn get(self) -> i32 { 0 } }
    // fn main() {}
    let get = func("get", vec![], Some("i32"), block(vec![], Some(int_lit("0"))));
    let program = lower_module(vec![
        extern_write(),
        struct_def("Counter", vec![("value", "i32")]),
        impl_block("Counter", vec![get]),
        empty_main(),
    ]);
    assert_eq!(program.extern_libs, vec!["System".to_string()]);
    let names: Vec<&str> = program.functions.iter().map(|f| program.interner.resolve(f.name)).collect();
    assert_eq!(names, vec!["write", "Counter__get", "main"]);
    assert!(program.functions[0].is_extern);
    assert_eq!(program.entry_function, Some(program.functions[2].id));
}
