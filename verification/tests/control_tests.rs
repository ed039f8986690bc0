// Casts, compound assignment, `if let`, `loop`, `break` and `continue`,
// checked and lowered.  Each program is written out as the syntax tree the
// parser gives for the source text quoted above it.

use lib::ast::{
    BinOp, Block, EnumVariantDef, Expr, Item, Literal, Module, Param, Pattern, SpannedExpr,
    SpannedItem, SpannedStmt, Stmt, TypeExpr, VariantKind,
};
use lib::checker::Checker;
use lib::diagnostic::DiagnosticBag;
use lib::ir::{ConstValue, Instruction, Program, Terminator};
use lib::lower::Lowerer;
use lib::span::{Span, Spanned};

fn sp<T>(node: T) -> Spanned<T> {
    Spanned::new(node, Span::dummy())
}

fn ty(name: &str) -> Spanned<TypeExpr> {
    sp(TypeExpr::Named(name.to_string()))
}

fn ident(name: &str) -> SpannedExpr {
    sp(Expr::Ident(name.to_string()))
}

fn int_lit(text: &str) -> SpannedExpr {
    sp(Expr::Literal(Literal::Int(text.to_string(), None)))
}

fn string(text: &str) -> SpannedExpr {
    sp(Expr::Literal(Literal::String(text.to_string())))
}

fn boolean(b: bool) -> SpannedExpr {
    sp(Expr::Literal(Literal::Bool(b)))
}

fn cast(e: SpannedExpr, to: &str) -> SpannedExpr {
    sp(Expr::Cast { expr: Box::new(e), target_type: ty(to) })
}

fn compound(op: BinOp, target: SpannedExpr, value: SpannedExpr) -> SpannedExpr {
    sp(Expr::CompoundAssign { op, target: Box::new(target), value: Box::new(value) })
}

fn block(stmts: Vec<SpannedStmt>, tail: Option<SpannedExpr>) -> Block {
    Block { stmts, tail_expr: tail.map(Box::new) }
}

fn expr_stmt(e: SpannedExpr) -> SpannedStmt {
    sp(Stmt::Expr(e))
}

fn let_stmt(name: &str, ty_name: Option<&str>, value: SpannedExpr) -> SpannedStmt {
    sp(Stmt::Let { name: sp(name.to_string()), ty: ty_name.map(ty), value, is_mut: false })
}

fn let_mut(name: &str, ty_name: Option<&str>, value: SpannedExpr) -> SpannedStmt {
    sp(Stmt::Let { name: sp(name.to_string()), ty: ty_name.map(ty), value, is_mut: true })
}

fn param(name: &str, ty_name: &str) -> Param {
    Param { name: name.to_string(), ty: ty(ty_name), default_value: None, is_self: false, is_mut: false }
}

fn func(name: &str, params: Vec<Param>, ret: Option<&str>, body: Block) -> SpannedItem {
    sp(Item::FnDef { name: name.to_string(), params, return_type: ret.map(ty), body: sp(body), is_pub: false })
}

fn main_with(stmts: Vec<SpannedStmt>) -> SpannedItem {
    func("main", vec![], None, block(stmts, None))
}

fn option_enum() -> SpannedItem {
    // enum Opt { Some(i32), None }
    sp(Item::EnumDef {
        name: "Opt".to_string(),
        variants: vec![
            EnumVariantDef { name: "Some".to_string(), kind: VariantKind::Tuple(vec![ty("i32")]) },
            EnumVariantDef { name: "None".to_string(), kind: VariantKind::Unit },
        ],
        is_pub: false,
    })
}

fn if_let_some(scrutinee: SpannedExpr, then_tail: SpannedExpr, else_branch: Option<SpannedExpr>) -> SpannedExpr {
    // if let Opt::Some(v) = scrutinee { then_tail } else { .. }
    sp(Expr::IfLet {
        pattern: sp(Pattern::Enum {
            enum_name: Some("Opt".to_string()),
            variant: "Some".to_string(),
            fields: vec![sp(Pattern::Binding("v".to_string()))],
        }),
        scrutinee: Box::new(scrutinee),
        then_branch: sp(block(vec![], Some(then_tail))),
        else_branch: else_branch.map(Box::new),
    })
}

fn some(value: SpannedExpr) -> SpannedExpr {
    sp(Expr::StaticCall {
        owner: "Opt".to_string(),
        method: "Some".to_string(),
        args: vec![lib::ast::CallArg { name: None, value }],
    })
}

fn loop_expr(body: Block, label: Option<&str>) -> SpannedExpr {
    sp(Expr::Loop { body: sp(body), label: label.map(|l| l.to_string()) })
}

fn break_expr(label: Option<&str>) -> SpannedExpr {
    sp(Expr::Break { value: None, label: label.map(|l| l.to_string()) })
}

fn continue_expr(label: Option<&str>) -> SpannedExpr {
    sp(Expr::Continue { label: label.map(|l| l.to_string()) })
}

fn if_expr(condition: SpannedExpr, then_branch: Block) -> SpannedExpr {
    sp(Expr::If { condition: Box::new(condition), then_branch: sp(then_branch), else_branch: None })
}

fn binary(op: BinOp, left: SpannedExpr, right: SpannedExpr) -> SpannedExpr {
    sp(Expr::Binary { op, left: Box::new(left), right: Box::new(right) })
}

fn messages(items: Vec<SpannedItem>) -> Vec<String> {
    let (_, diags): (_, DiagnosticBag) = Checker::new().check(&Module { items });
    diags.reports().into_iter().map(|r| r.message).collect()
}

fn lower_module(items: Vec<SpannedItem>) -> Program {
    let module = Module { items };
    let (checked, diags) = Checker::new().check(&module);
    assert!(!diags.has_errors(), "checker errors: {:?}", diags.reports());
    Lowerer::new(checked).lower(&module)
}

fn insts_of<'a>(program: &'a Program, name: &str) -> Vec<&'a Instruction> {
    let f = program.functions.iter().find(|f| program.interner.resolve(f.name) == name).unwrap();
    f.blocks.iter().flat_map(|b| b.instructions.iter()).collect()
}

#[test]
fn numeric_casts_have_the_target_type() {
    // fn main() { let a: i64 = 1 as i64; let c: u8 = 'a' as u8; let b: i32 = true as i32; }
    let char_lit = sp(Expr::Literal(Literal::Char('a')));
    assert!(messages(vec![main_with(vec![
        let_stmt("a", Some("i64"), cast(int_lit("1"), "i64")),
        let_stmt("c", Some("u8"), cast(char_lit, "u8")),
        let_stmt("b", Some("i32"), cast(boolean(true), "i32")),
    ])])
    .is_empty());
}

#[test]
fn cast_of_a_string_is_rejected() {
    // fn main() { let n = "x" as i32; }
    assert_eq!(
        messages(vec![main_with(vec![let_stmt("n", None, cast(string("x"), "i32"))])]),
        vec!["operator 'as' cannot be applied to type 'string as i32'".to_string()]
    );
}

#[test]
fn cast_to_an_unknown_type_reports_the_type_only() {
    // fn main() { let n = 1 as Foo; }
    assert_eq!(
        messages(vec![main_with(vec![let_stmt("n", None, cast(int_lit("1"), "Foo"))])]),
        vec!["unknown type 'Foo'".to_string()]
    );
}

#[test]
fn compound_assignment_to_mutable_number() {
    // fn main() { let mut x = 1; x += 2; }
    assert!(messages(vec![main_with(vec![
        let_mut("x", None, int_lit("1")),
        expr_stmt(compound(BinOp::Add, ident("x"), int_lit("2"))),
    ])])
    .is_empty());
}

#[test]
fn compound_assignment_to_immutable_local() {
    // fn main() { let x = 1; x += 2; }
    assert_eq!(
        messages(vec![main_with(vec![
            let_stmt("x", None, int_lit("1")),
            expr_stmt(compound(BinOp::Add, ident("x"), int_lit("2"))),
        ])]),
        vec!["cannot assign to immutable variable 'x'".to_string()]
    );
}

#[test]
fn compound_bitwise_assignment_needs_an_integer() {
    // fn main() { let mut s = "a"; s |= "b"; }
    assert_eq!(
        messages(vec![main_with(vec![
            let_mut("s", None, string("a")),
            expr_stmt(compound(BinOp::BitOr, ident("s"), string("b"))),
        ])]),
        vec!["operator 'bitor' cannot be applied to type 'string'".to_string()]
    );
}

#[test]
fn compound_assignment_value_must_match() {
    // fn main() { let mut x = 1; x -= true; }
    assert_eq!(
        messages(vec![main_with(vec![
            let_mut("x", None, int_lit("1")),
            expr_stmt(compound(BinOp::Sub, ident("x"), boolean(true))),
        ])]),
        vec!["type mismatch: expected 'i32', found 'bool'".to_string()]
    );
}

#[test]
fn compound_assignment_to_unknown_name() {
    // fn main() { y *= 2; }
    assert_eq!(
        messages(vec![main_with(vec![expr_stmt(compound(BinOp::Mul, ident("y"), int_lit("2")))])]),
        vec!["undefined variable 'y'".to_string()]
    );
}

#[test]
fn if_let_binds_the_variant_field() {
    // fn get(o: Opt) -> i32 { if let Opt::Some(v) = o { v } else { 0 } }
    assert!(messages(vec![
        option_enum(),
        func("get", vec![param("o", "Opt")], Some("i32"), block(vec![], Some(if_let_some(ident("o"), ident("v"), Some(int_lit("0")))))),
        main_with(vec![]),
    ])
    .is_empty());
}

#[test]
fn if_let_branches_must_agree() {
    // fn main() { let o = Opt::Some(1); let x = if let Opt::Some(v) = o { v } else { "no" }; }
    assert_eq!(
        messages(vec![
            option_enum(),
            main_with(vec![
                let_stmt("o", None, some(int_lit("1"))),
                let_stmt("x", None, if_let_some(ident("o"), ident("v"), Some(string("no")))),
            ]),
        ]),
        vec!["type mismatch: expected 'i32', found 'string'".to_string()]
    );
}

#[test]
fn if_let_binding_is_gone_after_the_block() {
    // fn main() { let o = Opt::Some(1); if let Opt::Some(v) = o { v }; let w = v; }
    assert_eq!(
        messages(vec![
            option_enum(),
            main_with(vec![
                let_stmt("o", None, some(int_lit("1"))),
                expr_stmt(if_let_some(ident("o"), ident("v"), None)),
                let_stmt("w", None, ident("v")),
            ]),
        ]),
        vec!["undefined variable 'v'".to_string()]
    );
}

#[test]
fn block_ending_in_break_diverges() {
    // fn f(n: i32) -> i32 { loop { let v: i32 = match n { 0 => { break; }, m => m }; } 1 }
    let arms = vec![
        lib::ast::MatchArm {
            pattern: sp(Pattern::Literal(Literal::Int("0".to_string(), None))),
            guard: None,
            body: sp(Expr::Block(block(vec![expr_stmt(break_expr(None))], None))),
        },
        lib::ast::MatchArm { pattern: sp(Pattern::Binding("m".to_string())), guard: None, body: ident("m") },
    ];
    let m = sp(Expr::Match { scrutinee: Box::new(ident("n")), arms });
    assert!(messages(vec![
        func(
            "f",
            vec![param("n", "i32")],
            Some("i32"),
            block(vec![expr_stmt(loop_expr(block(vec![let_stmt("v", Some("i32"), m)], None), None))], Some(int_lit("1"))),
        ),
        main_with(vec![]),
    ])
    .is_empty());
}

#[test]
fn loop_has_unit_type() {
    // fn main() { let x: i32 = loop { break; }; }
    assert_eq!(
        messages(vec![main_with(vec![let_stmt(
            "x",
            Some("i32"),
            loop_expr(block(vec![expr_stmt(break_expr(None))], None), None),
        )])]),
        vec!["type mismatch: expected 'i32', found 'unit'".to_string()]
    );
}

#[test]
fn lowered_cast_converts_into_a_register_of_the_target_type() {
    // fn main() { let a = 1 as i64; }
    let program = lower_module(vec![main_with(vec![let_stmt("a", None, cast(int_lit("1"), "i64"))])]);
    let insts = insts_of(&program, "main");
    assert!(insts.iter().any(|i| matches!(i, Instruction::Cast(_, _, t) if t.0 == 4)));
}

#[test]
fn lowered_compound_assignment_computes_into_a_new_register() {
    // fn f() -> i32 { let mut x = 1; x += 2; x }
    let program = lower_module(vec![
        func(
            "f",
            vec![],
            Some("i32"),
            block(vec![let_mut("x", None, int_lit("1")), expr_stmt(compound(BinOp::Add, ident("x"), int_lit("2")))], Some(ident("x"))),
        ),
        main_with(vec![]),
    ]);
    let f = program.functions.iter().find(|f| program.interner.resolve(f.name) == "f").unwrap();
    let insts: Vec<&Instruction> = f.blocks.iter().flat_map(|b| b.instructions.iter()).collect();
    let add_dst = insts
        .iter()
        .find_map(|i| if let Instruction::Add(d, _, _) = i { Some(*d) } else { None })
        .expect("an addition");
    // `x` now lives in the addition's result, which the function returns.
    match f.blocks.last().unwrap().terminator {
        Terminator::Return(r) => assert_eq!(r, add_dst),
        ref t => panic!("unexpected terminator {:?}", t),
    }
}

#[test]
fn lowered_if_let_compares_the_tag() {
    // fn get(o: Opt) -> i32 { if let Opt::Some(v) = o { v } else { 0 } }
    let program = lower_module(vec![
        option_enum(),
        func("get", vec![param("o", "Opt")], Some("i32"), block(vec![], Some(if_let_some(ident("o"), ident("v"), Some(int_lit("0")))))),
        main_with(vec![]),
    ]);
    let insts = insts_of(&program, "get");
    assert!(insts.iter().any(|i| matches!(i, Instruction::Load(_, _, 0))));
    assert!(insts.iter().any(|i| matches!(i, Instruction::Const(_, ConstValue::I32(0)))));
    assert!(insts.iter().any(|i| matches!(i, Instruction::Eq(_, _, _))));
    assert!(insts.iter().any(|i| matches!(i, Instruction::Load(_, _, 1))));
    assert_eq!(insts.iter().filter(|i| matches!(i, Instruction::Copy(_, _))).count(), 2);
}

#[test]
fn lowered_break_jumps_past_the_loop() {
    // fn main() { loop { break; } }
    let program = lower_module(vec![main_with(vec![expr_stmt(loop_expr(block(vec![expr_stmt(break_expr(None))], None), None))])]);
    let f = program.functions.iter().find(|f| program.interner.resolve(f.name) == "main").unwrap();
    // entry jumps to the body; the body jumps to the exit (break)
    let body = match f.blocks[0].terminator {
        Terminator::Jump(b) => b,
        ref t => panic!("unexpected terminator {:?}", t),
    };
    let body_block = f.blocks.iter().find(|b| b.id == body).unwrap();
    let exit = match body_block.terminator {
        Terminator::Jump(b) => b,
        ref t => panic!("unexpected terminator {:?}", t),
    };
    assert_ne!(exit, body);
    assert!(f.blocks.iter().any(|b| b.id == exit));
}

#[test]
fn lowered_continue_in_while_jumps_to_the_condition() {
    // fn main() { let mut i = 0; while i < 3 { i += 1; continue; } }
    let program = lower_module(vec![main_with(vec![
        let_mut("i", None, int_lit("0")),
        expr_stmt(sp(Expr::While {
            condition: Box::new(binary(BinOp::Lt, ident("i"), int_lit("3"))),
            body: sp(block(vec![expr_stmt(compound(BinOp::Add, ident("i"), int_lit("1"))), expr_stmt(continue_expr(None))], None)),
            label: None,
        })),
    ])]);
    let f = program.functions.iter().find(|f| program.interner.resolve(f.name) == "main").unwrap();
    let cond = match f.blocks[0].terminator {
        Terminator::Jump(b) => b,
        ref t => panic!("unexpected terminator {:?}", t),
    };
    // Three jumps lead to the condition: from the entry, the `continue` and the end of the body.
    let back = f.blocks.iter().filter(|b| matches!(b.terminator, Terminator::Jump(t) if t == cond)).count();
    assert_eq!(back, 3);
}

#[test]
fn labelled_break_leaves_the_outer_loop() {
    // fn main() { 'outer: loop { loop { break 'outer; } } }
    let inner = loop_expr(block(vec![expr_stmt(break_expr(Some("outer")))], None), None);
    let outer = loop_expr(block(vec![expr_stmt(inner)], None), Some("outer"));
    let program = lower_module(vec![main_with(vec![expr_stmt(outer)])]);
    let f = program.functions.iter().find(|f| program.interner.resolve(f.name) == "main").unwrap();
    // The outer body block is the target of the entry's jump; its exit block id is one more
    // than it (ids are handed out in order).
    let outer_body = match f.blocks[0].terminator {
        Terminator::Jump(b) => b,
        ref t => panic!("unexpected terminator {:?}", t),
    };
    let outer_exit = lib::ir::BlockId(outer_body.0 + 1);
    assert!(f.blocks.iter().any(|b| matches!(b.terminator, Terminator::Jump(t) if t == outer_exit)));
}

#[test]
fn break_outside_a_loop_lowers_to_unit() {
    // fn main() { if true { break; } }  -- rejected by no rule of the checker, lowered to nothing
    let program = lower_module(vec![main_with(vec![expr_stmt(if_expr(boolean(true), block(vec![expr_stmt(break_expr(None))], None)))])]);
    let insts = insts_of(&program, "main");
    assert!(insts.iter().any(|i| matches!(i, Instruction::ConstUnit(_))));
}


fn range(start: SpannedExpr, end: SpannedExpr, inclusive: bool) -> SpannedExpr {
    sp(Expr::Range { start: Box::new(start), end: Box::new(end), inclusive })
}

fn for_expr(binding: &str, iter: SpannedExpr, body: Block) -> SpannedExpr {
    sp(Expr::For { binding: binding.to_string(), iter: Box::new(iter), body: sp(body) })
}

#[test]
fn for_over_a_range_binds_an_integer() {
    // fn main() { let mut s = 0; for i in 0..10 { s += i; } }
    assert!(messages(vec![main_with(vec![
        let_mut("s", None, int_lit("0")),
        expr_stmt(for_expr(
            "i",
            range(int_lit("0"), int_lit("10"), false),
            block(vec![expr_stmt(compound(BinOp::Add, ident("s"), ident("i")))], None),
        )),
    ])])
    .is_empty());
}

#[test]
fn for_binding_is_not_visible_after_the_loop() {
    // fn main() { for i in 0..3 {} let j = i; }
    assert_eq!(
        messages(vec![main_with(vec![
            expr_stmt(for_expr("i", range(int_lit("0"), int_lit("3"), false), block(vec![], None))),
            let_stmt("j", None, ident("i")),
        ])]),
        vec!["undefined variable 'i'".to_string()]
    );
}

#[test]
fn range_ends_must_agree() {
    // fn main() { for i in 0..true {} }
    assert_eq!(
        messages(vec![main_with(vec![expr_stmt(for_expr(
            "i",
            range(int_lit("0"), boolean(true), false),
            block(vec![], None),
        ))])]),
        vec!["type mismatch: expected 'i32', found 'bool'".to_string()]
    );
}

#[test]
fn range_of_strings_is_rejected() {
    // fn main() { for i in "a".."b" {} }
    assert_eq!(
        messages(vec![main_with(vec![expr_stmt(for_expr(
            "i",
            range(string("a"), string("b"), false),
            block(vec![], None),
        ))])]),
        vec!["operator 'range' cannot be applied to type 'string'".to_string()]
    );
}

#[test]
fn for_over_a_non_range_is_rejected() {
    // fn main() { for c in "abc" {} }
    assert_eq!(
        messages(vec![main_with(vec![expr_stmt(for_expr("c", string("abc"), block(vec![], None)))])]),
        vec!["operator 'for-in' cannot be applied to type 'string'".to_string()]
    );
}

#[test]
fn lowered_for_range_counts_up_to_the_end() {
    // fn main() { for i in 0..=3 {} }
    let program = lower_module(vec![main_with(vec![expr_stmt(for_expr(
        "i",
        range(int_lit("0"), int_lit("3"), true),
        block(vec![], None),
    ))])]);
    let insts = insts_of(&program, "main");
    assert!(insts.iter().any(|i| matches!(i, Instruction::Le(_, _, _))));
    assert!(!insts.iter().any(|i| matches!(i, Instruction::Lt(_, _, _))));
    assert!(insts.iter().any(|i| matches!(i, Instruction::Add(_, _, _))));
    let f = program.functions.iter().find(|f| program.interner.resolve(f.name) == "main").unwrap();
    assert_eq!(f.blocks.iter().filter(|b| matches!(b.terminator, Terminator::Branch(_, _, _))).count(), 1);
}

fn template(parts: Vec<&str>, exprs: Vec<SpannedExpr>) -> SpannedExpr {
    sp(Expr::Literal(Literal::TemplateString { parts: parts.into_iter().map(|p| p.to_string()).collect(), exprs }))
}

#[test]
fn template_string_is_a_string() {
    // fn main() { let n = 3; let s: string = `n = {n}!`; }
    assert!(messages(vec![main_with(vec![
        let_stmt("n", None, int_lit("3")),
        let_stmt("s", Some("string"), template(vec!["n = ", "!"], vec![ident("n")])),
    ])])
    .is_empty());
}

#[test]
fn template_string_checks_its_expressions() {
    // fn main() { let s = `{missing}`; }
    assert_eq!(
        messages(vec![main_with(vec![let_stmt("s", None, template(vec!["", ""], vec![ident("missing")]))])]),
        vec!["undefined variable 'missing'".to_string()]
    );
}

#[test]
fn lowered_template_string_converts_and_concatenates() {
    // fn main() { let n = 3; let b = true; let s = `n={n}, b={b}`; }
    let program = lower_module(vec![main_with(vec![
        let_stmt("n", None, int_lit("3")),
        let_stmt("b", None, boolean(true)),
        let_stmt("s", None, template(vec!["n=", ", b=", ""], vec![ident("n"), ident("b")])),
    ])]);
    let insts = insts_of(&program, "main");
    let called: Vec<&str> = insts
        .iter()
        .filter_map(|i| match i {
            Instruction::Call(_, lib::ir::FunctionRef::Builtin(s), _) => Some(program.interner.resolve(*s)),
            _ => None,
        })
        .collect();
    assert_eq!(called, vec!["__i32_to_str", "__str_concat", "__str_concat", "__bool_to_str", "__str_concat"]);
    assert!(program.string_constants.iter().any(|c| c == "n="));
    assert!(program.string_constants.iter().any(|c| c == ", b="));
}

fn index(object: SpannedExpr, idx: SpannedExpr) -> SpannedExpr {
    sp(Expr::IndexAccess { object: Box::new(object), index: Box::new(idx) })
}

#[test]
fn indexing_a_string_gives_a_char() {
    // fn main() { let s = "abc"; let c: char = s[1]; }
    assert!(messages(vec![main_with(vec![
        let_stmt("s", None, string("abc")),
        let_stmt("c", Some("char"), index(ident("s"), int_lit("1"))),
    ])])
    .is_empty());
}

#[test]
fn index_must_be_an_integer() {
    // fn main() { let s = "abc"; let c = s[true]; }
    assert_eq!(
        messages(vec![main_with(vec![
            let_stmt("s", None, string("abc")),
            let_stmt("c", None, index(ident("s"), boolean(true))),
        ])]),
        vec!["operator 'index' cannot be applied to type 'bool'".to_string()]
    );
}

#[test]
fn only_strings_can_be_indexed() {
    // fn main() { let n = 5; let c = n[0]; }
    assert_eq!(
        messages(vec![main_with(vec![
            let_stmt("n", None, int_lit("5")),
            let_stmt("c", None, index(ident("n"), int_lit("0"))),
        ])]),
        vec!["operator 'index' cannot be applied to type 'i32'".to_string()]
    );
}

#[test]
fn assigning_to_a_string_element_is_rejected() {
    // fn main() { let mut s = "abc"; s[0] = 'x'; }
    let assign = sp(Expr::Assign {
        target: Box::new(index(ident("s"), int_lit("0"))),
        value: Box::new(sp(Expr::Literal(Literal::Char('x')))),
    });
    assert_eq!(
        messages(vec![main_with(vec![let_mut("s", None, string("abc")), expr_stmt(assign)])]),
        vec!["operator 'index' cannot be applied to type 'string'".to_string()]
    );
}

#[test]
fn lowered_index_loads_an_element() {
    // fn main() { let s = "abc"; let c = s[1]; }
    let program = lower_module(vec![main_with(vec![
        let_stmt("s", None, string("abc")),
        let_stmt("c", None, index(ident("s"), int_lit("1"))),
    ])]);
    let insts = insts_of(&program, "main");
    assert!(insts.iter().any(|i| matches!(i, Instruction::IndexLoad(_, _, _, _))));
}

fn const_stmt(name: &str, ty_name: Option<&str>, value: SpannedExpr) -> SpannedStmt {
    sp(Stmt::Const { name: sp(name.to_string()), ty: ty_name.map(ty), value })
}

#[test]
fn const_binds_an_immutable_local() {
    // fn main() { const N: i64 = 3; let m: i64 = N; N = 4; }
    let assign = sp(Expr::Assign { target: Box::new(ident("N")), value: Box::new(int_lit("4")) });
    assert_eq!(
        messages(vec![main_with(vec![
            const_stmt("N", Some("i64"), int_lit("3")),
            let_stmt("m", Some("i64"), ident("N")),
            expr_stmt(assign),
        ])]),
        vec!["cannot assign to immutable variable 'N'".to_string(), "type mismatch: expected 'i64', found 'i32'".to_string()]
    );
}

#[test]
fn const_with_a_wrong_type_is_reported() {
    // fn main() { const S: string = 1 > 2; }
    assert_eq!(
        messages(vec![main_with(vec![const_stmt("S", Some("string"), binary(BinOp::Gt, int_lit("1"), int_lit("2")))])]),
        vec!["type mismatch: expected 'string', found 'bool'".to_string()]
    );
}

fn defer_stmt(body: Block) -> SpannedStmt {
    sp(Stmt::Defer { body: sp(body) })
}

fn call(name: &str) -> SpannedExpr {
    sp(Expr::Call { callee: Box::new(ident(name)), args: vec![] })
}

#[test]
fn deferred_block_is_checked() {
    // fn main() { defer { let y = z; } }
    assert_eq!(
        messages(vec![main_with(vec![defer_stmt(block(vec![let_stmt("y", None, ident("z"))], None))])]),
        vec!["undefined variable 'z'".to_string()]
    );
}

#[test]
fn names_bound_in_a_deferred_block_stay_inside_it() {
    // fn main() { defer { let y = 1; } let z = y; }
    assert_eq!(
        messages(vec![main_with(vec![
            defer_stmt(block(vec![let_stmt("y", None, int_lit("1"))], None)),
            let_stmt("z", None, ident("y")),
        ])]),
        vec!["undefined variable 'y'".to_string()]
    );
}

#[test]
fn deferred_blocks_run_after_the_body_last_first() {
    // fn a() {} fn b() {} fn c() {}
    // fn main() { defer { a(); } defer { b(); } c(); }
    let program = lower_module(vec![
        func("a", vec![], None, block(vec![], None)),
        func("b", vec![], None, block(vec![], None)),
        func("c", vec![], None, block(vec![], None)),
        main_with(vec![
            defer_stmt(block(vec![expr_stmt(call("a"))], None)),
            defer_stmt(block(vec![expr_stmt(call("b"))], None)),
            expr_stmt(call("c")),
        ]),
    ]);
    let called: Vec<String> = insts_of(&program, "main")
        .into_iter()
        .filter_map(|i| match i {
            Instruction::Call(_, lib::ir::FunctionRef::Named(s), _) => Some(program.interner.resolve(*s).to_string()),
            _ => None,
        })
        .collect();
    assert_eq!(called, vec!["c".to_string(), "b".to_string(), "a".to_string()]);
}

#[test]
fn deferred_block_inside_an_if_is_run_at_the_end() {
    // fn a() {} fn c() {}
    // fn main() { if true { defer { a(); } } c(); }
    let program = lower_module(vec![
        func("a", vec![], None, block(vec![], None)),
        func("c", vec![], None, block(vec![], None)),
        main_with(vec![
            expr_stmt(if_expr(boolean(true), block(vec![defer_stmt(block(vec![expr_stmt(call("a"))], None))], None))),
            expr_stmt(call("c")),
        ]),
    ]);
    let called: Vec<String> = insts_of(&program, "main")
        .into_iter()
        .filter_map(|i| match i {
            Instruction::Call(_, lib::ir::FunctionRef::Named(s), _) => Some(program.interner.resolve(*s).to_string()),
            _ => None,
        })
        .collect();
    assert_eq!(called, vec!["c".to_string(), "a".to_string()]);
}

fn alias(name: &str, target: &str) -> SpannedItem {
    sp(Item::TypeAlias { name: name.to_string(), ty: ty(target), is_pub: false })
}

#[test]
fn type_alias_stands_for_its_type() {
    // type Num = i32; fn main() { let x: Num = 5; let y: i32 = x; }
    assert!(messages(vec![
        alias("Num", "i32"),
        main_with(vec![let_stmt("x", Some("Num"), int_lit("5")), let_stmt("y", Some("i32"), ident("x"))]),
    ])
    .is_empty());
}

#[test]
fn value_of_another_type_than_the_alias_is_rejected() {
    // type Num = i32; fn main() { let x: Num = "a"; }
    assert_eq!(
        messages(vec![alias("Num", "i32"), main_with(vec![let_stmt("x", Some("Num"), string("a"))])]),
        vec!["type mismatch: expected 'i32', found 'string'".to_string()]
    );
}

#[test]
fn alias_of_an_unknown_type_is_reported() {
    // type Bad = Foo; fn main() {}
    assert_eq!(messages(vec![alias("Bad", "Foo"), main_with(vec![])]), vec!["unknown type 'Foo'".to_string()]);
}

#[test]
fn lowered_parameter_of_an_alias_type_has_the_aliased_type() {
    // type Big = i64; fn id(x: Big) -> Big { x } fn main() {}
    let program = lower_module(vec![
        alias("Big", "i64"),
        func("id", vec![param("x", "Big")], Some("Big"), block(vec![], Some(ident("x")))),
        main_with(vec![]),
    ]);
    let f = program.functions.iter().find(|f| program.interner.resolve(f.name) == "id").unwrap();
    assert_eq!(f.params[0].1, lib::types::TypeId(4));
    assert_eq!(f.return_type, lib::types::TypeId(4));
}

fn try_expr(e: SpannedExpr) -> SpannedExpr {
    sp(Expr::QuestionMark(Box::new(e)))
}

fn two_variant_enum(name: &str, ok: &str, ok_ty: &str, fail: &str, fail_ty: Option<&str>) -> SpannedItem {
    sp(Item::EnumDef {
        name: name.to_string(),
        variants: vec![
            EnumVariantDef { name: ok.to_string(), kind: VariantKind::Tuple(vec![ty(ok_ty)]) },
            EnumVariantDef {
                name: fail.to_string(),
                kind: match fail_ty {
                    Some(t) => VariantKind::Tuple(vec![ty(t)]),
                    None => VariantKind::Unit,
                },
            },
        ],
        is_pub: false,
    })
}

fn wrap(owner: &str, variant: &str, value: SpannedExpr) -> SpannedExpr {
    sp(Expr::StaticCall {
        owner: owner.to_string(),
        method: variant.to_string(),
        args: vec![lib::ast::CallArg { name: None, value }],
    })
}

#[test]
fn question_mark_on_an_option_gives_the_held_value() {
    // enum Option { Some(i32), None }
    // fn f(o: Option) -> Option { let v: i32 = o?; Option::Some(v) }
    assert!(messages(vec![
        two_variant_enum("Option", "Some", "i32", "None", None),
        func(
            "f",
            vec![param("o", "Option")],
            Some("Option"),
            block(vec![let_stmt("v", Some("i32"), try_expr(ident("o")))], Some(wrap("Option", "Some", ident("v")))),
        ),
        main_with(vec![]),
    ])
    .is_empty());
}

#[test]
fn question_mark_on_a_result_gives_the_ok_type() {
    // enum Result { Ok(i64), Err(string) }
    // fn f(r: Result) -> Result { let w: i32 = r?; r }
    assert_eq!(
        messages(vec![
            two_variant_enum("Result", "Ok", "i64", "Err", Some("string")),
            func(
                "f",
                vec![param("r", "Result")],
                Some("Result"),
                block(vec![let_stmt("w", Some("i32"), try_expr(ident("r")))], Some(ident("r"))),
            ),
            main_with(vec![]),
        ]),
        vec!["type mismatch: expected 'i32', found 'i64'".to_string()]
    );
}

#[test]
fn question_mark_on_a_plain_value_passes_it_through() {
    // fn main() { let x: i32 = 5?; }
    assert!(messages(vec![main_with(vec![let_stmt("x", Some("i32"), try_expr(int_lit("5")))])]).is_empty());
}

#[test]
fn lowered_question_mark_on_an_option_returns_early() {
    // enum Option { Some(i32), None }
    // fn f(o: Option) -> Option { let v: i32 = o?; Option::Some(v) }
    let program = lower_module(vec![
        two_variant_enum("Option", "Some", "i32", "None", None),
        func(
            "f",
            vec![param("o", "Option")],
            Some("Option"),
            block(vec![let_stmt("v", Some("i32"), try_expr(ident("o")))], Some(wrap("Option", "Some", ident("v")))),
        ),
        main_with(vec![]),
    ]);
    let f = program.functions.iter().find(|f| program.interner.resolve(f.name) == "f").unwrap();
    let returns = f.blocks.iter().filter(|b| matches!(b.terminator, Terminator::Return(_))).count();
    assert_eq!(returns, 2);
    let early = f.blocks.iter().find(|b| {
        matches!(b.terminator, Terminator::Return(_)) && b.instructions.iter().any(|i| matches!(i, Instruction::Alloc(_, _)))
    });
    let early = early.unwrap();
    assert!(early.instructions.iter().any(|i| matches!(i, Instruction::Const(_, ConstValue::I32(1)))));
    assert!(f.blocks.iter().any(|b| matches!(b.terminator, Terminator::Branch(_, _, _))));
}

#[test]
fn lowered_question_mark_on_a_result_passes_the_error_on() {
    // enum Result { Ok(i64), Err(string) }
    // fn f(r: Result) -> Result { let v: i64 = r?; r }
    let program = lower_module(vec![
        two_variant_enum("Result", "Ok", "i64", "Err", Some("string")),
        func(
            "f",
            vec![param("r", "Result")],
            Some("Result"),
            block(vec![let_stmt("v", Some("i64"), try_expr(ident("r")))], Some(ident("r"))),
        ),
        main_with(vec![]),
    ]);
    let f = program.functions.iter().find(|f| program.interner.resolve(f.name) == "f").unwrap();
    let early = f
        .blocks
        .iter()
        .find(|b| matches!(b.terminator, Terminator::Return(_)) && b.instructions.iter().any(|i| matches!(i, Instruction::Store(_, 1, _))));
    assert!(early.is_some());
    assert!(early.unwrap().instructions.iter().any(|i| matches!(i, Instruction::Load(_, _, 1))));
}
