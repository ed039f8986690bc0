use lib::ast::IntSuffix;
use lib::checker::args::match_call_args;
use lib::diagnostic::{to_decimal, CheckerDiagnostic};
use lib::intern::StringInterner;
use lib::ir::ConstValue;
use lib::lower::consts::parse_int_const;
use lib::scoped_locals::ScopedLocals;
use lib::span::{FileId, Span};
use lib::symbol_table::{DefinitionInfo, SymbolKind, SymbolTable};
use lib::types::{PrimitiveType, TypeId, TypeInterner, TypeKind};

#[test]
fn scoped_locals_insert_then_get() {
    let mut locals: ScopedLocals<u32> = ScopedLocals::new();
    assert_eq!(locals.get("x"), None);
    locals.insert("x".to_string(), 1);
    assert_eq!(locals.get("x"), Some(&1));
    locals.insert("x".to_string(), 2);
    assert_eq!(locals.get("x"), Some(&2));
}

#[test]
fn scoped_locals_pop_restores_outer_binding() {
    let mut locals: ScopedLocals<u32> = ScopedLocals::new();
    locals.insert("x".to_string(), 1);
    locals.push_scope();
    locals.insert("x".to_string(), 10);
    locals.insert("y".to_string(), 20);
    assert_eq!(locals.get("x"), Some(&10));
    assert_eq!(locals.get("y"), Some(&20));
    locals.pop_scope();
    assert_eq!(locals.get("x"), Some(&1));
    assert_eq!(locals.get("y"), None);
}

#[test]
fn scoped_locals_update_writes_defining_scope() {
    let mut locals: ScopedLocals<u32> = ScopedLocals::new();
    locals.insert("x".to_string(), 1);
    locals.push_scope();
    assert!(locals.update("x", 5));
    assert!(!locals.update("missing", 7));
    assert_eq!(locals.get("missing"), None);
    locals.pop_scope();
    assert_eq!(locals.get("x"), Some(&5));
}

#[test]
fn scoped_locals_flatten_lists_visible_names_once() {
    let mut locals: ScopedLocals<u32> = ScopedLocals::new();
    locals.insert("a".to_string(), 1);
    locals.insert("b".to_string(), 2);
    locals.push_scope();
    locals.insert("a".to_string(), 3);
    let mut flat = locals.flatten();
    flat.sort();
    assert_eq!(flat, vec![("a".to_string(), 3), ("b".to_string(), 2)]);
    let top = locals.current_scope_entries();
    assert_eq!(top, vec![("a".to_string(), 3)]);
}

#[test]
fn string_interner_gives_one_symbol_per_string() {
    let mut t = StringInterner::new();
    let a = t.intern("main");
    let b = t.intern("print");
    let c = t.intern("main");
    assert_eq!(a, c);
    assert_ne!(a, b);
    assert_eq!(t.resolve(a), "main");
    assert_eq!(t.resolve(b), "print");
}

#[test]
fn type_interner_gives_one_id_per_kind() {
    let mut t = TypeInterner::new();
    let point = TypeKind::Struct {
        name: "Point".to_string(),
        fields: vec![("x".to_string(), TypeId(3)), ("y".to_string(), TypeId(3))],
        is_extern: false,
    };
    let a = t.intern(point.clone());
    let b = t.intern(point);
    assert_eq!(a, b);
    assert_eq!(t.intern(TypeKind::Primitive(PrimitiveType::I32)), t.i32());
    assert_eq!(t.display_name(a), "Point");
    assert_eq!(t.display_name(t.i64()), "i64");
    assert!(t.is_struct(a));
    assert!(t.is_reference_type(t.string()));
    assert!(!t.is_reference_type(t.bool()));
    assert!(t.is_numeric(t.u64()));
    assert!(!t.is_integer_type(TypeId(10)));
}

#[test]
fn symbol_table_finds_narrowest_span() {
    let mut st = SymbolTable::new();
    let outer = Span::new(FileId(0), 0, 20);
    let inner = Span::new(FileId(0), 5, 8);
    st.record_definition(
        outer,
        DefinitionInfo { name: "outer".to_string(), kind: SymbolKind::Function, def_span: outer, type_id: None },
    );
    st.record_definition(
        inner,
        DefinitionInfo { name: "inner".to_string(), kind: SymbolKind::LocalVariable, def_span: inner, type_id: None },
    );
    assert_eq!(st.definition_at(FileId(0), 6).unwrap().name, "inner");
    assert_eq!(st.definition_at(FileId(0), 15).unwrap().name, "outer");
    assert!(st.definition_at(FileId(0), 25).is_none());
    assert!(st.definition_at(FileId(1), 6).is_none());
    st.record_expr_type(inner, TypeId(3));
    assert_eq!(st.type_at(FileId(0), 7), Some(TypeId(3)));
    assert_eq!(st.type_at(FileId(0), 1), None);
}

#[test]
fn int_literals_parse_by_radix_and_suffix() {
    let p = |s: &str, suffix: Option<IntSuffix>| parse_int_const(&s.to_string(), suffix);
    assert!(matches!(p("42", None), ConstValue::I32(42)));
    assert!(matches!(p("1_000", None), ConstValue::I32(1000)));
    assert!(matches!(p("0x1F", None), ConstValue::I32(31)));
    assert!(matches!(p("0o17", Some(IntSuffix::I64)), ConstValue::I64(15)));
    assert!(matches!(p("0b101", Some(IntSuffix::U8)), ConstValue::U64(5)));
    assert!(matches!(p("18446744073709551615", Some(IntSuffix::U64)), ConstValue::U64(18446744073709551615)));
    // Out of range and malformed text give zero.
    assert!(matches!(p("18446744073709551616", Some(IntSuffix::U64)), ConstValue::U64(0)));
    assert!(matches!(p("9223372036854775808", Some(IntSuffix::I64)), ConstValue::I64(0)));
    assert!(matches!(p("12ab", None), ConstValue::I32(0)));
    assert!(matches!(p("", None), ConstValue::I32(0)));
    // An `i32` literal keeps the low 32 bits of its `i64` value.
    assert!(matches!(p("4294967297", None), ConstValue::I32(1)));
}

#[test]
fn call_arguments_match_parameters() {
    let params = vec!["a".to_string(), "b".to_string(), "c".to_string()];
    let defaults = vec![false, false, true];
    // f(1, c: 3) leaves b unfilled and required.
    let m = match_call_args(&params, &defaults, &vec![None, Some("c".to_string())]);
    assert_eq!(m.slots, vec![Some(0), Some(2)]);
    assert_eq!(m.overflow_at, None);
    assert_eq!(m.missing, vec![1]);
    // f(1, 2, 3, 4) overflows at the fourth argument.
    let m = match_call_args(&params, &defaults, &vec![None, None, None, None]);
    assert_eq!(m.overflow_at, Some(3));
    assert!(m.missing.is_empty());
    // f(b: 2, 1) puts the positional argument in the first free slot after the named one.
    let m = match_call_args(&params, &defaults, &vec![Some("b".to_string()), None]);
    assert_eq!(m.slots, vec![Some(1), Some(0)]);
    assert_eq!(m.missing, Vec::<usize>::new());
    // An unknown name fills nothing.
    let m = match_call_args(&params, &defaults, &vec![Some("z".to_string())]);
    assert_eq!(m.slots, vec![None]);
    assert_eq!(m.missing, vec![0, 1]);
}

#[test]
fn decimal_text_of_counts() {
    assert_eq!(to_decimal(0), "0");
    assert_eq!(to_decimal(7), "7");
    assert_eq!(to_decimal(1203), "1203");
}

#[test]
fn diagnostic_messages_and_spans() {
    let span = Span::new(FileId(2), 3, 9);
    let d = CheckerDiagnostic::UndefinedFunction { span, name: "foo".to_string() };
    assert_eq!(d.message(), "undefined function 'foo'");
    assert_eq!(d.span(), span);
    let d = CheckerDiagnostic::ArgumentCountMismatch { span, expected: "1".to_string(), found: "2".to_string() };
    assert!(d.message().contains("argument"));
    let d = CheckerDiagnostic::NoMainFunction { span: Span::dummy() };
    assert_eq!(d.message(), "no 'main' function found");
    assert_eq!(d.span(), Span::dummy());
}

#[test]
fn spans_measure_their_extent() {
    let s = Span::new(FileId(0), 4, 10);
    assert_eq!(s.len(), 6);
    assert!(!s.is_empty());
    assert!(Span::dummy().is_empty());
}
