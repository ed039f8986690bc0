use vstd::prelude::*;

use crate::span::Spanned;

verus! {

/// A parsed source file: its top-level items in order.
#[derive(Debug)]
pub struct Module {
    pub items: Vec<SpannedItem>,
}

pub type SpannedItem = Spanned<Item>;

pub type SpannedStmt = Spanned<Stmt>;

pub type SpannedExpr = Spanned<Expr>;

#[derive(Debug)]
pub enum Item {
    FnDef {
        name: String,
        params: Vec<Param>,
        return_type: Option<Spanned<TypeExpr>>,
        body: Spanned<Block>,
        is_pub: bool,
    },
    StructDef { name: String, fields: Vec<StructField>, is_pub: bool, is_extern: bool },
    ImplBlock { self_type: String, methods: Vec<SpannedItem> },
    EnumDef { name: String, variants: Vec<EnumVariantDef>, is_pub: bool },
    ExternBlock { items: Vec<Spanned<ExternFnDecl>> },
    /// `type Name = Type;`
    TypeAlias { name: String, ty: Spanned<TypeExpr>, is_pub: bool },
}

/// A variant of an enum definition.
#[derive(Debug)]
pub struct EnumVariantDef {
    pub name: String,
    pub kind: VariantKind,
}

/// The payload a variant carries.
#[derive(Debug)]
pub enum VariantKind {
    Unit,
    Tuple(Vec<Spanned<TypeExpr>>),
    Struct(Vec<StructField>),
}

/// A pattern in a `match` arm.
#[derive(Debug)]
pub enum Pattern {
    Wildcard,
    Binding(String),
    Literal(Literal),
    /// A variant, optionally qualified by its enum, with sub-patterns for its
    /// fields in order.
    Enum { enum_name: Option<String>, variant: String, fields: Vec<Spanned<Pattern>> },
    /// A struct with sub-patterns for the named fields.
    Struct { name: String, fields: Vec<(String, Spanned<Pattern>)> },
}

/// One arm of a `match`.
#[derive(Debug)]
pub struct MatchArm {
    pub pattern: Spanned<Pattern>,
    pub guard: Option<Box<SpannedExpr>>,
    pub body: SpannedExpr,
}

/// A function declared in an `extern { ... }` block.
#[derive(Debug)]
pub struct ExternFnDecl {
    pub name: String,
    pub params: Vec<Param>,
    pub return_type: Option<Spanned<TypeExpr>>,
}

#[derive(Debug)]
pub struct Param {
    pub name: String,
    pub ty: Spanned<TypeExpr>,
    pub default_value: Option<Box<SpannedExpr>>,
    pub is_self: bool,
    pub is_mut: bool,
}

#[derive(Debug)]
pub struct StructField {
    pub name: String,
    pub ty: Spanned<TypeExpr>,
    pub is_pub: bool,
}

/// A type as written in the source.
#[derive(Debug)]
pub enum TypeExpr {
    Unit,
    Named(String),
}

#[derive(Debug)]
pub struct Block {
    pub stmts: Vec<SpannedStmt>,
    pub tail_expr: Option<Box<SpannedExpr>>,
}

#[derive(Debug)]
pub enum Stmt {
    Expr(SpannedExpr),
    Let { name: Spanned<String>, ty: Option<Spanned<TypeExpr>>, value: SpannedExpr, is_mut: bool },
    /// `const name: Type = value;`, an immutable local.
    Const { name: Spanned<String>, ty: Option<Spanned<TypeExpr>>, value: SpannedExpr },
    /// `let pattern = value;`, binding the names of a destructuring pattern.
    LetPattern {
        pattern: Spanned<Pattern>,
        ty: Option<Spanned<TypeExpr>>,
        value: SpannedExpr,
        is_mut: bool,
    },
    /// `defer { ... }`: a block run when the function returns.
    Defer { body: Spanned<Block> },
}

#[derive(Clone, Copy, Debug, PartialEq, Eq, Structural)]
pub enum IntSuffix {
    I8,
    I16,
    I32,
    I64,
    U8,
    U16,
    U32,
    U64,
}

#[derive(Debug)]
pub enum Literal {
    String(String),
    /// A template string: text parts with expressions between them
    /// (`parts` has one more entry than `exprs`).
    TemplateString { parts: Vec<String>, exprs: Vec<SpannedExpr> },
    Int(String, Option<IntSuffix>),
    Bool(bool),
    Char(char),
}

#[derive(Clone, Copy, Debug, PartialEq, Eq, Structural)]
pub enum BinOp {
    Add,
    Sub,
    Mul,
    Div,
    Mod,
    Shl,
    Shr,
    BitAnd,
    BitOr,
    BitXor,
    Eq,
    Ne,
    Lt,
    Le,
    Gt,
    Ge,
    And,
    Or,
}

#[derive(Clone, Copy, Debug, PartialEq, Eq, Structural)]
pub enum UnaryOp {
    Neg,
    Not,
    BitNot,
}

/// An argument of a call, optionally named (`name: value`).
#[derive(Debug)]
pub struct CallArg {
    pub name: Option<String>,
    pub value: SpannedExpr,
}

#[derive(Debug)]
pub enum Expr {
    Literal(Literal),
    Ident(String),
    Call { callee: Box<SpannedExpr>, args: Vec<CallArg> },
    MethodCall { object: Box<SpannedExpr>, method: String, args: Vec<CallArg> },
    StaticCall { owner: String, method: String, args: Vec<CallArg> },
    Block(Block),
    Return(Option<Box<SpannedExpr>>),
    Binary { op: BinOp, left: Box<SpannedExpr>, right: Box<SpannedExpr> },
    Unary { op: UnaryOp, operand: Box<SpannedExpr> },
    Assign { target: Box<SpannedExpr>, value: Box<SpannedExpr> },
    If {
        condition: Box<SpannedExpr>,
        then_branch: Spanned<Block>,
        else_branch: Option<Box<SpannedExpr>>,
    },
    While { condition: Box<SpannedExpr>, body: Spanned<Block>, label: Option<String> },
    /// `loop { .. }`, optionally labelled.
    Loop { body: Spanned<Block>, label: Option<String> },
    /// `break`, optionally with a value and a label.
    Break { value: Option<Box<SpannedExpr>>, label: Option<String> },
    /// `continue`, optionally with a label.
    Continue { label: Option<String> },
    /// `target op= value`.
    CompoundAssign { op: BinOp, target: Box<SpannedExpr>, value: Box<SpannedExpr> },
    /// `start..end`, or `start..=end` when inclusive.
    Range { start: Box<SpannedExpr>, end: Box<SpannedExpr>, inclusive: bool },
    /// `for binding in iter { .. }`.
    For { binding: String, iter: Box<SpannedExpr>, body: Spanned<Block> },
    /// `expr as Type`.
    Cast { expr: Box<SpannedExpr>, target_type: Spanned<TypeExpr> },
    Grouped(Box<SpannedExpr>),
    StructLiteral { name: String, fields: Vec<(String, SpannedExpr)> },
    FieldAccess { object: Box<SpannedExpr>, field: String },
    /// `object[index]`.
    IndexAccess { object: Box<SpannedExpr>, index: Box<SpannedExpr> },
    /// `Enum::Variant(args)` written with the enum's name.
    EnumLiteral { enum_name: String, variant: String, args: Vec<SpannedExpr> },
    Match { scrutinee: Box<SpannedExpr>, arms: Vec<MatchArm> },
    /// `if let pattern = scrutinee { .. } else ..`.
    IfLet {
        pattern: Spanned<Pattern>,
        scrutinee: Box<SpannedExpr>,
        then_branch: Spanned<Block>,
        else_branch: Option<Box<SpannedExpr>>,
    },
    /// `expr?`: the value an `Option` or a `Result` holds, returning early
    /// from the function when there is none.
    QuestionMark(Box<SpannedExpr>),
}

} // verus!
