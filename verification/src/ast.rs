use vstd::prelude::*;

verus! {

/// A type as written in an annotation.
pub enum TypeAst {
    /// `Name`, `Name(args)`, `module.Name(args)`.
    Named { module: Option<Vec<char>>, name: Vec<char>, args: Vec<TypeAst> },
    /// A type variable such as `a`.
    Var(Vec<char>),
    /// `_`: any type.
    Hole,
    /// `fn(args) -> ret`.
    Fn(Vec<TypeAst>, Box<TypeAst>),
    /// `#(elems)`.
    Tuple(Vec<TypeAst>),
}

/// Binary operators.
pub enum BinOp {
    And,
    Or,
    Eq,
    NotEq,
    LtInt,
    GtInt,
    LtEqInt,
    GtEqInt,
    LtFloat,
    GtFloat,
    LtEqFloat,
    GtEqFloat,
    Concat,
    AddInt,
    SubInt,
    MulInt,
    DivInt,
    RemInt,
    AddFloat,
    SubFloat,
    MulFloat,
    DivFloat,
}

/// The type a bit array segment holds.
pub enum SegKind {
    Int,
    Float,
    Bits,
    Utf8,
    Codepoint,
}

/// A call argument, possibly labelled.
pub struct Arg {
    pub label: Option<Vec<char>>,
    pub value: Expr,
}

/// A function parameter: an optional label, a name (`None` for a discard)
/// and an optional annotation.
pub struct FnParam {
    pub label: Option<Vec<char>>,
    pub name: Option<Vec<char>>,
    pub annotation: Option<TypeAst>,
}

pub struct ExprSegment {
    pub value: Expr,
    pub kind: SegKind,
}

/// Expressions.
pub enum Expr {
    Int,
    Float,
    Str,
    Var(Vec<char>),
    /// `_` as a call argument (a function capture).
    Hole,
    List(Vec<Expr>, Option<Box<Expr>>),
    Tuple(Vec<Expr>),
    TupleIndex(Box<Expr>, usize),
    /// `value.label` (record access) or `module.name`.
    Access(Box<Expr>, Vec<char>),
    Fn(Vec<FnParam>, Option<TypeAst>, Vec<Stmt>),
    Call(Box<Expr>, Vec<Arg>),
    Bin(BinOp, Box<Expr>, Box<Expr>),
    Pipe(Box<Expr>, Box<Expr>),
    NegInt(Box<Expr>),
    Not(Box<Expr>),
    Case(Vec<Expr>, Vec<Clause>),
    Block(Vec<Stmt>),
    Todo(Option<Box<Expr>>),
    Panic(Option<Box<Expr>>),
    BitArray(Vec<ExprSegment>),
    /// `Constructor(..base, label: value)`.
    Update(Box<Expr>, Box<Expr>, Vec<Arg>),
}

/// One clause of a case expression: alternative pattern rows, an optional
/// guard and the body.
pub struct Clause {
    pub alternatives: Vec<Vec<Pattern>>,
    pub guard: Option<Expr>,
    pub body: Expr,
}

/// Statements of a block.
pub enum Stmt {
    Let { assert: bool, pattern: Pattern, annotation: Option<TypeAst>, value: Expr },
    Expr(Expr),
}

pub struct PatArg {
    pub label: Option<Vec<char>>,
    pub value: Pattern,
}

pub struct PatSegment {
    pub value: Pattern,
    pub kind: SegKind,
}

/// Patterns.
pub enum Pattern {
    Discard,
    Var(Vec<char>),
    Int,
    Float,
    Str,
    List(Vec<Pattern>, Option<Box<Pattern>>),
    Tuple(Vec<Pattern>),
    Ctor { module: Option<Vec<char>>, name: Vec<char>, args: Vec<PatArg>, spread: bool },
    /// `pattern as name`.
    As(Box<Pattern>, Vec<char>),
    BitArray(Vec<PatSegment>),
}

pub struct FieldDef {
    pub label: Option<Vec<char>>,
    pub annotation: TypeAst,
}

pub struct CtorDef {
    pub name: Vec<char>,
    pub fields: Vec<FieldDef>,
}

/// A name brought in unqualified by an import.
pub struct Unqualified {
    pub is_type: bool,
    pub name: Vec<char>,
    pub alias: Option<Vec<char>>,
}

/// Top level definitions of a module.
#[allow(inconsistent_fields)]
pub enum Definition {
    Function {
        public: bool,
        internal: bool,
        name: Vec<char>,
        params: Vec<FnParam>,
        ret: Option<TypeAst>,
        body: Option<Vec<Stmt>>,
        erlang_external: bool,
        javascript_external: bool,
    },
    Constant {
        public: bool,
        internal: bool,
        name: Vec<char>,
        annotation: Option<TypeAst>,
        value: Expr,
    },
    CustomType {
        public: bool,
        opaque: bool,
        internal: bool,
        name: Vec<char>,
        params: Vec<Vec<char>>,
        constructors: Option<Vec<CtorDef>>,
    },
    TypeAlias {
        public: bool,
        internal: bool,
        name: Vec<char>,
        params: Vec<Vec<char>>,
        target: TypeAst,
    },
    Import { path: Vec<Vec<char>>, alias: Option<Vec<char>>, unqualified: Vec<Unqualified> },
}

} // verus!
