use crate::path::Path;
use vstd::prelude::*;

verus! {

/// An identifier.
pub type Ident = String;

/// A definition (`struct`, `fn`) with its name.
#[derive(Debug, PartialEq)]
pub struct Definition {
    pub ident: Ident,
    pub kind: DefinitionKind,
}

/// The kinds of definitions.
#[derive(Debug, PartialEq)]
pub enum DefinitionKind {
    /// `struct Foo { ... }`
    Struct(Struct),
    /// `fn foo(bar: baz) -> qux { ... }`
    Fn(Box<Fn>),
}

/// A type.
#[derive(Debug, PartialEq)]
pub struct Ty {
    pub kind: TyKind,
}

/// The kinds of types.
#[derive(Debug, PartialEq)]
pub enum TyKind {
    Void,
    Int,
    Float,
    Bool,
    String,
    Path(Path),
}

/// A struct definition.
#[derive(Debug, PartialEq)]
pub struct Struct {
    pub fields: Vec<StructField>,
}

/// A struct field, e.g. `foo: bar`.
#[derive(Debug, PartialEq)]
pub struct StructField {
    pub ident: Ident,
    pub ty: Box<Ty>,
}

/// A function definition; without a body it is a declaration only.
#[derive(Debug, PartialEq)]
pub struct Fn {
    pub sig: FnSig,
    pub body: Option<Box<Block>>,
}

/// A function's signature.
#[derive(Debug, PartialEq)]
pub struct FnSig {
    pub header: FnHeader,
    pub decl: Box<FnDecl>,
}

/// The flags of a function besides its name, e.g. `const rec fn`.
#[derive(Debug, PartialEq)]
pub struct FnHeader {
    pub rec: bool,
    pub constness: bool,
}

/// Parameters and return type of a function.
#[derive(Debug, PartialEq)]
pub struct FnDecl {
    pub inputs: Vec<Param>,
    pub output: Ty,
}

/// A function parameter.
#[derive(Debug, PartialEq)]
pub struct Param {
    pub ty: Box<Ty>,
}

/// An expression.
#[derive(Debug, PartialEq)]
pub struct Expr {
    pub kind: ExprKind,
}

/// The kinds of expressions.
#[derive(Debug, PartialEq)]
pub enum ExprKind {
    Variable(Path),
    Constant(Constant),
    Block(Block),
}

/// A literal.
#[derive(Debug, PartialEq)]
pub struct Constant {
    pub kind: ConstantKind,
}

/// The kinds of literals.
#[derive(Debug, PartialEq)]
pub enum ConstantKind {
    Int(i64),
    /// A floating-point literal, held as the bit pattern of its 64-bit IEEE value.
    Float(u64),
    Bool(bool),
    String(String),
}

/// A local binding: `let x;` or `let x = e;`, with an optional type.
#[derive(Debug, PartialEq)]
pub struct LocalBind {
    pub ident: Ident,
    pub ty: Option<Ty>,
    pub kind: LocalBindKind,
}

/// Whether a local binding has an initializer.
#[derive(Debug, PartialEq)]
pub enum LocalBindKind {
    /// `let x;`
    Decl,
    /// `let x = 5;`
    Init(Expr),
}

/// A statement.
#[derive(Debug, PartialEq)]
pub struct Statement {
    pub kind: StatementKind,
}

/// The kinds of statements.
#[derive(Debug, PartialEq)]
pub enum StatementKind {
    Let(Box<LocalBind>),
    Def(Box<Definition>),
    Expr(Box<Expr>),
}

/// A block `{ ... }`.
#[derive(Debug, PartialEq)]
pub struct Block {
    pub stmts: Vec<Statement>,
}

} // verus!
