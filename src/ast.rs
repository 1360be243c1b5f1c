//! The syntax tree that the extractor reads: the statement and expression
//! forms it covers, each other form standing as `Other`.

use vstd::prelude::*;

verus! {

/// A binding or identifier with its source offsets.
pub struct Ident {
    pub name: String,
    pub span: (usize, usize),
}

pub enum Expr {
    Identifier(Ident),
    Call { callee: Box<Expr>, arguments: Vec<Argument> },
    /// `property` is the accessed name when it is known statically.
    Member { object: Box<Expr>, property: Option<String>, span: (usize, usize) },
    Binary { left: Box<Expr>, right: Box<Expr> },
    Assignment { right: Box<Expr> },
    Array { elements: Vec<ArrayElement> },
    Object { properties: Vec<ObjectProperty> },
    Other,
}

pub enum Argument {
    Expression(Expr),
    Spread(Expr),
}

pub enum ArrayElement {
    Expression(Expr),
    Spread(Expr),
    Elision,
}

pub enum ObjectProperty {
    /// A property, by its value.
    Property(Expr),
    Spread(Expr),
}

/// One declarator; `id` is absent for a destructuring pattern.
pub struct Declarator {
    pub id: Option<Ident>,
    pub init: Option<Expr>,
}

pub struct VariableDeclaration {
    pub declarations: Vec<Declarator>,
}

pub enum ImportSpecifier {
    /// `{ a }` or `{ a as b }`, by the imported name.
    Named(String),
    Default,
    Namespace,
}

pub struct ImportDeclaration {
    pub source: String,
    pub specifiers: Vec<ImportSpecifier>,
    pub is_type_only: bool,
}

pub enum Declaration {
    Function(Option<Ident>),
    Class(Option<Ident>),
    Variable(VariableDeclaration),
    Other,
}

/// `export { a as b }`, by the exported name.
pub struct ExportSpecifier {
    pub exported: String,
    pub span: (usize, usize),
}

pub struct ExportNamedDeclaration {
    pub declaration: Option<Declaration>,
    pub specifiers: Vec<ExportSpecifier>,
}

pub enum DefaultDeclaration {
    Function(Option<Ident>),
    Class(Option<Ident>),
    Other,
}

pub struct ExportDefaultDeclaration {
    pub declaration: DefaultDeclaration,
    pub span: (usize, usize),
}

pub enum ForInit {
    Variable(VariableDeclaration),
    Expression(Expr),
}

#[allow(inconsistent_fields)]
pub enum Stmt {
    Import(ImportDeclaration),
    ExportNamed(ExportNamedDeclaration),
    ExportDefault(ExportDefaultDeclaration),
    ExportAll,
    Expression(Expr),
    Block(Vec<Stmt>),
    If { test: Expr, consequent: Box<Stmt>, alternate: Option<Box<Stmt>> },
    While { test: Expr, body: Box<Stmt> },
    For { init: Option<ForInit>, test: Option<Expr>, body: Box<Stmt> },
    Function(Option<Ident>),
    Class(Option<Ident>),
    Variable(VariableDeclaration),
    Other,
}

/// A parsed source file: its top-level statements.
pub struct Program {
    pub body: Vec<Stmt>,
}

} // verus!
