//! The module tree that the rewrite pass and the export-name extractor walk.
//!
//! It holds what those passes read and rewrite: module specifiers, exported
//! bindings, object literals, calls and constructions. Every other node is an
//! [`Expr::Other`] that keeps the expressions nested in it, in source order,
//! so that specifiers inside function bodies and callbacks are still found.
use crate::resolver::Span;
use vstd::prelude::*;

verus! {

/// A string literal.
#[derive(Debug, PartialEq, Eq)]
pub struct Str {
    pub value: String,
    pub span: Span,
}

/// An expression, or any other node with the expressions nested in it.
#[derive(Debug, PartialEq, Eq)]
pub enum Expr {
    Str(Str),
    Bool(bool),
    Ident(String),
    /// The `import` keyword in callee position: `import(...)`.
    Import,
    Object(Vec<Prop>),
    /// A call: the callee and the arguments.
    Call(Box<Expr>, Vec<Expr>),
    /// A `new` expression: the constructor and the arguments, if written.
    New(Box<Expr>, Option<Vec<Expr>>),
    /// Any other node, with the expressions nested in it, in source order.
    Other(Vec<Expr>),
}

/// A property of an object literal.
#[derive(Debug, PartialEq, Eq)]
pub enum Prop {
    /// `{ a }`
    Shorthand(String),
    /// `{ key: value }`; the key is an identifier, a literal or a computed
    /// expression.
    KeyValue(Expr, Expr),
    /// `{ key(params) { body } }`, with the expressions of the method.
    Method(Expr, Vec<Expr>),
    /// `{ get key() { body } }`, with the expressions of the getter.
    Getter(Expr, Vec<Expr>),
    /// `{ set key(param) { body } }`, with the expressions of the setter.
    Setter(Expr, Vec<Expr>),
    /// `{ ...expr }`
    Spread(Expr),
    /// Any other property, with its expressions.
    Other(Vec<Expr>),
}

/// A binding pattern.
#[derive(Debug, PartialEq, Eq)]
pub enum Pat {
    Ident(String),
    /// `[a, , b]`; an elided element is a [`Pat::Hole`].
    Array(Vec<Pat>),
    /// An elided element of an array pattern.
    Hole,
    /// `{ a, b: c, ...d }`
    Object(Vec<PatProp>),
    /// `...p`
    Rest(Box<Pat>),
    /// `p = default`
    Assign(Box<Pat>, Box<Expr>),
}

/// A property of an object pattern.
#[derive(Debug, PartialEq, Eq)]
pub enum PatProp {
    /// `key: pattern`
    KeyValue(Expr, Pat),
    /// `a` or `a = default`
    Assign(String, Option<Expr>),
    /// `...pattern`
    Rest(Pat),
}

/// `import a, { b as c } from "src"`
#[derive(Debug, PartialEq, Eq)]
pub struct ImportDecl {
    pub specifiers: Vec<ImportSpecifier>,
    pub src: Str,
    pub type_only: bool,
}

/// One binding of an import declaration: the local name and the imported
/// one, where it differs.
#[derive(Debug, PartialEq, Eq)]
pub struct ImportSpecifier {
    pub local: String,
    pub imported: Option<String>,
}

/// `export { a, b as c }`, with `from "src"` where it re-exports.
#[derive(Debug, PartialEq, Eq)]
pub struct NamedExport {
    pub specifiers: Vec<ExportSpecifier>,
    pub src: Option<Str>,
    pub type_only: bool,
}

/// One binding of a named export.
#[derive(Debug, PartialEq, Eq)]
pub enum ExportSpecifier {
    /// `orig` or `orig as exported`
    Named(String, Option<String>),
    /// `export v from "src"`
    Default(String),
    /// `export * as ns from "src"`
    Namespace(String),
}

/// `export * from "src"`
#[derive(Debug, PartialEq, Eq)]
pub struct ExportAll {
    pub src: Str,
    pub type_only: bool,
}

#[derive(Debug, Clone, Copy, PartialEq, Eq)]
pub enum VarKind {
    Var,
    Let,
    Const,
}

/// `const a = 1, b = 2`
#[derive(Debug, PartialEq, Eq)]
pub struct VarDecl {
    pub kind: VarKind,
    pub declare: bool,
    pub decls: Vec<VarDeclarator>,
}

#[derive(Debug, PartialEq, Eq)]
pub struct VarDeclarator {
    pub name: Pat,
    pub init: Option<Expr>,
}

/// `function name(params) { body }`; the body holds the expressions of the
/// statements.
#[derive(Debug, PartialEq, Eq)]
pub struct FnDecl {
    pub ident: String,
    pub declare: bool,
    pub params: Vec<Pat>,
    pub body: Option<Vec<Expr>>,
    pub is_async: bool,
    pub is_generator: bool,
}

/// `class Name { ... }`, with the expressions of its members.
#[derive(Debug, PartialEq, Eq)]
pub struct ClassDecl {
    pub ident: String,
    pub body: Vec<Expr>,
}

#[derive(Debug, PartialEq, Eq)]
pub enum Decl {
    Var(VarDecl),
    Fn(FnDecl),
    Class(ClassDecl),
}

/// A top-level item of a module.
#[derive(Debug, PartialEq, Eq)]
pub enum ModuleItem {
    Import(ImportDecl),
    ExportNamed(NamedExport),
    ExportAll(ExportAll),
    /// `export` before a declaration.
    ExportDecl(Decl),
    /// `export default` before a function or class declaration.
    ExportDefaultDecl(Decl),
    /// `export default expr`
    ExportDefaultExpr(Expr),
    /// Any statement, with its expressions.
    Stmt(Expr),
}

} // verus!
