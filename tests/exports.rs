use aleph_compiler::ast::{
    ClassDecl, Decl, ExportAll, ExportSpecifier, Expr, FnDecl, ModuleItem, NamedExport, Pat,
    PatProp, Str, VarDecl, VarDeclarator, VarKind,
};
use aleph_compiler::exports::parse_export_names;
use aleph_compiler::resolver::Span;

fn lit(v: &str) -> Str {
    Str { value: v.to_string(), span: Span { lo: 0, hi: 0, ctxt: 0 } }
}

fn id(n: &str) -> Pat {
    Pat::Ident(n.to_string())
}

fn export_var(name: Pat) -> ModuleItem {
    ModuleItem::ExportDecl(Decl::Var(VarDecl {
        kind: VarKind::Const,
        declare: false,
        decls: vec![VarDeclarator { name, init: Some(Expr::Ident("source".to_string())) }],
    }))
}

#[test]
fn nested_destructuring_with_rest_is_flattened_in_order() {
    // export const { a, b: { c, d: [e, , ...f] }, g = 1, ...h } = source
    let pat = Pat::Object(vec![
        PatProp::Assign("a".to_string(), None),
        PatProp::KeyValue(
            Expr::Ident("b".to_string()),
            Pat::Object(vec![
                PatProp::Assign("c".to_string(), None),
                PatProp::KeyValue(
                    Expr::Ident("d".to_string()),
                    Pat::Array(vec![id("e"), Pat::Hole, Pat::Rest(Box::new(id("f")))]),
                ),
            ]),
        ),
        PatProp::Assign("g".to_string(), Some(Expr::Other(vec![]))),
        PatProp::Rest(id("h")),
    ]);
    let names = parse_export_names(&vec![export_var(pat)]);
    assert_eq!(names, vec!["a", "c", "e", "f", "g", "h"]);
}

#[test]
fn array_patterns_with_defaults_and_rest() {
    // export const [x, [y = 2], ...[z]] = source
    let pat = Pat::Array(vec![
        id("x"),
        Pat::Array(vec![Pat::Assign(Box::new(id("y")), Box::new(Expr::Other(vec![])))]),
        Pat::Rest(Box::new(Pat::Array(vec![id("z")]))),
    ]);
    assert_eq!(parse_export_names(&vec![export_var(pat)]), vec!["x", "y", "z"]);
}

#[test]
fn every_export_form_is_reported() {
    let items = vec![
        ModuleItem::Stmt(Expr::Other(vec![])),
        ModuleItem::ExportDecl(Decl::Fn(FnDecl {
            ident: "handler".to_string(),
            declare: false,
            params: vec![],
            body: Some(vec![]),
            is_async: true,
            is_generator: false,
        })),
        ModuleItem::ExportDecl(Decl::Class(ClassDecl { ident: "Store".to_string(), body: vec![] })),
        ModuleItem::ExportDecl(Decl::Var(VarDecl {
            kind: VarKind::Let,
            declare: false,
            decls: vec![
                VarDeclarator { name: id("one"), init: None },
                VarDeclarator { name: id("two"), init: None },
            ],
        })),
        ModuleItem::ExportNamed(NamedExport {
            specifiers: vec![
                ExportSpecifier::Named("local".to_string(), None),
                ExportSpecifier::Named("inner".to_string(), Some("outer".to_string())),
            ],
            src: None,
            type_only: false,
        }),
        ModuleItem::ExportNamed(NamedExport {
            specifiers: vec![
                ExportSpecifier::Named("orig".to_string(), Some("renamed".to_string())),
                ExportSpecifier::Default("dflt".to_string()),
                ExportSpecifier::Namespace("ns".to_string()),
            ],
            src: Some(lit("./lib.ts")),
            type_only: false,
        }),
        ModuleItem::ExportAll(ExportAll { src: lit("./all.ts"), type_only: false }),
        ModuleItem::ExportDefaultExpr(Expr::Ident("App".to_string())),
    ];
    let names = parse_export_names(&items);
    assert_eq!(names, vec![
        "handler", "Store", "one", "two", "local", "outer", "orig", "dflt", "*./lib.ts", "*./all.ts",
        "default",
    ]);
}

#[test]
fn a_module_without_exports_has_no_names() {
    assert!(parse_export_names(&vec![]).is_empty());
    let names = parse_export_names(&vec![ModuleItem::Stmt(Expr::Ident("x".to_string()))]);
    assert!(names.is_empty());
}

#[test]
fn default_declarations_report_default() {
    let items = vec![ModuleItem::ExportDefaultDecl(Decl::Fn(FnDecl {
        ident: "App".to_string(),
        declare: false,
        params: vec![],
        body: Some(vec![]),
        is_async: false,
        is_generator: false,
    }))];
    assert_eq!(parse_export_names(&items), vec!["default"]);
}
