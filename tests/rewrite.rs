use aleph_compiler::ast::{
    Decl, ExportAll, ExportSpecifier, Expr, FnDecl, ImportDecl, ImportSpecifier, ModuleItem,
    NamedExport, Pat, PatProp, Prop, Str, VarDecl, VarDeclarator, VarKind,
};
use aleph_compiler::resolve_fold::{mark_span, resolve_fold, ResolveFold};
use aleph_compiler::resolver::{ResolveError, Resolver, Span, VersionTable};
use aleph_compiler::transform::{prune_deps, resolve_jsx_import_source};

const IMPORT_MAP: &str = r#"{
  "imports": {
    "~/": "./",
    "react": "https://esm.sh/react@18"
  }
}"#;

fn resolver(specifier: &str, is_dev: bool) -> Resolver {
    let mut versions = VersionTable::new();
    versions.insert("./foo.ts".to_string(), "100".to_string());
    Resolver::new(
        specifier,
        "https://deno.land/x/aleph",
        IMPORT_MAP,
        versions,
        Some("1.0.0".to_string()),
        true,
        is_dev,
    )
}

fn lit(v: &str, lo: u32) -> Str {
    Str { value: v.to_string(), span: Span { lo, hi: lo + v.len() as u32 + 2, ctxt: 0 } }
}

fn string(v: &str) -> Expr {
    Expr::Str(lit(v, 0))
}

fn ident(n: &str) -> Expr {
    Expr::Ident(n.to_string())
}

fn call(callee: Expr, args: Vec<Expr>) -> Expr {
    Expr::Call(Box::new(callee), args)
}

fn import_from(locals: &[&str], src: &str, lo: u32) -> ModuleItem {
    ModuleItem::Import(ImportDecl {
        specifiers: locals
            .iter()
            .map(|l| ImportSpecifier { local: l.to_string(), imported: None })
            .collect(),
        src: lit(src, lo),
        type_only: false,
    })
}

fn export_const(name: &str, init: Expr) -> ModuleItem {
    ModuleItem::ExportDecl(Decl::Var(VarDecl {
        kind: VarKind::Const,
        declare: false,
        decls: vec![VarDeclarator { name: Pat::Ident(name.to_string()), init: Some(init) }],
    }))
}

fn export_fn(name: &str, params: Vec<Pat>, body: Vec<Expr>) -> ModuleItem {
    ModuleItem::ExportDecl(Decl::Fn(FnDecl {
        ident: name.to_string(),
        declare: false,
        params,
        body: Some(body),
        is_async: false,
        is_generator: false,
    }))
}

/// `(req) => { return json({ count }) }`
fn handler() -> Expr {
    Expr::Other(vec![
        Expr::Other(vec![ident("req")]),
        call(ident("json"), vec![Expr::Object(vec![Prop::Shorthand("count".to_string())])]),
    ])
}

/// The string literals of an expression, each with what holds it.
fn expr_literals(e: &Expr, out: &mut Vec<(String, String)>) {
    match e {
        Expr::Str(s) => out.push(("literal".to_string(), s.value.clone())),
        Expr::Call(callee, args) => {
            if let (Expr::Import, Some(Expr::Str(s))) = (callee.as_ref(), args.first()) {
                out.push(("import()".to_string(), s.value.clone()));
                for a in &args[1..] {
                    expr_literals(a, out);
                }
            } else {
                expr_literals(callee, out);
                for a in args {
                    expr_literals(a, out);
                }
            }
        }
        Expr::New(callee, Some(args)) => {
            if let (Expr::Ident(n), Some(Expr::Str(s))) = (callee.as_ref(), args.first()) {
                out.push((format!("new {}()", n), s.value.clone()));
                for a in &args[1..] {
                    expr_literals(a, out);
                }
            } else {
                for a in args {
                    expr_literals(a, out);
                }
            }
        }
        Expr::Other(es) => {
            for x in es {
                expr_literals(x, out);
            }
        }
        Expr::Object(props) => {
            for p in props {
                if let Prop::KeyValue(_, v) = p {
                    expr_literals(v, out);
                }
            }
        }
        _ => {}
    }
}

fn literals(items: &[ModuleItem]) -> Vec<(String, String)> {
    let mut out = Vec::new();
    for item in items {
        match item {
            ModuleItem::Import(d) => out.push(("from".to_string(), d.src.value.clone())),
            ModuleItem::ExportNamed(n) => {
                if let Some(s) = &n.src {
                    out.push(("from".to_string(), s.value.clone()));
                }
            }
            ModuleItem::ExportAll(x) => out.push(("from".to_string(), x.src.value.clone())),
            ModuleItem::Stmt(e) | ModuleItem::ExportDefaultExpr(e) => expr_literals(e, &mut out),
            _ => {}
        }
    }
    out
}

fn has(found: &[(String, String)], site: &str, value: &str) -> bool {
    found.iter().any(|(s, v)| s == site && v == value)
}

fn find_const<'a>(items: &'a [ModuleItem], name: &str) -> &'a Expr {
    for item in items {
        if let ModuleItem::ExportDecl(Decl::Var(v)) = item {
            for d in &v.decls {
                if let (Pat::Ident(n), Some(init)) = (&d.name, &d.init) {
                    if n == name {
                        return init;
                    }
                }
            }
        }
    }
    panic!("no export {}", name)
}

fn find_fn<'a>(items: &'a [ModuleItem], name: &str) -> &'a FnDecl {
    for item in items {
        if let ModuleItem::ExportDecl(Decl::Fn(f)) = item {
            if f.ident == name {
                return f;
            }
        }
    }
    panic!("no function {}", name)
}

fn key_values(e: &Expr) -> Vec<(String, Expr)> {
    match e {
        Expr::Object(props) => props
            .iter()
            .map(|p| match p {
                Prop::KeyValue(Expr::Ident(k), v) => (k.clone(), clone_leaf(v)),
                _ => panic!("not a key/value property"),
            })
            .collect(),
        _ => panic!("not an object literal"),
    }
}

fn clone_leaf(e: &Expr) -> Expr {
    match e {
        Expr::Bool(b) => Expr::Bool(*b),
        Expr::Ident(n) => Expr::Ident(n.clone()),
        _ => Expr::Other(vec![]),
    }
}

fn run(specifier: &str, items: Vec<ModuleItem>, strip: bool) -> (Vec<ModuleItem>, ResolveFold) {
    let mut fold = resolve_fold(resolver(specifier, false), strip, false);
    let out = fold.fold_module_items(items).unwrap();
    (out, fold)
}

#[test]
fn import_resolving() {
    let items = vec![
        import_from(&["React"], "react", 5),
        import_from(&["foo"], "~/foo.ts", 30),
        import_from(&["Layout"], "./Layout.tsx", 60),
        import_from(&[], "https://esm.sh/@fullcalendar/daygrid?css&dev", 90),
        import_from(&[], "../../style/app.css", 150),
        ModuleItem::Stmt(call(ident("foo"), vec![])),
        ModuleItem::ExportDefaultExpr(Expr::Other(vec![Expr::Other(vec![ident("Layout")])])),
        ModuleItem::Stmt(call(
            ident("setTimeout"),
            vec![
                Expr::Other(vec![
                    call(Expr::Import, vec![string("https://esm.sh/asksomeonelse")]),
                    Expr::New(
                        Box::new(ident("Worker")),
                        Some(vec![string("https://esm.sh/asksomeonelse")]),
                    ),
                ]),
                Expr::Other(vec![]),
            ],
        )),
    ];
    let (out, fold) = run("./pages/blog/$id.tsx", items, false);
    let found = literals(&out);
    assert!(has(&found, "from", "/-/esm.sh/react@18"));
    assert!(has(&found, "from", "../../foo.ts?v=100"));
    assert!(has(&found, "from", "./Layout.tsx?v=1.0.0"));
    assert!(has(&found, "from", "/-/esm.sh/@fullcalendar/daygrid?css&dev&module"));
    assert!(has(&found, "from", "../../style/app.css?module&v=1.0.0"));
    assert!(has(&found, "import()", "/-/esm.sh/asksomeonelse"));
    assert!(has(&found, "new Worker()", "/-/esm.sh/asksomeonelse"));
    assert_eq!(fold.resolver.deps.len(), 7);
}

#[test]
fn dependencies_keep_source_order_and_dynamic_flags() {
    let items = vec![
        import_from(&["React"], "react", 5),
        ModuleItem::ExportNamed(NamedExport {
            specifiers: vec![ExportSpecifier::Named("a".to_string(), None)],
            src: Some(lit("./a.ts", 40)),
            type_only: false,
        }),
        ModuleItem::ExportAll(ExportAll { src: lit("./b.ts", 70), type_only: false }),
        ModuleItem::Stmt(Expr::Other(vec![
            call(Expr::Import, vec![string("./lazy.ts")]),
            Expr::New(Box::new(ident("Worker")), Some(vec![string("./worker.ts")])),
        ])),
    ];
    let (_, fold) = run("./app.tsx", items, false);
    let deps = &fold.resolver.deps;
    let keys: Vec<&str> = deps.iter().map(|d| d.specifier.as_str()).collect();
    assert_eq!(keys, vec!["https://esm.sh/react@18", "./a.ts", "./b.ts", "./lazy.ts", "./worker.ts"]);
    let dynamic: Vec<bool> = deps.iter().map(|d| d.dynamic).collect();
    assert_eq!(dynamic, vec![false, false, false, true, true]);
    assert!(deps.iter().all(|d| d.loc.is_none()));
}

#[test]
fn source_locations_are_recorded_when_asked() {
    let mut fold = resolve_fold(resolver("./app.tsx", false), false, true);
    fold.fold_module_items(vec![import_from(&["a"], "./a.ts", 12)]).unwrap();
    assert_eq!(fold.resolver.deps[0].loc, Some(Span { lo: 12, hi: 20, ctxt: 0 }));
    assert_eq!(mark_span(&Span { lo: 1, hi: 2, ctxt: 0 }, false), None);
}

#[test]
fn type_only_imports_are_not_resolved() {
    let items = vec![
        ModuleItem::Import(ImportDecl {
            specifiers: vec![],
            src: lit("./types.ts", 3),
            type_only: true,
        }),
        ModuleItem::ExportNamed(NamedExport {
            specifiers: vec![ExportSpecifier::Named("T".to_string(), None)],
            src: Some(lit("./types.ts", 40)),
            type_only: true,
        }),
    ];
    let (out, fold) = run("./app.tsx", items, false);
    assert!(fold.resolver.deps.is_empty());
    assert_eq!(literals(&out), vec![
        ("from".to_string(), "./types.ts".to_string()),
        ("from".to_string(), "./types.ts".to_string()),
    ]);
}

#[test]
fn computed_dynamic_imports_are_left_alone() {
    let items = vec![ModuleItem::Stmt(Expr::Other(vec![
        call(Expr::Import, vec![ident("name")]),
        Expr::New(Box::new(ident("SharedWorker")), Some(vec![string("./w.ts")])),
        call(ident("load"), vec![string("./x.ts")]),
    ]))];
    let (out, fold) = run("./app.tsx", items, false);
    assert!(fold.resolver.deps.is_empty());
    assert!(has(&literals(&out), "new SharedWorker()", "./w.ts"));
    assert!(has(&literals(&out), "literal", "./x.ts"));
}

#[test]
fn a_failing_specifier_fails_the_pass() {
    let r = Resolver::new("https://", "", "{}", VersionTable::new(), None, false, false);
    let mut fold = resolve_fold(r, false, false);
    let res = fold.fold_module_items(vec![import_from(&["a"], "./a.ts", 0)]);
    assert_eq!(res.err(), Some(ResolveError::MalformedReferrer));
}

fn strip_source() -> Vec<ModuleItem> {
    vec![
        import_from(&["json"], "./helper.ts", 5),
        ModuleItem::Stmt(Expr::Other(vec![Expr::Other(vec![])])),
        export_const(
            "data",
            Expr::Object(vec![
                Prop::KeyValue(ident("defer"), Expr::Bool(true)),
                Prop::KeyValue(ident("fake"), Expr::Bool(false)),
                Prop::KeyValue(ident("fetch"), handler()),
            ]),
        ),
        export_const(
            "mutation",
            Expr::Object(vec![
                Prop::KeyValue(ident("POST"), handler()),
                Prop::KeyValue(ident("DELETE"), handler()),
            ]),
        ),
        export_const("GET", handler()),
        export_const("POST", handler()),
        export_const("PUT", handler()),
        export_fn("PATCH", vec![Pat::Ident("req".to_string())], vec![handler()]),
        export_fn("DELETE", vec![Pat::Ident("req".to_string())], vec![handler()]),
        export_fn(
            "log",
            vec![Pat::Ident("msg".to_string())],
            vec![call(Expr::Other(vec![ident("console")]), vec![ident("msg")])],
        ),
        ModuleItem::ExportDefaultDecl(Decl::Fn(FnDecl {
            ident: "App".to_string(),
            declare: false,
            params: vec![],
            body: Some(vec![Expr::Other(vec![Expr::Other(vec![])])]),
            is_async: false,
            is_generator: false,
        })),
    ]
}

#[test]
fn strip_data_export() {
    let mut r = resolver("./app.tsx", false);
    let source = resolve_jsx_import_source(&mut r, "https://esm.sh/react@18", false, true).unwrap();
    assert_eq!(source, "/-/esm.sh/react@18");
    let mut fold = resolve_fold(r, true, false);
    let out = fold.fold_module_items(strip_source()).unwrap();

    let data = key_values(find_const(&out, "data"));
    assert_eq!(data, vec![
        ("defer".to_string(), Expr::Bool(true)),
        ("fake".to_string(), Expr::Bool(false)),
        ("fetch".to_string(), Expr::Bool(true)),
    ]);
    let mutation = key_values(find_const(&out, "mutation"));
    assert_eq!(mutation, vec![
        ("POST".to_string(), Expr::Bool(true)),
        ("DELETE".to_string(), Expr::Bool(true)),
    ]);
    assert_eq!(*find_const(&out, "GET"), Expr::Bool(true));
    assert_eq!(*find_const(&out, "POST"), Expr::Bool(true));
    assert_eq!(*find_const(&out, "PUT"), Expr::Bool(true));
    for name in ["PATCH", "DELETE"] {
        let f = find_fn(&out, name);
        assert!(f.params.is_empty());
        assert_eq!(f.body, Some(vec![]));
    }
    let log = find_fn(&out, "log");
    assert_eq!(log.params, vec![Pat::Ident("msg".to_string())]);
    assert_eq!(log.body.as_ref().map(|b| b.len()), Some(1));
    assert!(has(&literals(&out), "from", "./helper.ts?v=1.0.0"));

    // What the emitter writes once dead code is gone: the helper import has
    // no user left, so its dependency is pruned; the JSX runtime stays.
    let code = "import { jsx as _jsx } from \"/-/esm.sh/react@18/jsx-runtime\";\n\
        export const data = {\n    defer: true,\n    fake: false,\n    fetch: true\n};\n\
        export const mutation = {\n    POST: true,\n    DELETE: true\n};\n\
        export const GET = true;\nexport const POST = true;\nexport const PUT = true;\n\
        export function PATCH() {}\nexport function DELETE() {}\n\
        export function log(msg) {\n    console.log(msg);\n}\n\
        export default function App() {\n    return _jsx(\"div\", {\n        children: \"Hello world!\"\n    });\n}\n";
    let deps = prune_deps(&fold.resolver.deps, code);
    assert_eq!(deps.len(), 1);
    assert_eq!(deps[0].specifier, "https://esm.sh/react@18/jsx-runtime");
}

#[test]
fn jsx_automtic() {
    let mut r = resolver("./app.tsx", false);
    let source = resolve_jsx_import_source(&mut r, "https://esm.sh/react@18", false, true).unwrap();
    assert_eq!(source, "/-/esm.sh/react@18");
    assert_eq!(r.deps.get(0).unwrap().specifier, "https://esm.sh/react@18/jsx-runtime");
    assert_eq!(r.deps[0].import_url, "/-/esm.sh/react@18/jsx-runtime");
}

#[test]
fn jsx_runtime_is_not_kept_outside_jsx_modules() {
    let mut r = resolver("./util.ts", true);
    let source = resolve_jsx_import_source(&mut r, "https://esm.sh/react@18", true, false).unwrap();
    assert_eq!(source, "/-/esm.sh/react@18");
    assert!(r.deps.is_empty());
}

#[test]
fn stripping_leaves_other_exports_alone() {
    let items = || {
        vec![
            export_const("count", handler()),
            export_fn("log", vec![Pat::Ident("msg".to_string())], vec![handler()]),
            ModuleItem::ExportDecl(Decl::Var(VarDecl {
                kind: VarKind::Let,
                declare: false,
                decls: vec![
                    VarDeclarator { name: Pat::Ident("a".to_string()), init: Some(handler()) },
                    VarDeclarator { name: Pat::Ident("GET".to_string()), init: None },
                ],
            })),
        ]
    };
    let (stripped, _) = run("./app.tsx", items(), true);
    let (plain, _) = run("./app.tsx", items(), false);
    assert_eq!(stripped, plain);
}

#[test]
fn every_reserved_declarator_is_stripped() {
    let items = vec![ModuleItem::ExportDecl(Decl::Var(VarDecl {
        kind: VarKind::Const,
        declare: false,
        decls: vec![
            VarDeclarator { name: Pat::Ident("x".to_string()), init: Some(ident("y")) },
            VarDeclarator { name: Pat::Ident("GET".to_string()), init: Some(handler()) },
            VarDeclarator { name: Pat::Ident("POST".to_string()), init: Some(ident("z")) },
        ],
    }))];
    let (out, _) = run("./app.tsx", items, true);
    match &out[0] {
        ModuleItem::ExportDecl(Decl::Var(v)) => {
            assert_eq!(v.decls[0].init, Some(ident("y")));
            assert_eq!(v.decls[1].init, Some(Expr::Bool(true)));
            assert_eq!(v.decls[2].init, Some(Expr::Bool(true)));
        }
        _ => panic!("not a variable export"),
    }
}

#[test]
fn stripped_objects_keep_booleans_only() {
    let items = vec![export_const(
        "data",
        Expr::Object(vec![
            Prop::KeyValue(ident("on"), Expr::Bool(false)),
            Prop::Shorthand("count".to_string()),
            Prop::Method(ident("load"), vec![handler()]),
            Prop::KeyValue(ident("n"), ident("limit")),
            Prop::Getter(ident("secret"), vec![handler()]),
            Prop::Setter(ident("sink"), vec![ident("v"), handler()]),
            Prop::Spread(call(Expr::Import, vec![string("./extra.ts")])),
        ]),
    )];
    let (out, fold) = run("./app.tsx", items, true);
    match find_const(&out, "data") {
        Expr::Object(props) => {
            assert_eq!(props[0], Prop::KeyValue(ident("on"), Expr::Bool(false)));
            assert_eq!(props[1], Prop::KeyValue(ident("count"), Expr::Bool(true)));
            assert_eq!(props[2], Prop::KeyValue(ident("load"), Expr::Bool(true)));
            assert_eq!(props[3], Prop::KeyValue(ident("n"), Expr::Bool(true)));
            assert_eq!(props[4], Prop::KeyValue(ident("secret"), Expr::Bool(true)));
            assert_eq!(props[5], Prop::KeyValue(ident("sink"), Expr::Bool(true)));
            match &props[6] {
                Prop::Spread(Expr::Call(_, args)) => match &args[0] {
                    Expr::Str(s) => assert_eq!(s.value, "./extra.ts?v=1.0.0"),
                    _ => panic!("not a literal"),
                },
                _ => panic!("not a spread"),
            }
        }
        _ => panic!("not an object literal"),
    }
    assert_eq!(fold.resolver.deps.len(), 1);
    assert!(fold.resolver.deps[0].dynamic);
}

#[test]
fn stripped_non_object_data_becomes_true() {
    let (out, fold) = run("./app.tsx", vec![export_const("data", call(Expr::Import, vec![string("./d.ts")]))], true);
    assert_eq!(*find_const(&out, "data"), Expr::Bool(true));
    assert!(fold.resolver.deps.is_empty());
}

#[test]
fn patterns_and_defaults_are_walked() {
    let items = vec![ModuleItem::ExportDecl(Decl::Var(VarDecl {
        kind: VarKind::Const,
        declare: false,
        decls: vec![VarDeclarator {
            name: Pat::Object(vec![
                PatProp::Assign("a".to_string(), Some(call(Expr::Import, vec![string("./a.ts")]))),
                PatProp::KeyValue(
                    ident("b"),
                    Pat::Assign(Box::new(Pat::Ident("c".to_string())), Box::new(call(Expr::Import, vec![string("./c.ts")]))),
                ),
            ]),
            init: Some(ident("obj")),
        }],
    }))];
    let (_, fold) = run("./app.tsx", items, false);
    let keys: Vec<&str> = fold.resolver.deps.iter().map(|d| d.specifier.as_str()).collect();
    assert_eq!(keys, vec!["./a.ts", "./c.ts"]);
}
