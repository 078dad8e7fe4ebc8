use aleph_compiler::css::Drafts;
use aleph_compiler::resolver::{DependencyDescriptor, Span};
use aleph_compiler::syntax::{get_syntax, parse_target, should_enable, EmitOptions, EsVersion, Syntax};
use aleph_compiler::text::{contains_str, ends_with, replace_str, starts_with, trim_start_char};
use aleph_compiler::transform::{before_char, point_jsx_runtime, prune_deps, quotes};
use aleph_compiler::urls::decimal_string;

fn dep(specifier: &str, import_url: &str) -> DependencyDescriptor {
    DependencyDescriptor {
        specifier: specifier.to_string(),
        import_url: import_url.to_string(),
        loc: Some(Span { lo: 1, hi: 4, ctxt: 0 }),
        dynamic: false,
    }
}

#[test]
fn pruning_keeps_quoted_imports_and_the_jsx_runtime() {
    let deps = vec![
        dep("https://esm.sh/react@18/jsx-runtime", "/-/esm.sh/react@18/jsx-runtime"),
        dep("./a.ts", "./a.ts?v=1"),
        dep("./b.ts", "./b.ts?v=1"),
        dep("https://esm.sh/preact/jsx-dev-runtime", "/-/esm.sh/preact/jsx-dev-runtime"),
        dep("./c.ts", "./c.ts"),
    ];
    let code = "import a from \"./a.ts?v=1\";\nconst s = \"./c.ts.bak\";\n// ./b.ts?v=1\n";
    let kept = prune_deps(&deps, code);
    let keys: Vec<&str> = kept.iter().map(|d| d.specifier.as_str()).collect();
    assert_eq!(keys, vec!["https://esm.sh/react@18/jsx-runtime", "./a.ts", "https://esm.sh/preact/jsx-dev-runtime"]);
    assert_eq!(kept[1].loc, Some(Span { lo: 1, hi: 4, ctxt: 0 }));
    assert!(prune_deps(&vec![], code).is_empty());
}

#[test]
fn quoted_pieces() {
    assert!(quotes("import \"./a.ts\"", "./a.ts"));
    assert!(!quotes("import \"./a.tsx\"", "./a.ts"));
    assert!(quotes("./a.ts", "./a.ts"));
    assert!(!quotes("x \"a\"b\" y", "a\"b"));
    assert!(quotes("\"\"", ""));
}

#[test]
fn text_before_a_query() {
    assert_eq!(before_char("/-/esm.sh/react@18/jsx-runtime?dev", '?'), "/-/esm.sh/react@18/jsx-runtime");
    assert_eq!(before_char("plain", '?'), "plain");
    assert_eq!(before_char("?q", '?'), "");
}

#[test]
fn syntax_from_the_extension() {
    assert_eq!(get_syntax("./mod.ts", None), Syntax::Typescript { tsx: false });
    assert_eq!(get_syntax("./mod.mts", None), Syntax::Typescript { tsx: false });
    assert_eq!(get_syntax("./App.TSX", None), Syntax::Typescript { tsx: true });
    assert_eq!(get_syntax("./app.jsx?v=1#x", None), Syntax::Es { jsx: true });
    assert_eq!(get_syntax("./app.mjs", None), Syntax::Es { jsx: false });
    assert_eq!(get_syntax("https://esm.sh/react", None), Syntax::Es { jsx: false });
    assert_eq!(get_syntax("./a.b/c", None), Syntax::Es { jsx: false });
    assert_eq!(get_syntax("./app.js", Some("tsx".to_string())), Syntax::Typescript { tsx: true });
    assert_eq!(get_syntax("./app.js", Some("TSX".to_string())), Syntax::Es { jsx: false });
}

#[test]
fn targets_and_lowering() {
    assert_eq!(parse_target("es2015"), EsVersion::Es2015);
    assert_eq!(parse_target("es2020"), EsVersion::Es2020);
    assert_eq!(parse_target("esnext"), EsVersion::Es2022);
    assert_eq!(parse_target(""), EsVersion::Es2022);
    assert!(should_enable(EsVersion::Es2015, EsVersion::Es2016));
    assert!(!should_enable(EsVersion::Es2022, EsVersion::Es2022));
    assert!(!should_enable(EsVersion::Es2022, EsVersion::Es2016));
    assert!(should_enable(EsVersion::Es5, EsVersion::Es2022));
}

#[test]
fn defaults() {
    let o = EmitOptions::default();
    assert_eq!(o.target, EsVersion::Es2022);
    assert!(o.jsx_import_source.is_none());
    assert!(!o.strip_data_export && !o.react_refresh && !o.source_map);
    assert!(o.minify.is_none());
    let d = Drafts::default();
    assert!(!d.nesting && !d.custom_media);
}

#[test]
fn string_helpers() {
    assert!(starts_with("https://x", "https://"));
    assert!(!starts_with("http", "https://"));
    assert!(ends_with("a.css", ".css"));
    assert!(!ends_with("css", ".css"));
    assert!(contains_str("a.css?x", ".css?"));
    assert!(!contains_str("a.cs?x", ".css?"));
    assert!(contains_str("abc", ""));
    assert_eq!(trim_start_char("../../x", '.'), "/../x");
    assert_eq!(trim_start_char("..", '.'), "");
    assert_eq!(decimal_string(0), "0");
    assert_eq!(decimal_string(8080), "8080");
    assert_eq!(decimal_string(65535), "65535");
}

#[test]
fn replacing_text() {
    assert_eq!(replace_str("a-b-c", "-", "+"), "a+b+c");
    assert_eq!(replace_str("aaa", "aa", "b"), "ba");
    assert_eq!(replace_str("abc", "x", "y"), "abc");
    assert_eq!(replace_str("abc", "", "y"), "abc");
    assert_eq!(replace_str("", "a", "b"), "");
    assert_eq!(replace_str("\"x\" and \"x\"", "\"x\"", "\"y?z\""), "\"y?z\" and \"y?z\"");
}

#[test]
fn the_jsx_runtime_import_points_at_its_url() {
    let deps = vec![
        dep("./a.ts", "./a.ts?v=1"),
        dep("https://esm.sh/react@18/jsx-dev-runtime", "https://esm.sh/react@18/jsx-dev-runtime?dev"),
        dep("https://esm.sh/preact/jsx-runtime", "/-/esm.sh/preact/jsx-runtime"),
    ];
    let code = "import { jsxDEV } from \"https://esm.sh/react@18/jsx-dev-runtime\";\nimport a from \"./a.ts?v=1\";";
    assert_eq!(
        point_jsx_runtime(code, &deps),
        "import { jsxDEV } from \"https://esm.sh/react@18/jsx-dev-runtime?dev\";\nimport a from \"./a.ts?v=1\";"
    );
    assert_eq!(point_jsx_runtime(code, &vec![dep("./a.ts", "./a.ts?v=1")]), code);
}
