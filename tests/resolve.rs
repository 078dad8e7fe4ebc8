use aleph_compiler::resolver::{is_false, ResolveError, Resolver, Span, VersionTable};
use aleph_compiler::urls::{is_css_url, is_esm_sh_url, is_http_url};

const IMPORT_MAP: &str = r#"{
  "imports": {
    "~/": "./",
    "react": "https://esm.sh/react@18"
  }
}"#;

fn resolver(specifier: &str, is_dev: bool, proxy: bool) -> Resolver {
    let mut versions = VersionTable::new();
    versions.insert("./foo.ts".to_string(), "100".to_string());
    Resolver::new(
        specifier,
        "https://deno.land/x/aleph",
        IMPORT_MAP,
        versions,
        Some("1.0.0".to_string()),
        proxy,
        is_dev,
    )
}

fn plain_resolver(specifier: &str) -> Resolver {
    Resolver::new(specifier, "", "{}", VersionTable::new(), None, false, false)
}

#[test]
fn classifies_urls() {
    assert!(is_http_url("https://esm.sh/react"));
    assert!(is_http_url("http://localhost:8080/mod.ts"));
    assert!(!is_http_url("./mod.ts"));
    assert!(!is_http_url("file:///mod.ts"));
    assert!(is_esm_sh_url("https://esm.sh/react"));
    assert!(is_esm_sh_url("http://esm.sh/react"));
    assert!(!is_esm_sh_url("https://esm.sh.example.com/react"));
    assert!(is_css_url("./style.css"));
    assert!(is_css_url("./style.css?inline"));
    assert!(is_css_url("https://esm.sh/@fullcalendar/daygrid?css&dev"));
    assert!(!is_css_url("https://esm.sh/@fullcalendar/daygrid?dev"));
    assert!(!is_css_url("https://example.com/lib?css"));
    assert!(!is_css_url("./style.cssx"));
}

#[test]
fn is_false_negates() {
    assert!(is_false(&false));
    assert!(!is_false(&true));
}

#[test]
fn version_table_keeps_the_last_entry() {
    let mut t = VersionTable::new();
    assert_eq!(t.get("./a.ts"), None);
    t.insert("./a.ts".to_string(), "1".to_string());
    t.insert("./b.ts".to_string(), "2".to_string());
    t.insert("./a.ts".to_string(), "3".to_string());
    assert_eq!(t.get("./a.ts"), Some("3".to_string()));
    assert_eq!(t.get("./b.ts"), Some("2".to_string()));
    assert_eq!(t.get("./c.ts"), None);
}

#[test]
fn local_paths_of_remote_urls() {
    let r = plain_resolver("./mod.ts");
    assert_eq!(r.to_local_path("https://esm.sh/react").unwrap(), "/-/esm.sh/react");
    assert_eq!(
        r.to_local_path("https://deno.land/std/path/mod.ts").unwrap(),
        "/-/deno.land/std/path/mod.ts"
    );
    assert_eq!(
        r.to_local_path("http://localhost:8080/mod.ts").unwrap(),
        "/-/http_localhost_8080/mod.ts"
    );
    assert_eq!(r.to_local_path("https://example.com:443/a.js").unwrap(), "/-/example.com/a.js");
    assert_eq!(r.to_local_path("http://example.com:80/a.js").unwrap(), "/-/http_example.com/a.js");
    assert_eq!(
        r.to_local_path("https://example.com:8443/a.js?b=1").unwrap(),
        "/-/example.com_8443/a.js?b=1"
    );
    assert_eq!(r.to_local_path("not a url"), None);
    assert_eq!(r.to_local_path("data:text/plain,hello"), None);
}

#[test]
fn relative_path_from_the_module_directory() {
    let mut r = resolver("./pages/blog/$id.tsx", false, true);
    r.global_version = None;
    let url = r.resolve("./Layout.tsx", false, None).unwrap();
    assert_eq!(url, "./Layout.tsx");
    assert_eq!(r.deps[0].specifier, "./pages/blog/Layout.tsx");
    assert_eq!(r.resolve("../index.tsx", false, None).unwrap(), "../index.tsx");
    assert_eq!(r.resolve("/components/a.tsx", false, None).unwrap(), "../../components/a.tsx");
}

#[test]
fn module_versions_take_precedence_over_the_global_one() {
    let mut r = resolver("./pages/blog/$id.tsx", false, true);
    assert_eq!(r.resolve("~/foo.ts", false, None).unwrap(), "../../foo.ts?v=100");
    assert_eq!(r.deps[0].specifier, "./foo.ts");
    assert_eq!(r.resolve("./Layout.tsx", false, None).unwrap(), "./Layout.tsx?v=1.0.0");
    assert_eq!(r.deps[1].specifier, "./pages/blog/Layout.tsx");
    assert_eq!(r.resolve("./data.json?raw", false, None).unwrap(), "./data.json?raw&v=1.0.0");
}

#[test]
fn stylesheets_are_tagged_as_modules() {
    let mut r = resolver("./pages/blog/$id.tsx", false, true);
    assert_eq!(
        r.resolve("../../style/app.css", false, None).unwrap(),
        "../../style/app.css?module&v=1.0.0"
    );
    assert_eq!(r.deps[0].specifier, "./style/app.css");
    let url = r.resolve("./theme.css?inline", false, None).unwrap();
    assert_eq!(url, "./theme.css?inline&module&v=1.0.0");
    assert!(url.contains("&module"));
}

#[test]
fn remote_modules_are_proxied() {
    let mut r = resolver("./app.tsx", false, true);
    assert_eq!(r.resolve("https://esm.sh/react@18", false, None).unwrap(), "/-/esm.sh/react@18");
    assert_eq!(r.resolve("react", false, None).unwrap(), "/-/esm.sh/react@18");
    assert_eq!(
        r.resolve("http://localhost:8080/mod.ts", false, None).unwrap(),
        "/-/http_localhost_8080/mod.ts"
    );
    assert_eq!(r.deps[2].specifier, "http://localhost:8080/mod.ts");
    assert_eq!(
        r.resolve("https://esm.sh/@fullcalendar/daygrid?css&dev", false, None).unwrap(),
        "/-/esm.sh/@fullcalendar/daygrid?css&dev&module"
    );
    assert_eq!(r.deps[3].specifier, "https://esm.sh/@fullcalendar/daygrid?css&dev");
}

#[test]
fn remote_modules_without_proxying_keep_their_url() {
    let mut r = resolver("./app.tsx", false, false);
    assert_eq!(r.resolve("react", false, None).unwrap(), "https://esm.sh/react@18");
    assert_eq!(r.deps[0].import_url, "https://esm.sh/react@18");
}

#[test]
fn development_mode_flags_cdn_modules() {
    let mut r = resolver("./app.tsx", true, true);
    assert_eq!(r.resolve("react", false, None).unwrap(), "/-/esm.sh/react@18?dev");
    assert_eq!(r.deps[0].specifier, "https://esm.sh/react@18?dev");
    assert_eq!(
        r.resolve("https://esm.sh/react@18?target=es2020", false, None).unwrap(),
        "/-/esm.sh/react@18?target=es2020&dev"
    );
    assert_eq!(
        r.resolve("https://esm.sh/react.development.js", false, None).unwrap(),
        "/-/esm.sh/react.development.js"
    );
}

#[test]
fn a_remote_module_resolves_relative_to_its_url() {
    let mut r = resolver("https://deno.land/x/lib/mod.ts", false, false);
    assert!(r.specifier_is_remote);
    assert_eq!(r.resolve("./util.ts", false, None).unwrap(), "https://deno.land/x/lib/util.ts");
    let mut p = resolver("https://deno.land/x/lib/mod.ts", false, true);
    assert_eq!(p.resolve("./util.ts", false, None).unwrap(), "/-/deno.land/x/lib/util.ts");
}

#[test]
fn resolving_twice_gives_the_same_result() {
    let mut r = resolver("./pages/index.tsx", false, true);
    let loc = Some(Span { lo: 3, hi: 9, ctxt: 0 });
    let a = r.resolve("~/foo.ts", true, loc).unwrap();
    let b = r.resolve("~/foo.ts", true, loc).unwrap();
    assert_eq!(a, b);
    assert_eq!(r.deps.len(), 2);
    assert_eq!(r.deps[0].specifier, r.deps[1].specifier);
    assert_eq!(r.deps[0].import_url, r.deps[1].import_url);
    assert_eq!(r.deps[0].loc, r.deps[1].loc);
    assert_eq!(r.deps[0].dynamic, r.deps[1].dynamic);
}

#[test]
fn the_key_carries_no_decoration() {
    let mut r = resolver("./pages/blog/$id.tsx", false, true);
    r.resolve("~/foo.ts", false, None).unwrap();
    r.resolve("../../style/app.css", false, None).unwrap();
    r.resolve("https://esm.sh/@fullcalendar/daygrid?css", false, None).unwrap();
    for d in &r.deps {
        for tag in ["?v=", "&v=", "?module", "&module", "?dev", "&dev"] {
            assert!(!d.specifier.contains(tag), "{} holds {}", d.specifier, tag);
        }
    }
    assert!(r.deps[0].import_url.contains("?v=100"));
    assert!(r.deps[1].import_url.contains("?module"));
    assert!(r.deps[2].import_url.contains("&module"));
}

#[test]
fn malformed_referrer_is_an_error() {
    let mut r = plain_resolver("https://");
    assert!(r.specifier_is_remote);
    assert_eq!(r.resolve("./a.ts", false, None), Err(ResolveError::MalformedReferrer));
    assert!(r.deps.is_empty());
}

#[test]
fn unrelatable_path_is_an_error() {
    let mut r = plain_resolver("./a.ts");
    assert_eq!(r.resolve_mapped("file://host/x.ts", false, None), Err(ResolveError::UnrelatablePath));
    assert!(r.deps.is_empty());
}

#[test]
fn malformed_remote_url_is_an_error() {
    let mut r = Resolver::new("./a.ts", "", "{}", VersionTable::new(), None, true, false);
    assert_eq!(r.resolve_mapped("https://", false, None), Err(ResolveError::MalformedRemoteUrl));
    assert!(r.deps.is_empty());
}

#[test]
fn resolve_mapped_takes_the_import_map_answer() {
    let mut r = plain_resolver("./pages/index.tsx");
    assert_eq!(r.resolve_mapped("file:///lib/a.ts", false, None).unwrap(), "../lib/a.ts");
    assert_eq!(r.deps[0].specifier, "./lib/a.ts");
    assert_eq!(r.resolve_mapped("https://esm.sh/a", true, None).unwrap(), "https://esm.sh/a");
    assert!(r.deps[1].dynamic);
}
