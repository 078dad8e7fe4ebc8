//! Steps of the compile pipeline around the rewrite pass: the import source
//! of the automatic JSX runtime, and the pruning of dependencies that the
//! emitted code no longer references.
use crate::resolver::{dep_views, DepView, DependencyDescriptor, ResolveError, Resolver};
use crate::text::{contains_char, contains_str, ends_with, occurs_in, replace_all, replace_str};
use vstd::prelude::*;
use vstd::string::*;

verus! {

/// `i` is where `s` first holds `c`, or the length of `s` where it never
/// does.
pub open spec fn is_first_stop(s: Seq<char>, c: char, i: int) -> bool {
    &&& 0 <= i <= s.len()
    &&& (i == s.len() || s[i] == c)
    &&& forall|j: int| 0 <= j < i ==> s[j] != c
}

/// The part of `s` before its first `c`.
pub open spec fn head_before(s: Seq<char>, c: char) -> Seq<char> {
    s.subrange(0, choose|i: int| is_first_stop(s, c, i))
}

/// The part of `s` before its first `c`.
pub fn before_char(s: &str, c: char) -> (r: String)
    ensures
        r@ == head_before(s@, c),
{
    let n = s.unicode_len();
    let mut i: usize = 0;
    while i < n && s.get_char(i) != c
        invariant
            n == s@.len(),
            i <= n,
            forall|j: int| 0 <= j < i ==> s@[j] != c,
        decreases n - i,
    {
        i = i + 1;
    }
    proof {
        assert(is_first_stop(s@, c, i as int));
        let k = choose|k: int| is_first_stop(s@, c, k);
        if k < i {
            assert(s@[k] != c);
        } else if k > i {
            assert(s@[i as int] != c);
        }
        assert(k == i);
    }
    String::from_str(s.substring_char(0, i))
}

/// The module of the JSX runtime within an import source.
pub open spec fn runtime_path(is_dev: bool) -> Seq<char> {
    if is_dev {
        "/jsx-dev-runtime"@
    } else {
        "/jsx-runtime"@
    }
}

/// The import source that the JSX transform is given, from the import URL
/// of its runtime module: the URL before any query, without the runtime
/// path; the URL unchanged where it does not end in that path.
pub open spec fn import_source_of(url: Seq<char>, runtime: Seq<char>) -> Seq<char> {
    let head = head_before(url, '?');
    if runtime.is_suffix_of(head) {
        head.subrange(0, head.len() - runtime.len())
    } else {
        url
    }
}

/// Resolves the JSX runtime module of `jsx_import_source` and returns the
/// import source to hand the JSX transform. The runtime stays a recorded
/// dependency only in a module that holds JSX.
pub fn resolve_jsx_import_source(
    resolver: &mut Resolver,
    jsx_import_source: &str,
    is_dev: bool,
    is_jsx: bool,
) -> (r: Result<String, ResolveError>)
    ensures
        final(resolver).same_config(old(resolver)),
        match old(resolver).config().resolve_spec(
            jsx_import_source@ + runtime_path(is_dev),
        ) {
            Ok(res) => {
                &&& r is Ok
                &&& r->Ok_0@ == import_source_of(res.import_url, runtime_path(is_dev))
                &&& dep_views(final(resolver).deps@) == if is_jsx {
                    dep_views(old(resolver).deps@).push(
                        DepView {
                            specifier: res.specifier,
                            import_url: res.import_url,
                            loc: None,
                            dynamic: false,
                        },
                    )
                } else {
                    dep_views(old(resolver).deps@)
                }
            },
            Err(e) => r == Err::<String, ResolveError>(e) && dep_views(final(resolver).deps@)
                == dep_views(old(resolver).deps@),
        },
{
    let runtime = if is_dev {
        "/jsx-dev-runtime"
    } else {
        "/jsx-runtime"
    };
    let spec = String::from_str(jsx_import_source).concat(runtime);
    let url = match resolver.resolve(spec.as_str(), false, None) {
        Ok(u) => u,
        Err(e) => return Err(e),
    };
    let head = before_char(url.as_str(), '?');
    let source = if ends_with(head.as_str(), runtime) {
        let n = head.as_str().unicode_len();
        let m = runtime.unicode_len();
        String::from_str(head.as_str().substring_char(0, n - m))
    } else {
        url
    };
    if !is_jsx {
        let ghost before = resolver.deps@;
        assert(dep_views(before).len() == before.len());
        assert(before.len() > 0);
        resolver.deps.pop();
        assert(resolver.deps@ =~= before.drop_last());
        assert(dep_views(resolver.deps@) =~= dep_views(before).drop_last());
    }
    Ok(source)
}

/// `url` is one of the pieces of `code` between double quotes.
pub open spec fn is_quoted_piece(code: Seq<char>, url: Seq<char>) -> bool {
    &&& !url.contains('"')
    &&& occurs_in(seq!['"'] + url + seq!['"'], seq!['"'] + code + seq!['"'])
}

/// A dependency survives pruning: the JSX runtime always does, any other
/// where the code still quotes its import URL.
pub open spec fn keeps_dep(d: DepView, code: Seq<char>) -> bool {
    ||| "/jsx-runtime"@.is_suffix_of(d.specifier)
    ||| "/jsx-dev-runtime"@.is_suffix_of(d.specifier)
    ||| is_quoted_piece(code, d.import_url)
}

/// The dependencies of `deps` that survive pruning against `code`, in order.
pub open spec fn kept_deps(deps: Seq<DepView>, code: Seq<char>) -> Seq<DepView>
    decreases deps.len(),
{
    if deps.len() == 0 {
        Seq::empty()
    } else {
        let init = kept_deps(deps.subrange(0, deps.len() - 1), code);
        if keeps_dep(deps[deps.len() - 1], code) {
            init.push(deps[deps.len() - 1])
        } else {
            init
        }
    }
}

/// Whether `code` quotes `url` as a whole piece between double quotes.
pub fn quotes(code: &str, url: &str) -> (r: bool)
    ensures
        r == is_quoted_piece(code@, url@),
{
    proof {
        reveal_strlit("\"");
    }
    if contains_char(url, '"') {
        return false;
    }
    let needle = String::from_str("\"").concat(url).concat("\"");
    let hay = String::from_str("\"").concat(code).concat("\"");
    assert(needle@ =~= seq!['"'] + url@ + seq!['"']);
    assert(hay@ =~= seq!['"'] + code@ + seq!['"']);
    contains_str(hay.as_str(), needle.as_str())
}

/// Drops the dependencies that the emitted `code` no longer references,
/// keeping the JSX runtime.
pub fn prune_deps(deps: &Vec<DependencyDescriptor>, code: &str) -> (r: Vec<DependencyDescriptor>)
    ensures
        dep_views(r@) == kept_deps(dep_views(deps@), code@),
{
    let mut out: Vec<DependencyDescriptor> = Vec::new();
    let mut i: usize = 0;
    assert(dep_views(deps@).subrange(0, 0) =~= Seq::<DepView>::empty());
    assert(dep_views(out@) =~= Seq::<DepView>::empty());
    while i < deps.len()
        invariant
            i <= deps@.len(),
            dep_views(out@) == kept_deps(dep_views(deps@).subrange(0, i as int), code@),
        decreases deps@.len() - i,
    {
        let ghost all = dep_views(deps@);
        let ghost next = all.subrange(0, i + 1);
        assert(next.subrange(0, next.len() - 1) =~= all.subrange(0, i as int));
        assert(next[next.len() - 1] == deps@[i as int]@);
        let d = &deps[i];
        let keep = ends_with(d.specifier.as_str(), "/jsx-runtime") || ends_with(
            d.specifier.as_str(),
            "/jsx-dev-runtime",
        ) || quotes(code, d.import_url.as_str());
        if keep {
            let ghost before = dep_views(out@);
            out.push(d.clone());
            assert(dep_views(out@) =~= before.push(d@));
        }
        i = i + 1;
    }
    assert(dep_views(deps@).subrange(0, deps@.len() as int) =~= dep_views(deps@));
    out
}

/// A dependency on the JSX runtime.
pub open spec fn is_jsx_runtime(key: Seq<char>) -> bool {
    "/jsx-runtime"@.is_suffix_of(key) || "/jsx-dev-runtime"@.is_suffix_of(key)
}

/// The index of the first JSX runtime among `deps[k..]`.
pub open spec fn first_runtime(deps: Seq<DepView>, k: int) -> Option<int>
    decreases deps.len() - k,
{
    if k < 0 || k >= deps.len() {
        None
    } else if is_jsx_runtime(deps[k].specifier) {
        Some(k)
    } else {
        first_runtime(deps, k + 1)
    }
}

/// `s` between double quotes.
pub open spec fn quoted(s: Seq<char>) -> Seq<char> {
    seq!['"'] + s + seq!['"']
}

/// The emitted `code` with the JSX runtime import pointed at its import
/// URL: the transform writes the runtime's specifier, the first runtime
/// dependency says where it resolved to.
pub open spec fn with_runtime_url(code: Seq<char>, deps: Seq<DepView>) -> Seq<char> {
    match first_runtime(deps, 0) {
        Some(i) => replace_all(code, quoted(deps[i].specifier), quoted(deps[i].import_url)),
        None => code,
    }
}

/// Points the JSX runtime import of the emitted `code` at the import URL
/// that the runtime resolved to.
pub fn point_jsx_runtime(code: &str, deps: &Vec<DependencyDescriptor>) -> (r: String)
    ensures
        r@ == with_runtime_url(code@, dep_views(deps@)),
{
    let ghost ds = dep_views(deps@);
    let mut k: usize = 0;
    while k < deps.len()
        invariant
            ds == dep_views(deps@),
            k <= deps@.len(),
            first_runtime(ds, 0) == first_runtime(ds, k as int),
        decreases deps@.len() - k,
    {
        let d = &deps[k];
        assert(ds[k as int] == d@);
        if ends_with(d.specifier.as_str(), "/jsx-runtime") || ends_with(
            d.specifier.as_str(),
            "/jsx-dev-runtime",
        ) {
            proof {
                reveal_strlit("\"");
            }
            let from = String::from_str("\"").concat(d.specifier.as_str()).concat("\"");
            let to = String::from_str("\"").concat(d.import_url.as_str()).concat("\"");
            assert(from@ =~= quoted(d.specifier@));
            assert(to@ =~= quoted(d.import_url@));
            return replace_str(code, from.as_str(), to.as_str());
        }
        k = k + 1;
    }
    String::from_str(code)
}

} // verus!
