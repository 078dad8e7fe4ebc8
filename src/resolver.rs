//! The specifier resolver: turns the specifier written at an import site into
//! the URL spliced back into the code, and records the dependency.
use crate::text::{
    contains_char, ends_with, occurs_in, starts_with, tail_from, trim_start, trim_start_char,
};
use crate::urls::{
    is_css, is_css_url, is_esm_sh, is_esm_sh_url, is_http, is_http_url, local_path_from_parts,
    local_path_of, opt_view, parse_url, parsed_url, slash_path, to_slash,
};
use vstd::prelude::*;
use vstd::string::*;

verus! {

/// A source position: byte offsets of the start and end of a literal, and
/// its syntax context.
#[derive(Clone, Copy, Debug, PartialEq, Eq, Structural)]
pub struct Span {
    pub lo: u32,
    pub hi: u32,
    pub ctxt: u32,
}

/// One recorded edge of the module graph.
#[derive(Debug)]
pub struct DependencyDescriptor {
    /// The dependency-graph key: the specifier without version or module
    /// decoration.
    pub specifier: String,
    /// The exact string spliced into the rewritten code.
    pub import_url: String,
    pub loc: Option<Span>,
    /// Whether the reference came from a dynamic import or a worker.
    pub dynamic: bool,
}

/// The mathematical value of a [`DependencyDescriptor`].
pub struct DepView {
    pub specifier: Seq<char>,
    pub import_url: Seq<char>,
    pub loc: Option<Span>,
    pub dynamic: bool,
}

impl View for DependencyDescriptor {
    type V = DepView;

    open spec fn view(&self) -> DepView {
        DepView {
            specifier: self.specifier@,
            import_url: self.import_url@,
            loc: self.loc,
            dynamic: self.dynamic,
        }
    }
}

impl Clone for DependencyDescriptor {
    fn clone(&self) -> (r: Self)
        ensures
            r@ == self@,
    {
        DependencyDescriptor {
            specifier: self.specifier.clone(),
            import_url: self.import_url.clone(),
            loc: self.loc,
            dynamic: self.dynamic,
        }
    }
}

/// The views of a sequence of descriptors.
pub open spec fn dep_views(s: Seq<DependencyDescriptor>) -> Seq<DepView> {
    s.map_values(|d: DependencyDescriptor| d@)
}

/// Whether the descriptor `flag` is unset; such a flag is left out of the
/// wire form of a descriptor.
pub fn is_false(value: &bool) -> (r: bool)
    ensures
        r == !*value,
{
    !*value
}

/// The versions of individual modules, keyed by module specifier. A later
/// entry for a key overrides an earlier one.
pub struct VersionTable {
    pub entries: Vec<(String, String)>,
}

/// The version that `entries` holds for `key`: the last entry for it.
pub open spec fn table_get(entries: Seq<(String, String)>, key: Seq<char>) -> Option<Seq<char>>
    decreases entries.len(),
{
    if entries.len() == 0 {
        None
    } else if entries.last().0@ == key {
        Some(entries.last().1@)
    } else {
        table_get(entries.drop_last(), key)
    }
}

impl VersionTable {
    pub open spec fn get_spec(&self, key: Seq<char>) -> Option<Seq<char>> {
        table_get(self.entries@, key)
    }

    /// An empty table.
    pub fn new() -> (r: Self)
        ensures
            forall|k: Seq<char>| r.get_spec(k) is None,
    {
        VersionTable { entries: Vec::new() }
    }

    /// Sets the version of `key`.
    pub fn insert(&mut self, key: String, version: String)
        ensures
            final(self).get_spec(key@) == Some(version@),
            forall|k: Seq<char>| k != key@ ==> final(self).get_spec(k) == old(self).get_spec(k),
    {
        let ghost old_entries = self.entries@;
        self.entries.push((key, version));
        assert(self.entries@.drop_last() =~= old_entries);
    }

    /// The version of `key`, if the table holds one.
    pub fn get(&self, key: &str) -> (r: Option<String>)
        ensures
            opt_view(r) == self.get_spec(key@),
    {
        let target = String::from_str(key);
        let mut i = self.entries.len();
        assert(self.entries@.subrange(0, i as int) =~= self.entries@);
        while i > 0
            invariant
                i <= self.entries.len(),
                target@ == key@,
                table_get(self.entries@, key@) == table_get(self.entries@.subrange(0, i as int), key@),
            decreases i,
        {
            let ghost pre = self.entries@.subrange(0, i as int);
            assert(pre.drop_last() =~= self.entries@.subrange(0, i - 1));
            assert(pre.last() == self.entries@[i - 1]);
            if self.entries[i - 1].0 == target {
                return Some(self.entries[i - 1].1.clone());
            }
            i = i - 1;
        }
        None
    }
}

/// Why a specifier could not be resolved.
#[derive(Clone, Copy, Debug, PartialEq, Eq, Structural)]
pub enum ResolveError {
    /// The module's own specifier does not make a URL to resolve against.
    MalformedReferrer,
    /// A local path could not be written relative to the module's directory.
    UnrelatablePath,
    /// A remote URL to be proxied has no host or does not parse.
    MalformedRemoteUrl,
}

/// The directory part of the path `p`.
pub uninterp spec fn parent_path(p: Seq<char>) -> Option<Seq<char>>;

/// The path that leads from directory `base` to `path`.
pub uninterp spec fn relative_path(path: Seq<char>, base: Seq<char>) -> Option<Seq<char>>;

/// Relies on `std::path::PathBuf::pop`: the path without its last component
/// (or unchanged where it has none), or `None` where it is not UTF-8.
#[verifier::external_body]
fn parent_dir(p: &str) -> (r: Option<String>)
    ensures
        opt_view(r) == parent_path(p@),
{
    let mut buf = std::path::PathBuf::from(p);
    buf.pop();
    buf.to_str().map(|s| s.to_string())
}

/// Relies on `pathdiff::diff_paths`: the relative path from `base` to
/// `path`, where there is one.
#[verifier::external_body]
fn diff_paths(path: &str, base: &str) -> (r: Option<String>)
    ensures
        opt_view(r) == relative_path(path@, base@),
{
    pathdiff::diff_paths(path, base).and_then(|p| p.to_str().map(|s| s.to_string()))
}

/// The URL that an import map, written as JSON and read against `base`,
/// makes of `specifier` imported from `referrer`.
pub uninterp spec fn import_map_answer(
    base: Seq<char>,
    json: Seq<char>,
    specifier: Seq<char>,
    referrer: Seq<char>,
) -> Option<Seq<char>>;

/// Relies on `import_map::parse_from_json` and `import_map::ImportMap::resolve`:
/// the URL that the import map makes of `specifier` from `referrer`, or
/// `None` where the map does not parse or has no answer.
#[verifier::external_body]
fn import_map_resolve(base: &str, json: &str, specifier: &str, referrer: &str) -> (r: Option<
    String,
>)
    ensures
        opt_view(r) == import_map_answer(base@, json@, specifier@, referrer@),
{
    let base = url::Url::parse(base).ok()?;
    let map = import_map::parse_from_json(&base, json).ok()?.import_map;
    let referrer = url::Url::parse(referrer).ok()?;
    map.resolve(specifier, &referrer).ok().map(|u| u.to_string())
}

/// Resolves import and export specifiers of one module.
pub struct Resolver {
    /// The URI of the framework package.
    pub aleph_pkg_uri: String,
    /// The specifier of the module itself.
    pub specifier: String,
    /// Whether the module itself is remote.
    pub specifier_is_remote: bool,
    /// The dependencies recorded so far, in order.
    pub deps: Vec<DependencyDescriptor>,
    /// Development mode.
    pub is_dev: bool,
    /// The version stamped on local modules that have none of their own.
    pub global_version: Option<String>,
    /// The versions of individual local modules.
    pub graph_versions: VersionTable,
    /// Whether remote URLs are rewritten to local proxy paths.
    pub resolve_remote_deps: bool,
    /// The import map that specifiers are first resolved through, as JSON;
    /// its relative addresses are read against `file:///`.
    pub import_map: String,
}

/// `s`, then `sep` followed by `tag`, where `sep` is `&` if `s` already has
/// a query and `?` if not.
pub open spec fn add_query(s: Seq<char>, tag: Seq<char>) -> Seq<char> {
    if s.contains('?') {
        s + "&"@ + tag
    } else {
        s + "?"@ + tag
    }
}

/// The form `./x` or `../x` of a relative path.
pub open spec fn dot_relative(p: Seq<char>) -> Seq<char> {
    if "./"@.is_prefix_of(p) || "../"@.is_prefix_of(p) {
        p
    } else {
        "./"@ + p
    }
}

/// `s` with `tag` added to its query.
pub fn with_query(s: String, tag: &str) -> (r: String)
    ensures
        r@ == add_query(s@, tag@),
{
    if contains_char(s.as_str(), '?') {
        s.concat("&").concat(tag)
    } else {
        s.concat("?").concat(tag)
    }
}

/// What a resolver computes from the text that the import map gave: the
/// dependency key and the import URL.
pub struct Resolution {
    pub specifier: Seq<char>,
    pub import_url: Seq<char>,
}

/// The settings that decide how a resolver resolves: everything but the
/// recorded dependencies.
pub struct ResolverConfig {
    pub specifier: Seq<char>,
    pub specifier_is_remote: bool,
    pub is_dev: bool,
    pub global_version: Option<Seq<char>>,
    pub graph_versions: Seq<(String, String)>,
    pub resolve_remote_deps: bool,
    pub import_map: Seq<char>,
}

impl ResolverConfig {
    /// The URL that specifiers are resolved against: the module's own URL if
    /// it is remote, else a `file://` URL of its path without leading dots.
    pub open spec fn referrer_spec(&self) -> Seq<char> {
        if self.specifier_is_remote {
            self.specifier
        } else {
            "file://"@ + trim_start(self.specifier, '.')
        }
    }

    /// The version stamped on the local module `key`.
    pub open spec fn version_spec(&self, key: Seq<char>) -> Option<Seq<char>> {
        match table_get(self.graph_versions, key) {
            Some(v) => Some(v),
            None => self.global_version,
        }
    }

    /// The dependency key of a resolved text: a `file://` URL becomes
    /// `.` and its path; anything else stays as it is.
    pub open spec fn key_spec(resolved: Seq<char>) -> Seq<char> {
        if "file://"@.is_prefix_of(resolved) {
            "."@ + resolved.subrange(7, resolved.len() as int)
        } else {
            resolved
        }
    }

    /// The import URL of a resolved text before any decoration; `None` where
    /// a local path cannot be made relative to the module's directory.
    pub open spec fn base_import_spec(&self, resolved: Seq<char>) -> Option<Seq<char>> {
        if "file://"@.is_prefix_of(resolved) {
            let path = resolved.subrange(7, resolved.len() as int);
            if self.specifier_is_remote {
                Some("."@ + path)
            } else {
                match parent_path(trim_start(self.specifier, '.')) {
                    Some(dir) => match relative_path(path, dir) {
                        Some(rel) => match slash_path(rel) {
                            Some(p) => Some(dot_relative(p)),
                            None => None,
                        },
                        None => None,
                    },
                    None => None,
                }
            }
        } else {
            Some(resolved)
        }
    }

    /// Whether the development flag is added to a key.
    pub open spec fn wants_dev_spec(&self, key: Seq<char>) -> bool {
        self.is_dev && is_esm_sh(key) && !".development.js"@.is_suffix_of(key)
    }

    /// The resolution of the text `resolved` that the import map gave.
    pub open spec fn resolution_spec(&self, resolved: Seq<char>) -> Result<Resolution, ResolveError> {
        let key0 = Self::key_spec(resolved);
        match self.base_import_spec(resolved) {
            None => Err(ResolveError::UnrelatablePath),
            Some(import0) => {
                let key = if self.wants_dev_spec(key0) {
                    add_query(key0, "dev"@)
                } else {
                    key0
                };
                let import1 = if self.wants_dev_spec(key0) {
                    key
                } else {
                    import0
                };
                let import2 = if is_css(import1) {
                    add_query(import1, "module"@)
                } else {
                    import1
                };
                if is_http(key0) {
                    if self.resolve_remote_deps {
                        match local_path_of(import2) {
                            Some(p) => Ok(Resolution { specifier: key, import_url: p }),
                            None => Err(ResolveError::MalformedRemoteUrl),
                        }
                    } else {
                        Ok(Resolution { specifier: key, import_url: import2 })
                    }
                } else {
                    match self.version_spec(key) {
                        Some(v) => Ok(
                            Resolution { specifier: key, import_url: add_query(import2, "v="@ + v) },
                        ),
                        None => Ok(Resolution { specifier: key, import_url: import2 }),
                    }
                }
            },
        }
    }

    /// The resolution of the specifier `url` written in the module: through
    /// the import map first, falling back to `url` itself where the map has
    /// no answer.
    pub open spec fn resolve_spec(&self, url: Seq<char>) -> Result<Resolution, ResolveError> {
        let referrer = self.referrer_spec();
        if parsed_url(referrer) is None {
            Err(ResolveError::MalformedReferrer)
        } else {
            let resolved = match import_map_answer("file:///"@, self.import_map, url, referrer) {
                Some(m) => m,
                None => url,
            };
            self.resolution_spec(resolved)
        }
    }
}

impl Resolver {
    /// The settings of the resolver.
    pub open spec fn config(&self) -> ResolverConfig {
        ResolverConfig {
            specifier: self.specifier@,
            specifier_is_remote: self.specifier_is_remote,
            is_dev: self.is_dev,
            global_version: opt_view(self.global_version),
            graph_versions: self.graph_versions.entries@,
            resolve_remote_deps: self.resolve_remote_deps,
            import_map: self.import_map@,
        }
    }

    /// `self` and `other` agree in everything but the recorded dependencies.
    pub open spec fn same_config(&self, other: &Resolver) -> bool {
        self.config() == other.config() && self.aleph_pkg_uri@ == other.aleph_pkg_uri@
    }

    /// Whether a call whose resolution is `outcome` and that returned `r`
    /// did what the resolution asks: on success it returned the
    /// import URL and appended one descriptor to the dependencies, which end
    /// as `deps_after`; on failure it returned the error and recorded nothing.
    pub open spec fn records(
        &self,
        outcome: Result<Resolution, ResolveError>,
        dynamic: bool,
        loc: Option<Span>,
        r: Result<String, ResolveError>,
        deps_after: Seq<DepView>,
    ) -> bool {
        match outcome {
            Ok(res) => {
                &&& r is Ok
                &&& r->Ok_0@ == res.import_url
                &&& deps_after == dep_views(self.deps@).push(
                    DepView { specifier: res.specifier, import_url: res.import_url, loc, dynamic },
                )
            },
            Err(e) => r == Err::<String, ResolveError>(e) && deps_after == dep_views(self.deps@),
        }
    }

    /// A resolver for the module `specifier`, with no dependencies recorded.
    pub fn new(
        specifier: &str,
        aleph_pkg_uri: &str,
        import_map: &str,
        graph_versions: VersionTable,
        global_version: Option<String>,
        resolve_remote_deps: bool,
        is_dev: bool,
    ) -> (r: Self)
        ensures
            r.specifier@ == specifier@,
            r.aleph_pkg_uri@ == aleph_pkg_uri@,
            r.specifier_is_remote == is_http(specifier@),
            r.deps@.len() == 0,
            r.import_map@ == import_map@,
            r.graph_versions == graph_versions,
            r.global_version == global_version,
            r.resolve_remote_deps == resolve_remote_deps,
            r.is_dev == is_dev,
    {
        Resolver {
            aleph_pkg_uri: String::from_str(aleph_pkg_uri),
            specifier: String::from_str(specifier),
            specifier_is_remote: is_http_url(specifier),
            deps: Vec::new(),
            import_map: String::from_str(import_map),
            graph_versions,
            global_version,
            is_dev,
            resolve_remote_deps,
        }
    }

    /// The local proxy path of the remote `url`; `None` where it does not
    /// parse or has no host.
    pub fn to_local_path(&self, url: &str) -> (r: Option<String>)
        ensures
            opt_view(r) == local_path_of(url@),
    {
        match parse_url(url) {
            Some(parts) => local_path_from_parts(&parts),
            None => None,
        }
    }

    /// The version of the local module `key`: its own, else the global one.
    fn version_of(&self, key: &str) -> (r: Option<String>)
        ensures
            opt_view(r) == self.config().version_spec(key@),
    {
        match self.graph_versions.get(key) {
            Some(v) => Some(v),
            None => self.global_version.clone(),
        }
    }

    /// The import URL of a resolved text before any decoration.
    fn base_import(&self, resolved: &str) -> (r: Option<String>)
        ensures
            opt_view(r) == self.config().base_import_spec(resolved@),
    {
        proof {
            reveal_strlit("file://");
        }
        if !starts_with(resolved, "file://") {
            return Some(String::from_str(resolved));
        }
        let path = tail_from(resolved, 7);
        if self.specifier_is_remote {
            return Some(String::from_str(".").concat(path.as_str()));
        }
        let own = trim_start_char(self.specifier.as_str(), '.');
        let dir = match parent_dir(own.as_str()) {
            Some(d) => d,
            None => return None,
        };
        let rel = match diff_paths(path.as_str(), dir.as_str()) {
            Some(p) => p,
            None => return None,
        };
        let p = match to_slash(rel.as_str()) {
            Some(p) => p,
            None => return None,
        };
        if starts_with(p.as_str(), "./") || starts_with(p.as_str(), "../") {
            Some(p)
        } else {
            Some(String::from_str("./").concat(p.as_str()))
        }
    }

    /// Resolves `resolved`, the text that the import map gave for a
    /// specifier (or the specifier itself where the map had no answer):
    /// records the dependency and returns the import URL.
    pub fn resolve_mapped(&mut self, resolved: &str, dynamic: bool, loc: Option<Span>) -> (r: Result<
        String,
        ResolveError,
    >)
        ensures
            final(self).same_config(old(self)),
            old(self).records(
                old(self).config().resolution_spec(resolved@),
                dynamic,
                loc,
                r,
                dep_views(final(self).deps@),
            ),
    {
        proof {
            reveal_strlit("file://");
        }
        let import0 = match self.base_import(resolved) {
            Some(i) => i,
            None => return Err(ResolveError::UnrelatablePath),
        };
        let key0 = if starts_with(resolved, "file://") {
            let path = tail_from(resolved, 7);
            String::from_str(".").concat(path.as_str())
        } else {
            String::from_str(resolved)
        };
        let is_remote = is_http_url(key0.as_str());
        let wants_dev = self.is_dev && is_esm_sh_url(key0.as_str()) && !ends_with(
            key0.as_str(),
            ".development.js",
        );
        let key = if wants_dev {
            with_query(key0, "dev")
        } else {
            key0
        };
        let import1 = if wants_dev {
            key.clone()
        } else {
            import0
        };
        let import2 = if is_css_url(import1.as_str()) {
            with_query(import1, "module")
        } else {
            import1
        };
        let import_url = if is_remote {
            if self.resolve_remote_deps {
                match self.to_local_path(import2.as_str()) {
                    Some(p) => p,
                    None => return Err(ResolveError::MalformedRemoteUrl),
                }
            } else {
                import2
            }
        } else {
            match self.version_of(key.as_str()) {
                Some(v) => with_query(import2, String::from_str("v=").concat(v.as_str()).as_str()),
                None => import2,
            }
        };
        let ghost before = dep_views(self.deps@);
        let returned = import_url.clone();
        self.deps.push(DependencyDescriptor { specifier: key, import_url, loc, dynamic });
        assert(dep_views(self.deps@) =~= before.push(self.deps@.last()@));
        Ok(returned)
    }

    /// Resolves the specifier `url` written in the module: through the import
    /// map first, then as [`Resolver::resolve_mapped`] does; records the
    /// dependency and returns the import URL.
    pub fn resolve(&mut self, url: &str, dynamic: bool, loc: Option<Span>) -> (r: Result<
        String,
        ResolveError,
    >)
        ensures
            final(self).same_config(old(self)),
            old(self).records(
                old(self).config().resolve_spec(url@),
                dynamic,
                loc,
                r,
                dep_views(final(self).deps@),
            ),
    {
        let referrer = if self.specifier_is_remote {
            self.specifier.clone()
        } else {
            let own = trim_start_char(self.specifier.as_str(), '.');
            String::from_str("file://").concat(own.as_str())
        };
        if parse_url(referrer.as_str()).is_none() {
            return Err(ResolveError::MalformedReferrer);
        }
        let resolved = match import_map_resolve(
            "file:///",
            self.import_map.as_str(),
            url,
            referrer.as_str(),
        ) {
            Some(u) => u,
            None => String::from_str(url),
        };
        self.resolve_mapped(resolved.as_str(), dynamic, loc)
    }
}

/// Determinism: two resolutions of the same specifier by resolvers with
/// the same settings and the same recorded dependencies return the same
/// import URL, or the same error, and leave the same dependencies.
pub proof fn lemma_resolve_deterministic(
    a: Resolver,
    b: Resolver,
    url: Seq<char>,
    dynamic: bool,
    loc: Option<Span>,
    ra: Result<String, ResolveError>,
    rb: Result<String, ResolveError>,
    deps_a: Seq<DepView>,
    deps_b: Seq<DepView>,
)
    requires
        a.same_config(&b),
        dep_views(a.deps@) == dep_views(b.deps@),
        a.records(a.config().resolve_spec(url), dynamic, loc, ra, deps_a),
        b.records(b.config().resolve_spec(url), dynamic, loc, rb, deps_b),
    ensures
        match (ra, rb) {
            (Ok(x), Ok(y)) => x@ == y@,
            (Err(x), Err(y)) => x == y,
            _ => false,
        },
        deps_a == deps_b,
{
}

/// The dependency key carries no decoration of the import URL: it does not
/// depend on the version table, the global version or remote proxying, and
/// outside development mode it is the resolved text itself, with a local
/// file written as `.` and its path.
pub proof fn lemma_key_undecorated(c: ResolverConfig, d: ResolverConfig, resolved: Seq<char>)
    requires
        c.specifier == d.specifier,
        c.specifier_is_remote == d.specifier_is_remote,
        c.is_dev == d.is_dev,
    ensures
        c.resolution_spec(resolved) is Ok && d.resolution_spec(resolved) is Ok ==> c.resolution_spec(
            resolved,
        )->Ok_0.specifier == d.resolution_spec(resolved)->Ok_0.specifier,
        !c.is_dev && c.resolution_spec(resolved) is Ok ==> c.resolution_spec(resolved)->Ok_0.specifier
            == ResolverConfig::key_spec(resolved),
{
}

/// Stylesheets are tagged: outside development mode, a specifier that the
/// import map leaves as a URL ending in `.css` gets an import URL that
/// carries `?module` or `&module`, unless it is a remote URL that is
/// proxied.
pub proof fn lemma_css_tagged(c: ResolverConfig, resolved: Seq<char>)
    requires
        ".css"@.is_suffix_of(resolved),
        !"file://"@.is_prefix_of(resolved),
        !c.is_dev,
        !(is_http(resolved) && c.resolve_remote_deps),
    ensures
        c.resolution_spec(resolved) is Ok,
        occurs_in("?module"@, c.resolution_spec(resolved)->Ok_0.import_url) || occurs_in(
            "&module"@,
            c.resolution_spec(resolved)->Ok_0.import_url,
        ),
{
    reveal_strlit("module");
    reveal_strlit("&module");
    reveal_strlit("?module");
    reveal_strlit("&");
    reveal_strlit("?");
    let tagged = add_query(resolved, "module"@);
    assert("&"@ + "module"@ =~= "&module"@);
    assert("?"@ + "module"@ =~= "?module"@);
    let mark = if resolved.contains('?') {
        "&module"@
    } else {
        "?module"@
    };
    assert(tagged =~= resolved + mark);
    assert(tagged.subrange(resolved.len() as int, tagged.len() as int) =~= mark);
    let url = c.resolution_spec(resolved)->Ok_0.import_url;
    match c.version_spec(resolved) {
        Some(v) => {
            if !is_http(resolved) {
                let sep = if tagged.contains('?') {
                    "&"@
                } else {
                    "?"@
                };
                assert(url == tagged + sep + ("v="@ + v));
                assert(url.subrange(resolved.len() as int, tagged.len() as int) =~= mark);
            }
        },
        None => {},
    }
    assert(url.subrange(resolved.len() as int, (resolved.len() + mark.len()) as int) =~= mark);
    assert(0 <= resolved.len() && resolved.len() + mark.len() <= url.len());
}

/// The decorations that only an import URL carries: a version or the
/// module tag.
pub open spec fn is_decoration(t: Seq<char>) -> bool {
    t == "?v="@ || t == "&v="@ || t == "?module"@ || t == "&module"@
}

proof fn lemma_absent_in_tail(t: Seq<char>, s: Seq<char>, k: int)
    requires
        0 <= k <= s.len(),
        !occurs_in(t, s),
    ensures
        !occurs_in(t, s.subrange(k, s.len() as int)),
{
    let tail = s.subrange(k, s.len() as int);
    assert forall|i: int| 0 <= i && i + t.len() <= tail.len() implies #[trigger] tail.subrange(
        i,
        i + t.len(),
    ) != t by {
        assert(tail.subrange(i, i + t.len()) =~= s.subrange(k + i, k + i + t.len()));
    }
}

proof fn lemma_absent_after_char(t: Seq<char>, c: char, s: Seq<char>)
    requires
        t.len() > 0,
        t[0] != c,
        !occurs_in(t, s),
    ensures
        !occurs_in(t, seq![c] + s),
{
    let h = seq![c] + s;
    assert forall|i: int| 0 <= i && i + t.len() <= h.len() implies #[trigger] h.subrange(
        i,
        i + t.len(),
    ) != t by {
        if i == 0 {
            assert(h.subrange(i, i + t.len())[0] == c);
        } else {
            assert(h.subrange(i, i + t.len()) =~= s.subrange(i - 1, i - 1 + t.len()));
        }
    }
}

/// Appending `suf` to a text without `t` cannot make `t` appear, where no
/// end of `t` fits the start of `suf`: each place in `suf` that holds the
/// last character of `t` follows one that does not hold the one before.
proof fn lemma_absent_before_suffix(t: Seq<char>, s: Seq<char>, suf: Seq<char>)
    requires
        t.len() >= 2,
        !occurs_in(t, s),
        forall|q: int|
            0 <= q < suf.len() && #[trigger] suf[q] == t[t.len() - 1] ==> q >= 1 && suf[q - 1]
                != t[t.len() - 2],
    ensures
        !occurs_in(t, s + suf),
{
    let h = s + suf;
    let n = t.len();
    assert forall|i: int| 0 <= i && i + n <= h.len() implies #[trigger] h.subrange(i, i + n) != t by {
        if i + n <= s.len() {
            assert(h.subrange(i, i + n) =~= s.subrange(i, i + n));
        } else {
            let q = i + n - 1 - s.len();
            if h.subrange(i, i + n) == t {
                assert(h[i + n - 1] == t[n - 1]);
                assert(h[i + n - 1] == suf[q]);
                assert(h[i + n - 2] == t[n - 2]);
                assert(h[i + n - 2] == suf[q - 1]);
            }
        }
    }
}

/// Key stability: where the text that a specifier resolves to carries no
/// version and no module tag, neither does the recorded dependency key,
/// whatever the import URL carries.
pub proof fn lemma_key_has_no_decoration(c: ResolverConfig, resolved: Seq<char>, t: Seq<char>)
    requires
        is_decoration(t),
        !occurs_in(t, resolved),
        c.resolution_spec(resolved) is Ok,
    ensures
        !occurs_in(t, c.resolution_spec(resolved)->Ok_0.specifier),
{
    reveal_strlit("?v=");
    reveal_strlit("&v=");
    reveal_strlit("?module");
    reveal_strlit("&module");
    reveal_strlit("dev");
    reveal_strlit("?");
    reveal_strlit("&");
    reveal_strlit(".");
    reveal_strlit("file://");
    let key0 = ResolverConfig::key_spec(resolved);
    if "file://"@.is_prefix_of(resolved) {
        lemma_absent_in_tail(t, resolved, 7);
        lemma_absent_after_char(t, '.', resolved.subrange(7, resolved.len() as int));
        assert("."@ =~= seq!['.']);
    }
    assert(!occurs_in(t, key0));
    if c.wants_dev_spec(key0) {
        let suf = if key0.contains('?') {
            "&"@ + "dev"@
        } else {
            "?"@ + "dev"@
        };
        assert(add_query(key0, "dev"@) =~= key0 + suf);
        assert(suf.len() == 4 && suf[1] == 'd' && suf[2] == 'e' && suf[3] == 'v');
        assert(suf[0] == '?' || suf[0] == '&');
        lemma_absent_before_suffix(t, key0, suf);
    }
}

} // verus!
