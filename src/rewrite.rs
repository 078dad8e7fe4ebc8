//! What the rewrite pass does, stated over the module tree: the sites that
//! name a module, in the order the pass visits them; the relation between
//! a tree and its rewritten form; the descriptors recorded; and the laws
//! that follow.
use crate::ast::{Decl, Expr, FnDecl, ModuleItem, Pat, PatProp, Prop, Str, VarDecl, VarDeclarator};
use crate::resolver::{DepView, Resolution, ResolveError, ResolverConfig, Span};
use vstd::prelude::*;

verus! {

/// A place in the module that names a module: the literal's text and span,
/// and whether the reference is dynamic.
pub struct Site {
    pub value: Seq<char>,
    pub span: Span,
    pub dynamic: bool,
}

pub open spec fn str_site(s: Str, dynamic: bool) -> Site {
    Site { value: s.value@, span: s.span, dynamic }
}

/// The span given to literals that the pass writes.
pub open spec fn dummy_span() -> Span {
    Span { lo: 0, hi: 0, ctxt: 0 }
}

/// A callee that makes a call a dynamic import.
pub open spec fn is_import_callee(c: Expr) -> bool {
    match c {
        Expr::Import => true,
        Expr::Ident(n) => n@ == "import"@,
        _ => false,
    }
}

/// A callee that makes a `new` expression a worker construction.
pub open spec fn is_worker_callee(c: Expr) -> bool {
    match c {
        Expr::Ident(n) => n@ == "Worker"@,
        _ => false,
    }
}

/// The first argument, where it is a string literal.
pub open spec fn first_str(args: Seq<Expr>) -> Option<Str> {
    if args.len() > 0 {
        match args[0] {
            Expr::Str(s) => Some(s),
            _ => None,
        }
    } else {
        None
    }
}

/// The site of a call itself: its first argument, where the call is a
/// dynamic import of a string literal.
pub open spec fn call_site(callee: Expr, args: Seq<Expr>) -> Seq<Site> {
    if is_import_callee(callee) && first_str(args) is Some {
        seq![str_site(first_str(args)->0, true)]
    } else {
        Seq::empty()
    }
}

/// The site of a `new` expression itself: its first argument, where it
/// constructs a worker from a string literal.
pub open spec fn new_site(callee: Expr, args: Option<Vec<Expr>>) -> Seq<Site> {
    match args {
        Some(a) => if is_worker_callee(callee) && first_str(a@) is Some {
            seq![str_site(first_str(a@)->0, true)]
        } else {
            Seq::empty()
        },
        None => Seq::empty(),
    }
}

/// The sites of an expression, in the order the pass visits them: a node's
/// own site, then those of its children from left to right.
pub open spec fn sites_expr(e: Expr) -> Seq<Site>
    decreases e,
{
    match e {
        Expr::Object(props) => sites_props(props@),
        Expr::Call(callee, args) => call_site(*callee, args@) + sites_expr(*callee) + sites_exprs(
            args@,
        ),
        Expr::New(callee, args) => new_site(*callee, args) + sites_expr(*callee) + match args {
            Some(a) => sites_exprs(a@),
            None => Seq::empty(),
        },
        Expr::Other(es) => sites_exprs(es@),
        _ => Seq::empty(),
    }
}

pub open spec fn sites_exprs(s: Seq<Expr>) -> Seq<Site>
    decreases s,
{
    if s.len() == 0 {
        Seq::empty()
    } else {
        sites_exprs(s.subrange(0, s.len() - 1)) + sites_expr(s[s.len() - 1])
    }
}

pub open spec fn sites_opt_expr(e: Option<Expr>) -> Seq<Site>
    decreases e,
{
    match e {
        Some(x) => sites_expr(x),
        None => Seq::empty(),
    }
}

pub open spec fn sites_prop(p: Prop) -> Seq<Site>
    decreases p,
{
    match p {
        Prop::Shorthand(_) => Seq::empty(),
        Prop::KeyValue(k, v) => sites_expr(k) + sites_expr(v),
        Prop::Method(k, es) => sites_expr(k) + sites_exprs(es@),
        Prop::Getter(k, es) => sites_expr(k) + sites_exprs(es@),
        Prop::Setter(k, es) => sites_expr(k) + sites_exprs(es@),
        Prop::Spread(e) => sites_expr(e),
        Prop::Other(es) => sites_exprs(es@),
    }
}

pub open spec fn sites_props(s: Seq<Prop>) -> Seq<Site>
    decreases s,
{
    if s.len() == 0 {
        Seq::empty()
    } else {
        sites_props(s.subrange(0, s.len() - 1)) + sites_prop(s[s.len() - 1])
    }
}

pub open spec fn sites_pat(p: Pat) -> Seq<Site>
    decreases p,
{
    match p {
        Pat::Array(ps) => sites_pats(ps@),
        Pat::Object(pps) => sites_pat_props(pps@),
        Pat::Rest(q) => sites_pat(*q),
        Pat::Assign(q, e) => sites_pat(*q) + sites_expr(*e),
        _ => Seq::empty(),
    }
}

pub open spec fn sites_pats(s: Seq<Pat>) -> Seq<Site>
    decreases s,
{
    if s.len() == 0 {
        Seq::empty()
    } else {
        sites_pats(s.subrange(0, s.len() - 1)) + sites_pat(s[s.len() - 1])
    }
}

pub open spec fn sites_pat_prop(p: PatProp) -> Seq<Site>
    decreases p,
{
    match p {
        PatProp::KeyValue(k, q) => sites_expr(k) + sites_pat(q),
        PatProp::Assign(_, d) => sites_opt_expr(d),
        PatProp::Rest(q) => sites_pat(q),
    }
}

pub open spec fn sites_pat_props(s: Seq<PatProp>) -> Seq<Site>
    decreases s,
{
    if s.len() == 0 {
        Seq::empty()
    } else {
        sites_pat_props(s.subrange(0, s.len() - 1)) + sites_pat_prop(s[s.len() - 1])
    }
}

/// The sites of the arguments of a `new` expression.
pub open spec fn sites_opt_args(args: Option<Vec<Expr>>) -> Seq<Site> {
    match args {
        Some(a) => sites_exprs(a@),
        None => Seq::empty(),
    }
}

/// The import URL that a configuration gives a site.
pub open spec fn url_of(cfg: ResolverConfig, s: Site) -> Seq<char> {
    cfg.resolve_spec(s.value)->Ok_0.import_url
}

/// `b` is a copy of `a`.
pub open spec fn same_str(a: Str, b: Str) -> bool {
    a.value@ == b.value@ && a.span == b.span
}

/// `b` is a literal that the pass wrote, holding `value`.
pub open spec fn fresh_str(b: Str, value: Seq<char>) -> bool {
    b.value@ == value && b.span == dummy_span()
}

/// `b` is `a` rewritten: the first argument replaced by the import URL of
/// `site` where there is one, every other argument rewritten.
pub open spec fn rw_args(cfg: ResolverConfig, site: Seq<Site>, a: Seq<Expr>, b: Seq<Expr>) -> bool
    decreases a, 1int,
{
    if site.len() == 1 {
        &&& a.len() > 0
        &&& a.len() == b.len()
        &&& b[0] is Str
        &&& fresh_str(b[0]->Str_0, url_of(cfg, site[0]))
        &&& rw_exprs(cfg, a.subrange(1, a.len() as int), b.subrange(1, b.len() as int))
    } else {
        rw_exprs(cfg, a, b)
    }
}

/// `b` is what the pass makes of the expression `a` under `cfg`: every
/// site's literal replaced by its import URL, everything else kept.
pub open spec fn rw_expr(cfg: ResolverConfig, a: Expr, b: Expr) -> bool
    decreases a, 0int,
{
    match a {
        Expr::Str(sa) => b is Str && same_str(sa, b->Str_0),
        Expr::Bool(v) => b == Expr::Bool(v),
        Expr::Ident(n) => b is Ident && b->Ident_0@ == n@,
        Expr::Import => b is Import,
        Expr::Object(props) => b is Object && rw_props(cfg, props@, b->Object_0@),
        Expr::Call(callee, args) => {
            &&& b is Call
            &&& rw_expr(cfg, *callee, *b->Call_0)
            &&& rw_args(cfg, call_site(*callee, args@), args@, b->Call_1@)
        },
        Expr::New(callee, args) => {
            &&& b is New
            &&& rw_expr(cfg, *callee, *b->New_0)
            &&& match args {
                Some(x) => b->New_1 is Some && rw_args(
                    cfg,
                    new_site(*callee, args),
                    x@,
                    b->New_1->0@,
                ),
                None => b->New_1 is None,
            }
        },
        Expr::Other(es) => b is Other && rw_exprs(cfg, es@, b->Other_0@),
    }
}

pub open spec fn rw_exprs(cfg: ResolverConfig, a: Seq<Expr>, b: Seq<Expr>) -> bool
    decreases a, 0int,
{
    &&& a.len() == b.len()
    &&& a.len() > 0 ==> {
        &&& rw_exprs(cfg, a.subrange(0, a.len() - 1), b.subrange(0, b.len() - 1))
        &&& rw_expr(cfg, a[a.len() - 1], b[b.len() - 1])
    }
}

pub open spec fn rw_opt_expr(cfg: ResolverConfig, a: Option<Expr>, b: Option<Expr>) -> bool
    decreases a, 0int,
{
    match a {
        Some(x) => b is Some && rw_expr(cfg, x, b->0),
        None => b is None,
    }
}

pub open spec fn rw_prop(cfg: ResolverConfig, a: Prop, b: Prop) -> bool
    decreases a, 0int,
{
    match a {
        Prop::Shorthand(n) => b is Shorthand && b->Shorthand_0@ == n@,
        Prop::KeyValue(k, v) => b is KeyValue && rw_expr(cfg, k, b->KeyValue_0) && rw_expr(
            cfg,
            v,
            b->KeyValue_1,
        ),
        Prop::Method(k, es) => b is Method && rw_expr(cfg, k, b->Method_0) && rw_exprs(
            cfg,
            es@,
            b->Method_1@,
        ),
        Prop::Getter(k, es) => b is Getter && rw_expr(cfg, k, b->Getter_0) && rw_exprs(
            cfg,
            es@,
            b->Getter_1@,
        ),
        Prop::Setter(k, es) => b is Setter && rw_expr(cfg, k, b->Setter_0) && rw_exprs(
            cfg,
            es@,
            b->Setter_1@,
        ),
        Prop::Spread(e) => b is Spread && rw_expr(cfg, e, b->Spread_0),
        Prop::Other(es) => b is Other && rw_exprs(cfg, es@, b->Other_0@),
    }
}

pub open spec fn rw_props(cfg: ResolverConfig, a: Seq<Prop>, b: Seq<Prop>) -> bool
    decreases a, 0int,
{
    &&& a.len() == b.len()
    &&& a.len() > 0 ==> {
        &&& rw_props(cfg, a.subrange(0, a.len() - 1), b.subrange(0, b.len() - 1))
        &&& rw_prop(cfg, a[a.len() - 1], b[b.len() - 1])
    }
}

pub open spec fn rw_pat(cfg: ResolverConfig, a: Pat, b: Pat) -> bool
    decreases a, 0int,
{
    match a {
        Pat::Ident(n) => b is Ident && b->Ident_0@ == n@,
        Pat::Array(ps) => b is Array && rw_pats(cfg, ps@, b->Array_0@),
        Pat::Hole => b is Hole,
        Pat::Object(pps) => b is Object && rw_pat_props(cfg, pps@, b->Object_0@),
        Pat::Rest(q) => b is Rest && rw_pat(cfg, *q, *b->Rest_0),
        Pat::Assign(q, e) => b is Assign && rw_pat(cfg, *q, *b->Assign_0) && rw_expr(
            cfg,
            *e,
            *b->Assign_1,
        ),
    }
}

pub open spec fn rw_pats(cfg: ResolverConfig, a: Seq<Pat>, b: Seq<Pat>) -> bool
    decreases a, 0int,
{
    &&& a.len() == b.len()
    &&& a.len() > 0 ==> {
        &&& rw_pats(cfg, a.subrange(0, a.len() - 1), b.subrange(0, b.len() - 1))
        &&& rw_pat(cfg, a[a.len() - 1], b[b.len() - 1])
    }
}

pub open spec fn rw_pat_prop(cfg: ResolverConfig, a: PatProp, b: PatProp) -> bool
    decreases a, 0int,
{
    match a {
        PatProp::KeyValue(k, q) => b is KeyValue && rw_expr(cfg, k, b->KeyValue_0) && rw_pat(
            cfg,
            q,
            b->KeyValue_1,
        ),
        PatProp::Assign(n, d) => b is Assign && b->Assign_0@ == n@ && rw_opt_expr(
            cfg,
            d,
            b->Assign_1,
        ),
        PatProp::Rest(q) => b is Rest && rw_pat(cfg, q, b->Rest_0),
    }
}

pub open spec fn rw_pat_props(cfg: ResolverConfig, a: Seq<PatProp>, b: Seq<PatProp>) -> bool
    decreases a, 0int,
{
    &&& a.len() == b.len()
    &&& a.len() > 0 ==> {
        &&& rw_pat_props(cfg, a.subrange(0, a.len() - 1), b.subrange(0, b.len() - 1))
        &&& rw_pat_prop(cfg, a[a.len() - 1], b[b.len() - 1])
    }
}

/// The names of exports that hold server-only code: the data loader, the
/// mutation handler and the HTTP method handlers.
pub open spec fn is_reserved_export(name: Seq<char>) -> bool {
    ||| name == "data"@
    ||| name == "mutation"@
    ||| name == "GET"@
    ||| name == "POST"@
    ||| name == "PUT"@
    ||| name == "PATCH"@
    ||| name == "DELETE"@
}

/// The reserved names whose object literals keep their keys when stripped.
pub open spec fn keeps_keys(name: Seq<char>) -> bool {
    name == "data"@ || name == "mutation"@
}

/// A declarator that stripping replaces: a reserved name with a value.
pub open spec fn is_strip_target(d: VarDeclarator) -> bool {
    d.name is Ident && d.init is Some && is_reserved_export(d.name->Ident_0@)
}

/// `b` is the property `a` of a stripped object literal: a boolean literal
/// value stays; every other value, shorthand, method, getter or setter
/// becomes `true` under its key; a spread, which has no key, is rewritten
/// as usual.
pub open spec fn stripped_prop(cfg: ResolverConfig, a: Prop, b: Prop) -> bool {
    match a {
        Prop::Shorthand(n) => {
            &&& b is KeyValue
            &&& b->KeyValue_0 is Ident
            &&& b->KeyValue_0->Ident_0@ == n@
            &&& b->KeyValue_1 == Expr::Bool(true)
        },
        Prop::KeyValue(k, v) => {
            &&& b is KeyValue
            &&& rw_expr(cfg, k, b->KeyValue_0)
            &&& b->KeyValue_1 == if v is Bool {
                v
            } else {
                Expr::Bool(true)
            }
        },
        Prop::Method(k, _) | Prop::Getter(k, _) | Prop::Setter(k, _) => {
            &&& b is KeyValue
            &&& rw_expr(cfg, k, b->KeyValue_0)
            &&& b->KeyValue_1 == Expr::Bool(true)
        },
        _ => rw_prop(cfg, a, b),
    }
}

pub open spec fn sites_stripped_prop(a: Prop) -> Seq<Site> {
    match a {
        Prop::Shorthand(_) => Seq::empty(),
        Prop::KeyValue(k, _) => sites_expr(k),
        Prop::Method(k, _) | Prop::Getter(k, _) | Prop::Setter(k, _) => sites_expr(k),
        _ => sites_prop(a),
    }
}

pub open spec fn sites_stripped_props(s: Seq<Prop>) -> Seq<Site>
    decreases s.len(),
{
    if s.len() == 0 {
        Seq::empty()
    } else {
        sites_stripped_props(s.subrange(0, s.len() - 1)) + sites_stripped_prop(s[s.len() - 1])
    }
}

/// Stripping keeps the keys of the value `init` of `name`.
pub open spec fn keeps_object(name: Seq<char>, init: Option<Expr>) -> bool {
    keeps_keys(name) && init is Some && init->0 is Object
}

/// `b` is the value that stripping gives the declarator `name = a`.
pub open spec fn stripped_init(cfg: ResolverConfig, name: Seq<char>, a: Option<Expr>, b: Option<Expr>) -> bool {
    if keeps_object(name, a) {
        let pa = a->0->Object_0@;
        &&& b is Some
        &&& b->0 is Object
        &&& b->0->Object_0@.len() == pa.len()
        &&& forall|k: int| 0 <= k < pa.len() ==> stripped_prop(cfg, pa[k], #[trigger] b->0->Object_0@[k])
    } else {
        b == Some(Expr::Bool(true))
    }
}

pub open spec fn sites_stripped_init(name: Seq<char>, a: Option<Expr>) -> Seq<Site> {
    if keeps_object(name, a) {
        sites_stripped_props(a->0->Object_0@)
    } else {
        Seq::empty()
    }
}

/// `b` is the declarator at `k` of `decls` after the pass.
pub open spec fn rw_declarator_at(
    cfg: ResolverConfig,
    strip: bool,
    decls: Seq<VarDeclarator>,
    k: int,
    b: VarDeclarator,
) -> bool {
    let a = decls[k];
    &&& rw_pat(cfg, a.name, b.name)
    &&& if strip && is_strip_target(decls[k]) {
        stripped_init(cfg, a.name->Ident_0@, a.init, b.init)
    } else {
        rw_opt_expr(cfg, a.init, b.init)
    }
}

pub open spec fn sites_declarator_at(strip: bool, decls: Seq<VarDeclarator>, k: int) -> Seq<Site> {
    let a = decls[k];
    if strip && is_strip_target(decls[k]) {
        sites_pat(a.name) + sites_stripped_init(a.name->Ident_0@, a.init)
    } else {
        sites_pat(a.name) + sites_opt_expr(a.init)
    }
}

/// The sites of the first `n` declarators.
pub open spec fn sites_declarators(strip: bool, decls: Seq<VarDeclarator>, n: int) -> Seq<Site>
    decreases n,
{
    if n <= 0 {
        Seq::empty()
    } else {
        sites_declarators(strip, decls, n - 1) + sites_declarator_at(strip, decls, n - 1)
    }
}

pub open spec fn rw_var(cfg: ResolverConfig, strip: bool, a: VarDecl, b: VarDecl) -> bool {
    &&& b.kind == a.kind
    &&& b.declare == a.declare
    &&& b.decls@.len() == a.decls@.len()
    &&& forall|k: int|
        0 <= k < a.decls@.len() ==> rw_declarator_at(cfg, strip, a.decls@, k, #[trigger] b.decls@[k])
}

/// `b` is the function `a` with its parameters and body taken away.
pub open spec fn stripped_fn(a: FnDecl, b: FnDecl) -> bool {
    &&& b.ident@ == a.ident@
    &&& b.declare == a.declare
    &&& b.params@.len() == 0
    &&& b.body is Some
    &&& b.body->0@.len() == 0
    &&& !b.is_async
    &&& !b.is_generator
}

pub open spec fn rw_fn(cfg: ResolverConfig, a: FnDecl, b: FnDecl) -> bool {
    &&& b.ident@ == a.ident@
    &&& b.declare == a.declare
    &&& b.is_async == a.is_async
    &&& b.is_generator == a.is_generator
    &&& rw_pats(cfg, a.params@, b.params@)
    &&& match a.body {
        Some(x) => b.body is Some && rw_exprs(cfg, x@, b.body->0@),
        None => b.body is None,
    }
}

pub open spec fn sites_body(body: Option<Vec<Expr>>) -> Seq<Site> {
    match body {
        Some(x) => sites_exprs(x@),
        None => Seq::empty(),
    }
}

pub open spec fn sites_fn(a: FnDecl) -> Seq<Site> {
    sites_pats(a.params@) + sites_body(a.body)
}

pub open spec fn rw_decl(cfg: ResolverConfig, strip: bool, a: Decl, b: Decl) -> bool {
    match a {
        Decl::Var(v) => b is Var && rw_var(cfg, strip, v, b->Var_0),
        Decl::Fn(f) => b is Fn && if strip && is_reserved_export(f.ident@) {
            stripped_fn(f, b->Fn_0)
        } else {
            rw_fn(cfg, f, b->Fn_0)
        },
        Decl::Class(c) => b is Class && b->Class_0.ident@ == c.ident@ && rw_exprs(
            cfg,
            c.body@,
            b->Class_0.body@,
        ),
    }
}

pub open spec fn sites_decl(strip: bool, a: Decl) -> Seq<Site> {
    match a {
        Decl::Var(v) => sites_declarators(strip, v.decls@, v.decls@.len() as int),
        Decl::Fn(f) => if strip && is_reserved_export(f.ident@) {
            Seq::empty()
        } else {
            sites_fn(f)
        },
        Decl::Class(c) => sites_exprs(c.body@),
    }
}

/// The sites of a module item; `strip` says whether server-only exports
/// are stripped.
pub open spec fn sites_item(strip: bool, a: ModuleItem) -> Seq<Site> {
    match a {
        ModuleItem::Import(d) => if d.type_only {
            Seq::empty()
        } else {
            seq![str_site(d.src, false)]
        },
        ModuleItem::ExportNamed(n) => match n.src {
            Some(src) => if n.type_only {
                Seq::empty()
            } else {
                seq![str_site(src, false)]
            },
            None => Seq::empty(),
        },
        ModuleItem::ExportAll(x) => seq![str_site(x.src, false)],
        ModuleItem::ExportDecl(d) => sites_decl(strip, d),
        ModuleItem::ExportDefaultDecl(d) => sites_decl(false, d),
        ModuleItem::ExportDefaultExpr(e) => sites_expr(e),
        ModuleItem::Stmt(e) => sites_expr(e),
    }
}

pub open spec fn sites_items(strip: bool, s: Seq<ModuleItem>) -> Seq<Site>
    decreases s.len(),
{
    if s.len() == 0 {
        Seq::empty()
    } else {
        sites_items(strip, s.subrange(0, s.len() - 1)) + sites_item(strip, s[s.len() - 1])
    }
}

/// `b` is what the pass makes of the module item `a`.
pub open spec fn rw_item(cfg: ResolverConfig, strip: bool, a: ModuleItem, b: ModuleItem) -> bool {
    match a {
        ModuleItem::Import(d) => {
            &&& b is Import
            &&& b->Import_0.specifiers == d.specifiers
            &&& b->Import_0.type_only == d.type_only
            &&& if d.type_only {
                same_str(d.src, b->Import_0.src)
            } else {
                fresh_str(b->Import_0.src, url_of(cfg, str_site(d.src, false)))
            }
        },
        ModuleItem::ExportNamed(n) => {
            &&& b is ExportNamed
            &&& b->ExportNamed_0.specifiers == n.specifiers
            &&& b->ExportNamed_0.type_only == n.type_only
            &&& match n.src {
                Some(src) => b->ExportNamed_0.src is Some && if n.type_only {
                    same_str(src, b->ExportNamed_0.src->0)
                } else {
                    fresh_str(b->ExportNamed_0.src->0, url_of(cfg, str_site(src, false)))
                },
                None => b->ExportNamed_0.src is None,
            }
        },
        ModuleItem::ExportAll(x) => {
            &&& b is ExportAll
            &&& b->ExportAll_0.type_only == x.type_only
            &&& fresh_str(b->ExportAll_0.src, url_of(cfg, str_site(x.src, false)))
        },
        ModuleItem::ExportDecl(d) => b is ExportDecl && rw_decl(cfg, strip, d, b->ExportDecl_0),
        ModuleItem::ExportDefaultDecl(d) => b is ExportDefaultDecl && rw_decl(
            cfg,
            false,
            d,
            b->ExportDefaultDecl_0,
        ),
        ModuleItem::ExportDefaultExpr(e) => b is ExportDefaultExpr && rw_expr(
            cfg,
            e,
            b->ExportDefaultExpr_0,
        ),
        ModuleItem::Stmt(e) => b is Stmt && rw_expr(cfg, e, b->Stmt_0),
    }
}

/// `b` is what the pass makes of the items `a`.
pub open spec fn rw_items(cfg: ResolverConfig, strip: bool, a: Seq<ModuleItem>, b: Seq<ModuleItem>) -> bool {
    &&& b.len() == a.len()
    &&& forall|k: int| 0 <= k < a.len() ==> rw_item(cfg, strip, a[k], #[trigger] b[k])
}

/// Where a recorded dependency keeps the literal's span.
pub open spec fn mark(span: Span, ok: bool) -> Option<Span> {
    if ok {
        Some(span)
    } else {
        None
    }
}

/// The descriptor that the pass records for a site.
pub open spec fn site_dep(cfg: ResolverConfig, marked: bool, s: Site) -> DepView {
    DepView {
        specifier: cfg.resolve_spec(s.value)->Ok_0.specifier,
        import_url: url_of(cfg, s),
        loc: mark(s.span, marked),
        dynamic: s.dynamic,
    }
}

/// The descriptors that the pass records for `sites`, in order.
pub open spec fn site_deps(cfg: ResolverConfig, marked: bool, sites: Seq<Site>) -> Seq<DepView> {
    sites.map_values(|s: Site| site_dep(cfg, marked, s))
}

/// Every site resolves.
pub open spec fn all_resolve(cfg: ResolverConfig, sites: Seq<Site>) -> bool {
    forall|i: int| #![trigger sites[i]] 0 <= i < sites.len() ==> cfg.resolve_spec(sites[i].value) is Ok
}

/// The first site, in order, that does not resolve fails with `e`.
pub open spec fn first_fails_with(cfg: ResolverConfig, sites: Seq<Site>, e: ResolveError) -> bool {
    exists|i: int|
        #![trigger sites[i]]
        0 <= i < sites.len() && all_resolve(cfg, sites.subrange(0, i)) && cfg.resolve_spec(
            sites[i].value,
        ) == Err::<Resolution, ResolveError>(e)
}

pub open spec fn err_of<T>(r: Result<T, ResolveError>) -> Option<ResolveError> {
    match r {
        Ok(_) => None,
        Err(e) => Some(e),
    }
}

pub proof fn lemma_sites_exprs_split(s: Seq<Expr>, k: int)
    requires
        0 <= k <= s.len(),
    ensures
        sites_exprs(s) == sites_exprs(s.subrange(0, k)) + sites_exprs(s.subrange(k, s.len() as int)),
    decreases s.len(),
{
    if k == s.len() {
        assert(s.subrange(0, k) =~= s);
        assert(sites_exprs(s.subrange(k, s.len() as int)) =~= Seq::empty());
        assert(sites_exprs(s) + Seq::empty() =~= sites_exprs(s));
    } else {
        let init = s.subrange(0, s.len() - 1);
        lemma_sites_exprs_split(init, k);
        assert(init.subrange(0, k) =~= s.subrange(0, k));
        let tail = s.subrange(k, s.len() as int);
        assert(tail.subrange(0, tail.len() - 1) =~= init.subrange(k, init.len() as int));
        assert(tail[tail.len() - 1] == s[s.len() - 1]);
        assert(sites_exprs(s.subrange(0, k)) + sites_exprs(init.subrange(k, init.len() as int))
            + sites_expr(s[s.len() - 1]) =~= sites_exprs(s.subrange(0, k)) + (sites_exprs(
            init.subrange(k, init.len() as int),
        ) + sites_expr(s[s.len() - 1])));
    }
}

pub proof fn lemma_sites_stripped_props_split(s: Seq<Prop>, k: int)
    requires
        0 <= k <= s.len(),
    ensures
        sites_stripped_props(s) == sites_stripped_props(s.subrange(0, k)) + sites_stripped_props(s.subrange(k, s.len() as int)),
    decreases s.len(),
{
    if k == s.len() {
        assert(s.subrange(0, k) =~= s);
        assert(sites_stripped_props(s.subrange(k, s.len() as int)) =~= Seq::empty());
        assert(sites_stripped_props(s) + Seq::empty() =~= sites_stripped_props(s));
    } else {
        let init = s.subrange(0, s.len() - 1);
        lemma_sites_stripped_props_split(init, k);
        assert(init.subrange(0, k) =~= s.subrange(0, k));
        let tail = s.subrange(k, s.len() as int);
        assert(tail.subrange(0, tail.len() - 1) =~= init.subrange(k, init.len() as int));
        assert(tail[tail.len() - 1] == s[s.len() - 1]);
        assert(sites_stripped_props(s.subrange(0, k)) + sites_stripped_props(init.subrange(k, init.len() as int))
            + sites_stripped_prop(s[s.len() - 1]) =~= sites_stripped_props(s.subrange(0, k)) + (sites_stripped_props(
            init.subrange(k, init.len() as int),
        ) + sites_stripped_prop(s[s.len() - 1])));
    }
}

pub proof fn lemma_sites_items_split(strip: bool, s: Seq<ModuleItem>, k: int)
    requires
        0 <= k <= s.len(),
    ensures
        sites_items(strip, s) == sites_items(strip, s.subrange(0, k)) + sites_items(strip, s.subrange(k, s.len() as int)),
    decreases s.len(),
{
    if k == s.len() {
        assert(s.subrange(0, k) =~= s);
        assert(sites_items(strip, s.subrange(k, s.len() as int)) =~= Seq::empty());
        assert(sites_items(strip, s) + Seq::empty() =~= sites_items(strip, s));
    } else {
        let init = s.subrange(0, s.len() - 1);
        lemma_sites_items_split(strip, init, k);
        assert(init.subrange(0, k) =~= s.subrange(0, k));
        let tail = s.subrange(k, s.len() as int);
        assert(tail.subrange(0, tail.len() - 1) =~= init.subrange(k, init.len() as int));
        assert(tail[tail.len() - 1] == s[s.len() - 1]);
        assert(sites_items(strip, s.subrange(0, k)) + sites_items(strip, init.subrange(k, init.len() as int))
            + sites_item(strip, s[s.len() - 1]) =~= sites_items(strip, s.subrange(0, k)) + (sites_items(strip, 
            init.subrange(k, init.len() as int),
        ) + sites_item(strip, s[s.len() - 1])));
    }
}

pub proof fn lemma_sites_declarators_split(strip: bool, decls: Seq<VarDeclarator>, m: int, n: int)
    requires
        0 <= m <= n,
    ensures
        sites_declarators(strip, decls, n) == sites_declarators(strip, decls, m) + sites_declarators(
            strip,
            decls,
            n,
        ).subrange(
            sites_declarators(strip, decls, m).len() as int,
            sites_declarators(strip, decls, n).len() as int,
        ),
    decreases n,
{
    let a = sites_declarators(strip, decls, m);
    let b = sites_declarators(strip, decls, n);
    if n == m {
        assert(b =~= a + b.subrange(a.len() as int, b.len() as int));
    } else {
        lemma_sites_declarators_split(strip, decls, m, n - 1);
        let c = sites_declarators(strip, decls, n - 1);
        assert(b == c + sites_declarator_at(strip, decls, n - 1));
        assert(b =~= a + b.subrange(a.len() as int, b.len() as int));
    }
}

pub proof fn lemma_sites_props_split(s: Seq<Prop>, k: int)
    requires
        0 <= k <= s.len(),
    ensures
        sites_props(s) == sites_props(s.subrange(0, k)) + sites_props(s.subrange(k, s.len() as int)),
    decreases s.len(),
{
    if k == s.len() {
        assert(s.subrange(0, k) =~= s);
        assert(sites_props(s.subrange(k, s.len() as int)) =~= Seq::empty());
        assert(sites_props(s) + Seq::empty() =~= sites_props(s));
    } else {
        let init = s.subrange(0, s.len() - 1);
        lemma_sites_props_split(init, k);
        assert(init.subrange(0, k) =~= s.subrange(0, k));
        let tail = s.subrange(k, s.len() as int);
        assert(tail.subrange(0, tail.len() - 1) =~= init.subrange(k, init.len() as int));
        assert(tail[tail.len() - 1] == s[s.len() - 1]);
        assert(sites_props(s.subrange(0, k)) + sites_props(init.subrange(k, init.len() as int))
            + sites_prop(s[s.len() - 1]) =~= sites_props(s.subrange(0, k)) + (sites_props(
            init.subrange(k, init.len() as int),
        ) + sites_prop(s[s.len() - 1])));
    }
}

pub proof fn lemma_sites_pats_split(s: Seq<Pat>, k: int)
    requires
        0 <= k <= s.len(),
    ensures
        sites_pats(s) == sites_pats(s.subrange(0, k)) + sites_pats(s.subrange(k, s.len() as int)),
    decreases s.len(),
{
    if k == s.len() {
        assert(s.subrange(0, k) =~= s);
        assert(sites_pats(s.subrange(k, s.len() as int)) =~= Seq::empty());
        assert(sites_pats(s) + Seq::empty() =~= sites_pats(s));
    } else {
        let init = s.subrange(0, s.len() - 1);
        lemma_sites_pats_split(init, k);
        assert(init.subrange(0, k) =~= s.subrange(0, k));
        let tail = s.subrange(k, s.len() as int);
        assert(tail.subrange(0, tail.len() - 1) =~= init.subrange(k, init.len() as int));
        assert(tail[tail.len() - 1] == s[s.len() - 1]);
        assert(sites_pats(s.subrange(0, k)) + sites_pats(init.subrange(k, init.len() as int))
            + sites_pat(s[s.len() - 1]) =~= sites_pats(s.subrange(0, k)) + (sites_pats(
            init.subrange(k, init.len() as int),
        ) + sites_pat(s[s.len() - 1])));
    }
}

pub proof fn lemma_sites_pat_props_split(s: Seq<PatProp>, k: int)
    requires
        0 <= k <= s.len(),
    ensures
        sites_pat_props(s) == sites_pat_props(s.subrange(0, k)) + sites_pat_props(s.subrange(k, s.len() as int)),
    decreases s.len(),
{
    if k == s.len() {
        assert(s.subrange(0, k) =~= s);
        assert(sites_pat_props(s.subrange(k, s.len() as int)) =~= Seq::empty());
        assert(sites_pat_props(s) + Seq::empty() =~= sites_pat_props(s));
    } else {
        let init = s.subrange(0, s.len() - 1);
        lemma_sites_pat_props_split(init, k);
        assert(init.subrange(0, k) =~= s.subrange(0, k));
        let tail = s.subrange(k, s.len() as int);
        assert(tail.subrange(0, tail.len() - 1) =~= init.subrange(k, init.len() as int));
        assert(tail[tail.len() - 1] == s[s.len() - 1]);
        assert(sites_pat_props(s.subrange(0, k)) + sites_pat_props(init.subrange(k, init.len() as int))
            + sites_pat_prop(s[s.len() - 1]) =~= sites_pat_props(s.subrange(0, k)) + (sites_pat_props(
            init.subrange(k, init.len() as int),
        ) + sites_pat_prop(s[s.len() - 1])));
    }
}

/// Every site within an expression is a dynamic import or a worker
/// construction, and is recorded as dynamic.
pub proof fn lemma_expr_sites_dynamic(e: Expr)
    ensures
        forall|i: int| 0 <= i < sites_expr(e).len() ==> (#[trigger] sites_expr(e)[i]).dynamic,
    decreases e, 1int,
{
    match e {
        Expr::Object(props) => {
            lemma_props_sites_dynamic(props@);
            assert(sites_expr(e) == sites_props(props@));
        },
        Expr::Call(callee, args) => {
            lemma_expr_sites_dynamic(*callee);
            lemma_exprs_sites_dynamic(args@);
            let s = call_site(*callee, args@) + sites_expr(*callee) + sites_exprs(args@);
            assert(s == sites_expr(e));
            assert forall|i: int| 0 <= i < s.len() implies (#[trigger] s[i]).dynamic by {
                let k = call_site(*callee, args@).len();
                let m = sites_expr(*callee).len();
                if i >= k + m {
                    assert(s[i] == sites_exprs(args@)[i - k - m]);
                } else if i >= k {
                    assert(s[i] == sites_expr(*callee)[i - k]);
                }
            }
        },
        Expr::New(callee, args) => {
            lemma_expr_sites_dynamic(*callee);
            let rest = sites_opt_args(args);
            match args {
                Some(a) => lemma_exprs_sites_dynamic(a@),
                None => {},
            }
            let s = new_site(*callee, args) + sites_expr(*callee) + rest;
            assert(s == sites_expr(e));
            assert forall|i: int| 0 <= i < s.len() implies (#[trigger] s[i]).dynamic by {
                let k = new_site(*callee, args).len();
                let m = sites_expr(*callee).len();
                if i >= k + m {
                    assert(s[i] == rest[i - k - m]);
                } else if i >= k {
                    assert(s[i] == sites_expr(*callee)[i - k]);
                }
            }
        },
        Expr::Other(es) => {
            lemma_exprs_sites_dynamic(es@);
            assert(sites_expr(e) == sites_exprs(es@));
        },
        _ => {},
    }
}

proof fn lemma_exprs_sites_dynamic(s: Seq<Expr>)
    ensures
        forall|i: int| 0 <= i < sites_exprs(s).len() ==> (#[trigger] sites_exprs(s)[i]).dynamic,
    decreases s, 0int,
{
    if s.len() > 0 {
        let init = s.subrange(0, s.len() - 1);
        lemma_exprs_sites_dynamic(init);
        lemma_expr_sites_dynamic(s[s.len() - 1]);
        let x = sites_exprs(init);
        let y = sites_expr(s[s.len() - 1]);
        assert forall|i: int| 0 <= i < (x + y).len() implies (#[trigger] (x + y)[i]).dynamic by {
            if i >= x.len() {
                assert((x + y)[i] == y[i - x.len()]);
            }
        }
    }
}

proof fn lemma_prop_sites_dynamic(p: Prop)
    ensures
        forall|i: int| 0 <= i < sites_prop(p).len() ==> (#[trigger] sites_prop(p)[i]).dynamic,
    decreases p, 1int,
{
    match p {
        Prop::KeyValue(k, v) => {
            lemma_expr_sites_dynamic(k);
            lemma_expr_sites_dynamic(v);
            let x = sites_expr(k);
            let y = sites_expr(v);
            assert(sites_prop(p) == x + y);
            assert forall|i: int| 0 <= i < (x + y).len() implies (#[trigger] (x + y)[i]).dynamic by {
                if i >= x.len() {
                    assert((x + y)[i] == y[i - x.len()]);
                }
            }
        },
        Prop::Method(k, es) => {
            lemma_expr_sites_dynamic(k);
            lemma_exprs_sites_dynamic(es@);
            let x = sites_expr(k);
            let y = sites_exprs(es@);
            assert(sites_prop(p) == x + y);
            assert forall|i: int| 0 <= i < (x + y).len() implies (#[trigger] (x + y)[i]).dynamic by {
                if i >= x.len() {
                    assert((x + y)[i] == y[i - x.len()]);
                }
            }
        },
        Prop::Getter(k, es) => {
            lemma_expr_sites_dynamic(k);
            lemma_exprs_sites_dynamic(es@);
            let x = sites_expr(k);
            let y = sites_exprs(es@);
            assert(sites_prop(p) == x + y);
            assert forall|i: int| 0 <= i < (x + y).len() implies (#[trigger] (x + y)[i]).dynamic by {
                if i >= x.len() {
                    assert((x + y)[i] == y[i - x.len()]);
                }
            }
        },
        Prop::Setter(k, es) => {
            lemma_expr_sites_dynamic(k);
            lemma_exprs_sites_dynamic(es@);
            let x = sites_expr(k);
            let y = sites_exprs(es@);
            assert(sites_prop(p) == x + y);
            assert forall|i: int| 0 <= i < (x + y).len() implies (#[trigger] (x + y)[i]).dynamic by {
                if i >= x.len() {
                    assert((x + y)[i] == y[i - x.len()]);
                }
            }
        },
        Prop::Spread(e) => {
            lemma_expr_sites_dynamic(e);
            assert(sites_prop(p) == sites_expr(e));
        },
        Prop::Other(es) => {
            lemma_exprs_sites_dynamic(es@);
            assert(sites_prop(p) == sites_exprs(es@));
        },
        Prop::Shorthand(_) => {},
    }
}

proof fn lemma_props_sites_dynamic(s: Seq<Prop>)
    ensures
        forall|i: int| 0 <= i < sites_props(s).len() ==> (#[trigger] sites_props(s)[i]).dynamic,
    decreases s, 0int,
{
    if s.len() > 0 {
        let init = s.subrange(0, s.len() - 1);
        lemma_props_sites_dynamic(init);
        lemma_prop_sites_dynamic(s[s.len() - 1]);
        let x = sites_props(init);
        let y = sites_prop(s[s.len() - 1]);
        assert forall|i: int| 0 <= i < (x + y).len() implies (#[trigger] (x + y)[i]).dynamic by {
            if i >= x.len() {
                assert((x + y)[i] == y[i - x.len()]);
            }
        }
    }
}

/// The source of a static import, re-export or `export *` is one site,
/// recorded as not dynamic; a type-only one has none.
pub proof fn lemma_static_sites(strip: bool, item: ModuleItem)
    requires
        item is Import || item is ExportNamed || item is ExportAll,
    ensures
        sites_item(strip, item).len() <= 1,
        forall|i: int|
            0 <= i < sites_item(strip, item).len() ==> !(#[trigger] sites_item(strip, item)[i]).dynamic,
{
}

/// An exported declaration that binds no reserved name to a value: no
/// function with a reserved name, no declarator that binds one.
pub open spec fn is_plain_export(item: ModuleItem) -> bool {
    match item {
        ModuleItem::ExportDecl(Decl::Fn(f)) => !is_reserved_export(f.ident@),
        ModuleItem::ExportDecl(Decl::Var(v)) => forall|k: int|
            0 <= k < v.decls@.len() ==> !is_strip_target(#[trigger] v.decls@[k]),
        ModuleItem::ExportDecl(Decl::Class(_)) => true,
        _ => false,
    }
}

/// Stripping leaves every export outside the reserved names as it is: with
/// and without stripping the pass makes the same of it and visits the same
/// sites.
pub proof fn lemma_strip_keeps_plain_exports(cfg: ResolverConfig, a: ModuleItem, b: ModuleItem)
    requires
        is_plain_export(a),
    ensures
        rw_item(cfg, true, a, b) == rw_item(cfg, false, a, b),
        sites_item(true, a) == sites_item(false, a),
{
    match a {
        ModuleItem::ExportDecl(Decl::Var(v)) => {
            assert forall|k: int| 0 <= k < v.decls@.len() implies sites_declarator_at(true, v.decls@, k)
                == sites_declarator_at(false, v.decls@, k) by {}
            lemma_declarators_same_sites(v.decls@, v.decls@.len() as int);
            if b is ExportDecl && b->ExportDecl_0 is Var {
                let bv = b->ExportDecl_0->Var_0;
                assert forall|k: int| 0 <= k < v.decls@.len() implies rw_declarator_at(
                    cfg,
                    true,
                    v.decls@,
                    k,
                    #[trigger] bv.decls@[k],
                ) == rw_declarator_at(cfg, false, v.decls@, k, bv.decls@[k]) by {}
                assert(rw_var(cfg, true, v, bv) == rw_var(cfg, false, v, bv));
            }
        },
        _ => {},
    }
}

proof fn lemma_declarators_same_sites(decls: Seq<VarDeclarator>, n: int)
    requires
        n <= decls.len(),
        forall|k: int| 0 <= k < decls.len() ==> !is_strip_target(#[trigger] decls[k]),
    ensures
        sites_declarators(true, decls, n) == sites_declarators(false, decls, n),
    decreases n,
{
    if n > 0 {
        lemma_declarators_same_sites(decls, n - 1);
    }
}

/// In a stripped object literal, a property whose value is a boolean
/// literal keeps it, and every other value, shorthand, method, getter or
/// setter becomes `true`, under its own key.
pub proof fn lemma_stripped_booleans(cfg: ResolverConfig, a: Prop, b: Prop)
    requires
        stripped_prop(cfg, a, b),
        a is KeyValue || a is Shorthand || a is Method || a is Getter || a is Setter,
    ensures
        b is KeyValue,
        a is KeyValue && a->KeyValue_1 is Bool ==> b->KeyValue_1 == a->KeyValue_1,
        !(a is KeyValue && a->KeyValue_1 is Bool) ==> b->KeyValue_1 == Expr::Bool(true),
{
}

/// Stripping reaches every declarator of a statement that binds a reserved
/// name to a value: its value becomes `true`, except the object literal of
/// a data or mutation export, whose keys stay; other declarators are only
/// rewritten.
pub proof fn lemma_strip_every_target(cfg: ResolverConfig, a: VarDecl, b: VarDecl, k: int)
    requires
        rw_var(cfg, true, a, b),
        0 <= k < a.decls@.len(),
    ensures
        is_strip_target(a.decls@[k]) && !keeps_object(a.decls@[k].name->Ident_0@, a.decls@[k].init)
            ==> b.decls@[k].init == Some(Expr::Bool(true)),
        !is_strip_target(a.decls@[k]) ==> rw_opt_expr(cfg, a.decls@[k].init, b.decls@[k].init),
{
    assert(rw_declarator_at(cfg, true, a.decls@, k, b.decls@[k]));
}

} // verus!
