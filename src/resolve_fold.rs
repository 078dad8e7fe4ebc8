//! The rewrite pass: resolves every module specifier of a module tree and,
//! where asked, strips the bodies of server-only exports.
use crate::ast::{
    ClassDecl, Decl, ExportAll, Expr, FnDecl, ImportDecl, ModuleItem, NamedExport, Pat, PatProp,
    Prop, Str, VarDecl, VarDeclarator,
};
use crate::resolver::{dep_views, Resolution, ResolveError, Resolver, ResolverConfig, Span};
use crate::rewrite::{Site, all_resolve, call_site, err_of, first_fails_with, fresh_str, is_import_callee, is_reserved_export, is_strip_target, is_worker_callee, keeps_keys, lemma_sites_declarators_split, lemma_sites_exprs_split, lemma_sites_items_split, lemma_sites_pat_props_split, lemma_sites_pats_split, lemma_sites_props_split, lemma_sites_stripped_props_split, mark, new_site, rw_args, rw_decl, rw_declarator_at, rw_expr, rw_exprs, rw_fn, rw_item, rw_items, rw_opt_expr, rw_pat, rw_pat_prop, rw_pat_props, rw_pats, rw_prop, rw_props, rw_var, same_str, site_dep, site_deps, sites_body, sites_decl, sites_declarator_at, sites_declarators, sites_expr, sites_exprs, sites_fn, sites_item, sites_items, sites_opt_args, sites_opt_expr, sites_pat, sites_pat_prop, sites_pat_props, sites_pats, sites_prop, sites_props, sites_stripped_init, sites_stripped_prop, sites_stripped_props, str_site, stripped_init, stripped_prop, url_of};
use crate::text::str_eq;
use vstd::prelude::*;

verus! {

/// The rewrite pass over one module: owns the module's resolver for the
/// length of the pass.
pub struct ResolveFold {
    pub resolver: Resolver,
    /// Whether server-only exports are stripped.
    pub strip_data_export: bool,
    /// Whether recorded dependencies keep the span of their literal.
    pub mark_import_src_location: bool,
}

/// A rewrite pass that resolves through `resolver`.
pub fn resolve_fold(resolver: Resolver, strip_data_export: bool, mark_import_src_location: bool) -> (r:
    ResolveFold)
    ensures
        r.resolver == resolver,
        r.strip_data_export == strip_data_export,
        r.mark_import_src_location == mark_import_src_location,
{
    ResolveFold { resolver, strip_data_export, mark_import_src_location }
}

/// The span to record for a literal at `span`.
pub fn mark_span(span: &Span, ok: bool) -> (r: Option<Span>)
    ensures
        r == mark(*span, ok),
{
    if ok {
        Some(*span)
    } else {
        None
    }
}

fn is_import_callee_exec(c: &Expr) -> (r: bool)
    ensures
        r == is_import_callee(*c),
{
    match c {
        Expr::Import => true,
        Expr::Ident(n) => str_eq(n.as_str(), "import"),
        _ => false,
    }
}

fn is_worker_callee_exec(c: &Expr) -> (r: bool)
    ensures
        r == is_worker_callee(*c),
{
    match c {
        Expr::Ident(n) => str_eq(n.as_str(), "Worker"),
        _ => false,
    }
}

fn is_reserved_export_name(name: &str) -> (r: bool)
    ensures
        r == is_reserved_export(name@),
{
    str_eq(name, "data") || str_eq(name, "mutation") || str_eq(name, "GET") || str_eq(name, "POST")
        || str_eq(name, "PUT") || str_eq(name, "PATCH") || str_eq(name, "DELETE")
}

fn keeps_keys_name(name: &str) -> (r: bool)
    ensures
        r == keeps_keys(name@),
{
    str_eq(name, "data") || str_eq(name, "mutation")
}

/// Whether stripping replaces the declarator `d`.
fn is_strip_target_exec(d: &VarDeclarator) -> (r: bool)
    ensures
        r == is_strip_target(*d),
{
    match &d.name {
        Pat::Ident(n) => d.init.is_some() && is_reserved_export_name(n.as_str()),
        _ => false,
    }
}

fn copy_str(s: &Str) -> (r: Str)
    ensures
        same_str(*s, r),
{
    Str { value: s.value.clone(), span: s.span }
}

impl ResolveFold {
    pub open spec fn cfg(&self) -> ResolverConfig {
        self.resolver.config()
    }

    /// A walk from `self` over `sites` ended in `after` with the error `err`:
    /// the settings are kept; without error every site resolved and its
    /// descriptor was appended, in order; with one, the first site that does
    /// not resolve fails with it.
    pub open spec fn walked(&self, after: ResolveFold, sites: Seq<Site>, err: Option<ResolveError>) -> bool {
        &&& after.resolver.same_config(&self.resolver)
        &&& after.strip_data_export == self.strip_data_export
        &&& after.mark_import_src_location == self.mark_import_src_location
        &&& match err {
            None => {
                &&& all_resolve(self.cfg(), sites)
                &&& dep_views(after.resolver.deps@) == dep_views(self.resolver.deps@) + site_deps(
                    self.cfg(),
                    self.mark_import_src_location,
                    sites,
                )
            },
            Some(e) => first_fails_with(self.cfg(), sites, e),
        }
    }
}

proof fn lemma_walk_empty(a: ResolveFold)
    ensures
        a.walked(a, Seq::empty(), None),
{
    assert(dep_views(a.resolver.deps@) + site_deps(a.cfg(), a.mark_import_src_location, Seq::empty())
        =~= dep_views(a.resolver.deps@));
}

proof fn lemma_walk_chain(
    a: ResolveFold,
    b: ResolveFold,
    c: ResolveFold,
    x: Seq<Site>,
    y: Seq<Site>,
    err: Option<ResolveError>,
)
    requires
        a.walked(b, x, None),
        b.walked(c, y, err),
    ensures
        a.walked(c, x + y, err),
{
    let cfg = a.cfg();
    let m = a.mark_import_src_location;
    match err {
        None => {
            assert(site_deps(cfg, m, x + y) =~= site_deps(cfg, m, x) + site_deps(cfg, m, y));
            assert(dep_views(a.resolver.deps@) + site_deps(cfg, m, x) + site_deps(cfg, m, y)
                =~= dep_views(a.resolver.deps@) + (site_deps(cfg, m, x) + site_deps(cfg, m, y)));
            assert forall|i: int| 0 <= i < (x + y).len() implies (#[trigger] (x + y)[i]).value == (x
                + y)[i].value && cfg.resolve_spec((x + y)[i].value) is Ok by {
                if i < x.len() {
                    assert(x[i] == (x + y)[i]);
                } else {
                    assert(y[i - x.len()] == (x + y)[i]);
                }
            }
        },
        Some(e) => {
            let i = choose|i: int|
                #![trigger y[i]]
                0 <= i < y.len() && all_resolve(cfg, y.subrange(0, i)) && cfg.resolve_spec(
                    y[i].value,
                ) == Err::<Resolution, ResolveError>(e);
            let j = x.len() + i;
            let pre = (x + y).subrange(0, j);
            assert((x + y)[j] == y[i]);
            assert(pre =~= x + y.subrange(0, i));
            assert forall|k: int| #![trigger pre[k]] 0 <= k < pre.len() implies cfg.resolve_spec(
                pre[k].value,
            ) is Ok by {
                if k < x.len() {
                    assert(pre[k] == x[k]);
                } else {
                    assert(pre[k] == y.subrange(0, i)[k - x.len()]);
                }
            }
        },
    }
}

proof fn lemma_walk_extend(a: ResolveFold, c: ResolveFold, x: Seq<Site>, y: Seq<Site>, e: ResolveError)
    requires
        a.walked(c, x, Some(e)),
    ensures
        a.walked(c, x + y, Some(e)),
{
    let cfg = a.cfg();
    let i = choose|i: int|
        #![trigger x[i]]
        0 <= i < x.len() && all_resolve(cfg, x.subrange(0, i)) && cfg.resolve_spec(x[i].value)
            == Err::<Resolution, ResolveError>(e);
    assert((x + y)[i] == x[i]);
    assert((x + y).subrange(0, i) =~= x.subrange(0, i));
}

impl ResolveFold {
    /// Resolves the literal `s` and returns the literal that replaces it.
    fn resolve_str(&mut self, s: &Str, dynamic: bool) -> (r: Result<Str, ResolveError>)
        ensures
            old(self).walked(*final(self), seq![str_site(*s, dynamic)], err_of(r)),
            r is Ok ==> fresh_str(r->Ok_0, url_of(old(self).cfg(), str_site(*s, dynamic))),
    {
        let ghost s0 = *self;
        let loc = mark_span(&s.span, self.mark_import_src_location);
        let r = self.resolver.resolve(s.value.as_str(), dynamic, loc);
        proof {
            let site = str_site(*s, dynamic);
            let sites = seq![site];
            assert(sites[0] == site);
            match r {
                Ok(_) => {
                    assert(site_deps(s0.cfg(), s0.mark_import_src_location, sites) =~= seq![
                        site_dep(s0.cfg(), s0.mark_import_src_location, site),
                    ]);
                    assert(dep_views(s0.resolver.deps@).push(
                        site_dep(s0.cfg(), s0.mark_import_src_location, site),
                    ) =~= dep_views(s0.resolver.deps@) + seq![
                        site_dep(s0.cfg(), s0.mark_import_src_location, site),
                    ]);
                },
                Err(_) => {},
            }
        }
        match r {
            Ok(u) => Ok(Str { value: u, span: Span { lo: 0, hi: 0, ctxt: 0 } }),
            Err(e) => Err(e),
        }
    }

    /// Rewrites the expressions `es[start..]`.
    fn fold_exprs_from(&mut self, es: &Vec<Expr>, start: usize) -> (r: Result<Vec<Expr>, ResolveError>)
        requires
            start <= es@.len(),
        ensures
            old(self).walked(
                *final(self),
                sites_exprs(es@.subrange(start as int, es@.len() as int)),
                err_of(r),
            ),
            r is Ok ==> rw_exprs(
                old(self).cfg(),
                es@.subrange(start as int, es@.len() as int),
                r->Ok_0@,
            ),
        decreases es, 0int,
    {
        let ghost s0 = *self;
        let mut out: Vec<Expr> = Vec::new();
        let mut i: usize = start;
        proof {
            lemma_walk_empty(s0);
            assert(es@.subrange(start as int, i as int) =~= Seq::<Expr>::empty());
        }
        while i < es.len()
            invariant
                s0 == *old(self),
                start <= i <= es@.len(),
                s0.walked(*self, sites_exprs(es@.subrange(start as int, i as int)), None),
                rw_exprs(s0.cfg(), es@.subrange(start as int, i as int), out@),
            decreases es@.len() - i,
        {
            let ghost s1 = *self;
            let ghost done = es@.subrange(start as int, i as int);
            let ghost next = es@.subrange(start as int, i + 1);
            assert(next.subrange(0, next.len() - 1) =~= done);
            assert(next[next.len() - 1] == es@[i as int]);
            assert(sites_exprs(next) == sites_exprs(done) + sites_expr(es@[i as int]));
            match self.fold_expr(&es[i]) {
                Ok(x) => {
                    proof {
                        lemma_walk_chain(s0, s1, *self, sites_exprs(done), sites_expr(es@[i as int]), None);
                    }
                    let ghost before = out@;
                    out.push(x);
                    assert(out@.subrange(0, out@.len() - 1) =~= before);
                },
                Err(e) => {
                    proof {
                        lemma_walk_chain(s0, s1, *self, sites_exprs(done), sites_expr(es@[i as int]), Some(e));
                        let all = es@.subrange(start as int, es@.len() as int);
                        lemma_sites_exprs_split(all, i + 1 - start);
                        assert(all.subrange(0, i + 1 - start) =~= next);
                        lemma_walk_extend(
                            s0,
                            *self,
                            sites_exprs(next),
                            sites_exprs(all.subrange(i + 1 - start, all.len() as int)),
                            e,
                        );
                    }
                    return Err(e);
                },
            }
            i = i + 1;
        }
        Ok(out)
    }

    /// Rewrites an expression: resolves the specifier of every dynamic import
    /// and worker construction in it.
    pub fn fold_expr(&mut self, e: &Expr) -> (r: Result<Expr, ResolveError>)
        ensures
            old(self).walked(*final(self), sites_expr(*e), err_of(r)),
            r is Ok ==> rw_expr(old(self).cfg(), *e, r->Ok_0),
        decreases e, 1int,
    {
        proof {
            lemma_walk_empty(*self);
        }
        match e {
            Expr::Str(s) => Ok(Expr::Str(copy_str(s))),
            Expr::Bool(v) => Ok(Expr::Bool(*v)),
            Expr::Ident(n) => Ok(Expr::Ident(n.clone())),
            Expr::Import => Ok(Expr::Import),
            Expr::Object(props) => match self.fold_props(props) {
                Ok(v) => Ok(Expr::Object(v)),
                Err(x) => Err(x),
            },
            Expr::Call(_, _) => self.fold_call_expr(e),
            Expr::New(_, _) => self.fold_new_expr(e),
            Expr::Other(es) => {
                let r = self.fold_exprs_from(es, 0);
                assert(es@.subrange(0, es@.len() as int) =~= es@);
                match r {
                    Ok(v) => Ok(Expr::Other(v)),
                    Err(x) => Err(x),
                }
            },
        }
    }

    /// Rewrites a call: a dynamic import of a string literal gets the import
    /// URL of its specifier; the callee and the arguments are rewritten.
    pub fn fold_call_expr(&mut self, e: &Expr) -> (r: Result<Expr, ResolveError>)
        requires
            e is Call,
        ensures
            old(self).walked(*final(self), sites_expr(*e), err_of(r)),
            r is Ok ==> rw_expr(old(self).cfg(), *e, r->Ok_0),
        decreases e, 0int,
    {
        let ghost s0 = *self;
        let (callee, args) = match e {
            Expr::Call(c, a) => (c, a),
            _ => unreached(),
        };
        let ghost site = call_site(**callee, args@);
        let mut out: Vec<Expr> = Vec::new();
        let mut start: usize = 0;
        let literal: Option<&Str> = if is_import_callee_exec(callee) && args.len() > 0 {
            match &args[0] {
                Expr::Str(s) => Some(s),
                _ => None,
            }
        } else {
            None
        };
        assert(literal is Some <==> site.len() == 1);
        assert(literal is Some ==> site[0] == str_site(*literal->0, true));
        if let Some(s) = literal {
            match self.resolve_str(s, true) {
                Ok(ns) => {
                    out.push(Expr::Str(ns));
                    start = 1;
                },
                Err(x) => {
                    proof {
                        lemma_walk_extend(s0, *self, site, sites_expr(**callee) + sites_exprs(args@), x);
                        assert(site + (sites_expr(**callee) + sites_exprs(args@)) =~= sites_expr(*e));
                    }
                    return Err(x);
                },
            }
        }
        let ghost s1 = *self;
        proof {
            if start == 0 {
                assert(site =~= Seq::<Site>::empty());
                lemma_walk_empty(s0);
            }
        }
        let nc = match self.fold_expr(callee) {
            Ok(c) => c,
            Err(x) => {
                proof {
                    lemma_walk_chain(s0, s1, *self, site, sites_expr(**callee), Some(x));
                    lemma_walk_extend(s0, *self, site + sites_expr(**callee), sites_exprs(args@), x);
                }
                return Err(x);
            },
        };
        let ghost s2 = *self;
        proof {
            lemma_walk_chain(s0, s1, s2, site, sites_expr(**callee), None);
            lemma_sites_exprs_split(args@, start as int);
            if start == 1 {
                assert(args@[0] is Str);
                let first = args@.subrange(0, 1);
                assert(first.subrange(0, 0) =~= Seq::<Expr>::empty());
                assert(sites_exprs(first.subrange(0, 0)) =~= Seq::<Site>::empty());
                assert(sites_expr(first[0]) =~= Seq::<Site>::empty());
                assert(first[0] == args@[0]);
                assert(sites_exprs(first) =~= Seq::<Site>::empty());
            } else {
                assert(args@.subrange(0, 0) =~= Seq::<Expr>::empty());
            }
            assert(sites_exprs(args@) =~= sites_exprs(args@.subrange(start as int, args@.len() as int)));
        }
        let mut rest = match self.fold_exprs_from(args, start) {
            Ok(v) => v,
            Err(x) => {
                proof {
                    lemma_walk_chain(s0, s2, *self, site + sites_expr(**callee), sites_exprs(args@), Some(x));
                }
                return Err(x);
            },
        };
        proof {
            lemma_walk_chain(s0, s2, *self, site + sites_expr(**callee), sites_exprs(args@), None);
        }
        let ghost rest_v = rest@;
        out.append(&mut rest);
        proof {
            let cfg = s0.cfg();
            assert(rw_expr(cfg, **callee, nc));
            if start == 1 {
                assert(out@.subrange(1, out@.len() as int) =~= rest_v);
                assert(out@[0] is Str);
                assert(fresh_str(out@[0]->Str_0, url_of(cfg, site[0])));
                assert(rw_args(cfg, site, args@, out@));
            } else {
                assert(out@ =~= rest_v);
                assert(args@.subrange(0, args@.len() as int) =~= args@);
                assert(rw_args(cfg, site, args@, out@));
            }
        }
        Ok(Expr::Call(Box::new(nc), out))
    }

    /// Rewrites a `new` expression: a worker constructed from a string
    /// literal gets the import URL of its specifier; the constructor and the
    /// arguments are rewritten.
    pub fn fold_new_expr(&mut self, e: &Expr) -> (r: Result<Expr, ResolveError>)
        requires
            e is New,
        ensures
            old(self).walked(*final(self), sites_expr(*e), err_of(r)),
            r is Ok ==> rw_expr(old(self).cfg(), *e, r->Ok_0),
        decreases e, 0int,
    {
        let ghost s0 = *self;
        let (callee, args) = match e {
            Expr::New(c, a) => (c, a),
            _ => unreached(),
        };
        let ghost site = new_site(**callee, *args);
        let ghost arg_sites = sites_opt_args(*args);
        let mut out: Vec<Expr> = Vec::new();
        let mut start: usize = 0;
        let literal: Option<&Str> = if is_worker_callee_exec(callee) {
            match args {
                Some(a) => if a.len() > 0 {
                    match &a[0] {
                        Expr::Str(s) => Some(s),
                        _ => None,
                    }
                } else {
                    None
                },
                None => None,
            }
        } else {
            None
        };
        assert(literal is Some <==> site.len() == 1);
        assert(literal is Some ==> site[0] == str_site(*literal->0, true));
        if let Some(s) = literal {
            match self.resolve_str(s, true) {
                Ok(ns) => {
                    out.push(Expr::Str(ns));
                    start = 1;
                },
                Err(x) => {
                    proof {
                        lemma_walk_extend(s0, *self, site, sites_expr(**callee) + arg_sites, x);
                        assert(site + (sites_expr(**callee) + arg_sites) =~= sites_expr(*e));
                    }
                    return Err(x);
                },
            }
        }
        let ghost s1 = *self;
        proof {
            if start == 0 {
                assert(site =~= Seq::<Site>::empty());
                lemma_walk_empty(s0);
            }
        }
        let nc = match self.fold_expr(callee) {
            Ok(c) => c,
            Err(x) => {
                proof {
                    lemma_walk_chain(s0, s1, *self, site, sites_expr(**callee), Some(x));
                    lemma_walk_extend(s0, *self, site + sites_expr(**callee), arg_sites, x);
                }
                return Err(x);
            },
        };
        let ghost s2 = *self;
        proof {
            lemma_walk_chain(s0, s1, s2, site, sites_expr(**callee), None);
        }
        match args {
            None => {
                proof {
                    lemma_walk_empty(s2);
                    lemma_walk_chain(s0, s2, s2, site + sites_expr(**callee), Seq::empty(), None);
                    assert(site + sites_expr(**callee) + Seq::<Site>::empty() =~= sites_expr(*e));
                    assert(rw_expr(s0.cfg(), **callee, nc));
                }
                Ok(Expr::New(Box::new(nc), None))
            },
            Some(a) => {
                proof {
                    lemma_sites_exprs_split(a@, start as int);
                    if start == 1 {
                        assert(a@[0] is Str);
                        let first = a@.subrange(0, 1);
                        assert(first.subrange(0, 0) =~= Seq::<Expr>::empty());
                        assert(sites_exprs(first.subrange(0, 0)) =~= Seq::<Site>::empty());
                        assert(sites_expr(first[0]) =~= Seq::<Site>::empty());
                        assert(first[0] == a@[0]);
                        assert(sites_exprs(first) =~= Seq::<Site>::empty());
                    } else {
                        assert(a@.subrange(0, 0) =~= Seq::<Expr>::empty());
                    }
                    assert(sites_exprs(a@) =~= sites_exprs(a@.subrange(start as int, a@.len() as int)));
                }
                let mut rest = match self.fold_exprs_from(a, start) {
                    Ok(v) => v,
                    Err(x) => {
                        proof {
                            lemma_walk_chain(s0, s2, *self, site + sites_expr(**callee), arg_sites, Some(x));
                        }
                        return Err(x);
                    },
                };
                proof {
                    lemma_walk_chain(s0, s2, *self, site + sites_expr(**callee), arg_sites, None);
                }
                let ghost rest_v = rest@;
                out.append(&mut rest);
                proof {
                    let cfg = s0.cfg();
                    assert(rw_expr(cfg, **callee, nc));
                    if start == 1 {
                        assert(out@.subrange(1, out@.len() as int) =~= rest_v);
                        assert(out@[0] is Str);
                        assert(fresh_str(out@[0]->Str_0, url_of(cfg, site[0])));
                        assert(rw_args(cfg, site, a@, out@));
                    } else {
                        assert(out@ =~= rest_v);
                        assert(a@.subrange(0, a@.len() as int) =~= a@);
                        assert(rw_args(cfg, site, a@, out@));
                    }
                }
                Ok(Expr::New(Box::new(nc), Some(out)))
            },
        }
    }

    fn fold_opt_expr(&mut self, o: &Option<Expr>) -> (r: Result<Option<Expr>, ResolveError>)
        ensures
            old(self).walked(*final(self), sites_opt_expr(*o), err_of(r)),
            r is Ok ==> rw_opt_expr(old(self).cfg(), *o, r->Ok_0),
        decreases o, 1int,
    {
        match o {
            Some(x) => match self.fold_expr(x) {
                Ok(y) => Ok(Some(y)),
                Err(e) => Err(e),
            },
            None => {
                proof {
                    lemma_walk_empty(*self);
                }
                Ok(None)
            },
        }
    }

    fn fold_prop(&mut self, p: &Prop) -> (r: Result<Prop, ResolveError>)
        ensures
            old(self).walked(*final(self), sites_prop(*p), err_of(r)),
            r is Ok ==> rw_prop(old(self).cfg(), *p, r->Ok_0),
        decreases p, 1int,
    {
        let ghost s0 = *self;
        proof {
            lemma_walk_empty(s0);
        }
        match p {
            Prop::Shorthand(n) => Ok(Prop::Shorthand(n.clone())),
            Prop::KeyValue(k, v) => {
                let nk = match self.fold_expr(k) {
                    Ok(x) => x,
                    Err(e) => {
                        proof {
                            lemma_walk_extend(s0, *self, sites_expr(*k), sites_expr(*v), e);
                        }
                        return Err(e);
                    },
                };
                let ghost s1 = *self;
                let nv = match self.fold_expr(v) {
                    Ok(x) => x,
                    Err(e) => {
                        proof {
                            lemma_walk_chain(s0, s1, *self, sites_expr(*k), sites_expr(*v), Some(e));
                        }
                        return Err(e);
                    },
                };
                proof {
                    lemma_walk_chain(s0, s1, *self, sites_expr(*k), sites_expr(*v), None);
                }
                Ok(Prop::KeyValue(nk, nv))
            },
            Prop::Method(k, es) => {
                let nk = match self.fold_expr(k) {
                    Ok(x) => x,
                    Err(e) => {
                        proof {
                            lemma_walk_extend(s0, *self, sites_expr(*k), sites_exprs(es@), e);
                        }
                        return Err(e);
                    },
                };
                let ghost s1 = *self;
                assert(es@.subrange(0, es@.len() as int) =~= es@);
                let nes = match self.fold_exprs_from(es, 0) {
                    Ok(x) => x,
                    Err(e) => {
                        proof {
                            lemma_walk_chain(s0, s1, *self, sites_expr(*k), sites_exprs(es@), Some(e));
                        }
                        return Err(e);
                    },
                };
                proof {
                    lemma_walk_chain(s0, s1, *self, sites_expr(*k), sites_exprs(es@), None);
                }
                Ok(Prop::Method(nk, nes))
            },
            Prop::Getter(k, es) => {
                let nk = match self.fold_expr(k) {
                    Ok(x) => x,
                    Err(e) => {
                        proof {
                            lemma_walk_extend(s0, *self, sites_expr(*k), sites_exprs(es@), e);
                        }
                        return Err(e);
                    },
                };
                let ghost s1 = *self;
                assert(es@.subrange(0, es@.len() as int) =~= es@);
                let nes = match self.fold_exprs_from(es, 0) {
                    Ok(x) => x,
                    Err(e) => {
                        proof {
                            lemma_walk_chain(s0, s1, *self, sites_expr(*k), sites_exprs(es@), Some(e));
                        }
                        return Err(e);
                    },
                };
                proof {
                    lemma_walk_chain(s0, s1, *self, sites_expr(*k), sites_exprs(es@), None);
                }
                Ok(Prop::Getter(nk, nes))
            },
            Prop::Setter(k, es) => {
                let nk = match self.fold_expr(k) {
                    Ok(x) => x,
                    Err(e) => {
                        proof {
                            lemma_walk_extend(s0, *self, sites_expr(*k), sites_exprs(es@), e);
                        }
                        return Err(e);
                    },
                };
                let ghost s1 = *self;
                assert(es@.subrange(0, es@.len() as int) =~= es@);
                let nes = match self.fold_exprs_from(es, 0) {
                    Ok(x) => x,
                    Err(e) => {
                        proof {
                            lemma_walk_chain(s0, s1, *self, sites_expr(*k), sites_exprs(es@), Some(e));
                        }
                        return Err(e);
                    },
                };
                proof {
                    lemma_walk_chain(s0, s1, *self, sites_expr(*k), sites_exprs(es@), None);
                }
                Ok(Prop::Setter(nk, nes))
            },
            Prop::Spread(x) => match self.fold_expr(x) {
                Ok(y) => Ok(Prop::Spread(y)),
                Err(e) => Err(e),
            },
            Prop::Other(es) => {
                assert(es@.subrange(0, es@.len() as int) =~= es@);
                match self.fold_exprs_from(es, 0) {
                    Ok(v) => Ok(Prop::Other(v)),
                    Err(e) => Err(e),
                }
            },
        }
    }

    fn fold_pat(&mut self, p: &Pat) -> (r: Result<Pat, ResolveError>)
        ensures
            old(self).walked(*final(self), sites_pat(*p), err_of(r)),
            r is Ok ==> rw_pat(old(self).cfg(), *p, r->Ok_0),
        decreases p, 1int,
    {
        let ghost s0 = *self;
        proof {
            lemma_walk_empty(s0);
        }
        match p {
            Pat::Ident(n) => Ok(Pat::Ident(n.clone())),
            Pat::Array(ps) => match self.fold_pats(ps) {
                Ok(v) => Ok(Pat::Array(v)),
                Err(e) => Err(e),
            },
            Pat::Hole => Ok(Pat::Hole),
            Pat::Object(pps) => match self.fold_pat_props(pps) {
                Ok(v) => Ok(Pat::Object(v)),
                Err(e) => Err(e),
            },
            Pat::Rest(q) => match self.fold_pat(q) {
                Ok(v) => Ok(Pat::Rest(Box::new(v))),
                Err(e) => Err(e),
            },
            Pat::Assign(q, d) => {
                let nq = match self.fold_pat(q) {
                    Ok(x) => x,
                    Err(e) => {
                        proof {
                            lemma_walk_extend(s0, *self, sites_pat(**q), sites_expr(**d), e);
                        }
                        return Err(e);
                    },
                };
                let ghost s1 = *self;
                let nd = match self.fold_expr(d) {
                    Ok(x) => x,
                    Err(e) => {
                        proof {
                            lemma_walk_chain(s0, s1, *self, sites_pat(**q), sites_expr(**d), Some(e));
                        }
                        return Err(e);
                    },
                };
                proof {
                    lemma_walk_chain(s0, s1, *self, sites_pat(**q), sites_expr(**d), None);
                }
                Ok(Pat::Assign(Box::new(nq), Box::new(nd)))
            },
        }
    }

    fn fold_pat_prop(&mut self, p: &PatProp) -> (r: Result<PatProp, ResolveError>)
        ensures
            old(self).walked(*final(self), sites_pat_prop(*p), err_of(r)),
            r is Ok ==> rw_pat_prop(old(self).cfg(), *p, r->Ok_0),
        decreases p, 1int,
    {
        let ghost s0 = *self;
        match p {
            PatProp::KeyValue(k, q) => {
                let nk = match self.fold_expr(k) {
                    Ok(x) => x,
                    Err(e) => {
                        proof {
                            lemma_walk_extend(s0, *self, sites_expr(*k), sites_pat(*q), e);
                        }
                        return Err(e);
                    },
                };
                let ghost s1 = *self;
                let nq = match self.fold_pat(q) {
                    Ok(x) => x,
                    Err(e) => {
                        proof {
                            lemma_walk_chain(s0, s1, *self, sites_expr(*k), sites_pat(*q), Some(e));
                        }
                        return Err(e);
                    },
                };
                proof {
                    lemma_walk_chain(s0, s1, *self, sites_expr(*k), sites_pat(*q), None);
                }
                Ok(PatProp::KeyValue(nk, nq))
            },
            PatProp::Assign(n, d) => match self.fold_opt_expr(d) {
                Ok(v) => Ok(PatProp::Assign(n.clone(), v)),
                Err(e) => Err(e),
            },
            PatProp::Rest(q) => match self.fold_pat(q) {
                Ok(v) => Ok(PatProp::Rest(v)),
                Err(e) => Err(e),
            },
        }
    }

    fn fold_props(&mut self, ps: &Vec<Prop>) -> (r: Result<Vec<Prop>, ResolveError>)
        ensures
            old(self).walked(*final(self), sites_props(ps@), err_of(r)),
            r is Ok ==> rw_props(old(self).cfg(), ps@, r->Ok_0@),
        decreases ps, 0int,
    {
        let ghost s0 = *self;
        let mut out: Vec<Prop> = Vec::new();
        let mut i: usize = 0;
        proof {
            lemma_walk_empty(s0);
            assert(ps@.subrange(0, 0) =~= Seq::<Prop>::empty());
        }
        while i < ps.len()
            invariant
                s0 == *old(self),
                i <= ps@.len(),
                s0.walked(*self, sites_props(ps@.subrange(0, i as int)), None),
                rw_props(s0.cfg(), ps@.subrange(0, i as int), out@),
            decreases ps@.len() - i,
        {
            let ghost s1 = *self;
            let ghost done = ps@.subrange(0, i as int);
            let ghost next = ps@.subrange(0, i + 1);
            assert(next.subrange(0, next.len() - 1) =~= done);
            assert(next[next.len() - 1] == ps@[i as int]);
            assert(sites_props(next) == sites_props(done) + sites_prop(ps@[i as int]));
            match self.fold_prop(&ps[i]) {
                Ok(x) => {
                    proof {
                        lemma_walk_chain(s0, s1, *self, sites_props(done), sites_prop(ps@[i as int]), None);
                    }
                    let ghost before = out@;
                    out.push(x);
                    assert(out@.subrange(0, out@.len() - 1) =~= before);
                },
                Err(e) => {
                    proof {
                        lemma_walk_chain(s0, s1, *self, sites_props(done), sites_prop(ps@[i as int]), Some(e));
                        lemma_sites_props_split(ps@, i + 1);
                        lemma_walk_extend(
                            s0,
                            *self,
                            sites_props(next),
                            sites_props(ps@.subrange(i + 1, ps@.len() as int)),
                            e,
                        );
                    }
                    return Err(e);
                },
            }
            i = i + 1;
        }
        assert(ps@.subrange(0, ps@.len() as int) =~= ps@);
        Ok(out)
    }

    fn fold_pats(&mut self, ps: &Vec<Pat>) -> (r: Result<Vec<Pat>, ResolveError>)
        ensures
            old(self).walked(*final(self), sites_pats(ps@), err_of(r)),
            r is Ok ==> rw_pats(old(self).cfg(), ps@, r->Ok_0@),
        decreases ps, 0int,
    {
        let ghost s0 = *self;
        let mut out: Vec<Pat> = Vec::new();
        let mut i: usize = 0;
        proof {
            lemma_walk_empty(s0);
            assert(ps@.subrange(0, 0) =~= Seq::<Pat>::empty());
        }
        while i < ps.len()
            invariant
                s0 == *old(self),
                i <= ps@.len(),
                s0.walked(*self, sites_pats(ps@.subrange(0, i as int)), None),
                rw_pats(s0.cfg(), ps@.subrange(0, i as int), out@),
            decreases ps@.len() - i,
        {
            let ghost s1 = *self;
            let ghost done = ps@.subrange(0, i as int);
            let ghost next = ps@.subrange(0, i + 1);
            assert(next.subrange(0, next.len() - 1) =~= done);
            assert(next[next.len() - 1] == ps@[i as int]);
            assert(sites_pats(next) == sites_pats(done) + sites_pat(ps@[i as int]));
            match self.fold_pat(&ps[i]) {
                Ok(x) => {
                    proof {
                        lemma_walk_chain(s0, s1, *self, sites_pats(done), sites_pat(ps@[i as int]), None);
                    }
                    let ghost before = out@;
                    out.push(x);
                    assert(out@.subrange(0, out@.len() - 1) =~= before);
                },
                Err(e) => {
                    proof {
                        lemma_walk_chain(s0, s1, *self, sites_pats(done), sites_pat(ps@[i as int]), Some(e));
                        lemma_sites_pats_split(ps@, i + 1);
                        lemma_walk_extend(
                            s0,
                            *self,
                            sites_pats(next),
                            sites_pats(ps@.subrange(i + 1, ps@.len() as int)),
                            e,
                        );
                    }
                    return Err(e);
                },
            }
            i = i + 1;
        }
        assert(ps@.subrange(0, ps@.len() as int) =~= ps@);
        Ok(out)
    }

    fn fold_pat_props(&mut self, ps: &Vec<PatProp>) -> (r: Result<Vec<PatProp>, ResolveError>)
        ensures
            old(self).walked(*final(self), sites_pat_props(ps@), err_of(r)),
            r is Ok ==> rw_pat_props(old(self).cfg(), ps@, r->Ok_0@),
        decreases ps, 0int,
    {
        let ghost s0 = *self;
        let mut out: Vec<PatProp> = Vec::new();
        let mut i: usize = 0;
        proof {
            lemma_walk_empty(s0);
            assert(ps@.subrange(0, 0) =~= Seq::<PatProp>::empty());
        }
        while i < ps.len()
            invariant
                s0 == *old(self),
                i <= ps@.len(),
                s0.walked(*self, sites_pat_props(ps@.subrange(0, i as int)), None),
                rw_pat_props(s0.cfg(), ps@.subrange(0, i as int), out@),
            decreases ps@.len() - i,
        {
            let ghost s1 = *self;
            let ghost done = ps@.subrange(0, i as int);
            let ghost next = ps@.subrange(0, i + 1);
            assert(next.subrange(0, next.len() - 1) =~= done);
            assert(next[next.len() - 1] == ps@[i as int]);
            assert(sites_pat_props(next) == sites_pat_props(done) + sites_pat_prop(ps@[i as int]));
            match self.fold_pat_prop(&ps[i]) {
                Ok(x) => {
                    proof {
                        lemma_walk_chain(s0, s1, *self, sites_pat_props(done), sites_pat_prop(ps@[i as int]), None);
                    }
                    let ghost before = out@;
                    out.push(x);
                    assert(out@.subrange(0, out@.len() - 1) =~= before);
                },
                Err(e) => {
                    proof {
                        lemma_walk_chain(s0, s1, *self, sites_pat_props(done), sites_pat_prop(ps@[i as int]), Some(e));
                        lemma_sites_pat_props_split(ps@, i + 1);
                        lemma_walk_extend(
                            s0,
                            *self,
                            sites_pat_props(next),
                            sites_pat_props(ps@.subrange(i + 1, ps@.len() as int)),
                            e,
                        );
                    }
                    return Err(e);
                },
            }
            i = i + 1;
        }
        assert(ps@.subrange(0, ps@.len() as int) =~= ps@);
        Ok(out)
    }

    fn fold_stripped_prop(&mut self, p: &Prop) -> (r: Result<Prop, ResolveError>)
        ensures
            old(self).walked(*final(self), sites_stripped_prop(*p), err_of(r)),
            r is Ok ==> stripped_prop(old(self).cfg(), *p, r->Ok_0),
    {
        proof {
            lemma_walk_empty(*self);
        }
        match p {
            Prop::Shorthand(n) => Ok(Prop::KeyValue(Expr::Ident(n.clone()), Expr::Bool(true))),
            Prop::KeyValue(k, v) => {
                let nk = match self.fold_expr(k) {
                    Ok(x) => x,
                    Err(e) => return Err(e),
                };
                let nv = match v {
                    Expr::Bool(b) => Expr::Bool(*b),
                    _ => Expr::Bool(true),
                };
                Ok(Prop::KeyValue(nk, nv))
            },
            Prop::Method(k, _) | Prop::Getter(k, _) | Prop::Setter(k, _) => match self.fold_expr(k) {
                Ok(nk) => Ok(Prop::KeyValue(nk, Expr::Bool(true))),
                Err(e) => Err(e),
            },
            _ => self.fold_prop(p),
        }
    }

    /// Rewrites the properties of the object literal of a stripped export.
    fn fold_stripped_props(&mut self, ps: &Vec<Prop>) -> (r: Result<Vec<Prop>, ResolveError>)
        ensures
            old(self).walked(*final(self), sites_stripped_props(ps@), err_of(r)),
            r is Ok ==> r->Ok_0@.len() == ps@.len() && forall|k: int|
                0 <= k < ps@.len() ==> stripped_prop(old(self).cfg(), ps@[k], #[trigger] r->Ok_0@[k]),
    {
        let ghost s0 = *self;
        let mut out: Vec<Prop> = Vec::new();
        let mut i: usize = 0;
        proof {
            lemma_walk_empty(s0);
            assert(ps@.subrange(0, 0) =~= Seq::<Prop>::empty());
        }
        while i < ps.len()
            invariant
                s0 == *old(self),
                i <= ps@.len(),
                s0.walked(*self, sites_stripped_props(ps@.subrange(0, i as int)), None),
                out@.len() == i,
                forall|k: int| 0 <= k < i ==> stripped_prop(s0.cfg(), ps@[k], #[trigger] out@[k]),
            decreases ps@.len() - i,
        {
            let ghost s1 = *self;
            let ghost done = ps@.subrange(0, i as int);
            let ghost next = ps@.subrange(0, i + 1);
            assert(next.subrange(0, next.len() - 1) =~= done);
            assert(next[next.len() - 1] == ps@[i as int]);
            assert(sites_stripped_props(next) == sites_stripped_props(done) + sites_stripped_prop(ps@[i as int]));
            match self.fold_stripped_prop(&ps[i]) {
                Ok(x) => {
                    proof {
                        lemma_walk_chain(s0, s1, *self, sites_stripped_props(done), sites_stripped_prop(ps@[i as int]), None);
                    }
                    out.push(x);
                },
                Err(e) => {
                    proof {
                        lemma_walk_chain(s0, s1, *self, sites_stripped_props(done), sites_stripped_prop(ps@[i as int]), Some(e));
                        lemma_sites_stripped_props_split(ps@, i + 1);
                        lemma_walk_extend(
                            s0,
                            *self,
                            sites_stripped_props(next),
                            sites_stripped_props(ps@.subrange(i + 1, ps@.len() as int)),
                            e,
                        );
                    }
                    return Err(e);
                },
            }
            i = i + 1;
        }
        assert(ps@.subrange(0, ps@.len() as int) =~= ps@);
        Ok(out)
    }

    /// The value that stripping gives the declarator `name = init`: the
    /// object literal of a data or mutation export keeps its keys, anything
    /// else becomes `true`.
    fn strip_init(&mut self, name: &String, init: &Option<Expr>) -> (r: Result<Option<Expr>, ResolveError>)
        ensures
            old(self).walked(*final(self), sites_stripped_init(name@, *init), err_of(r)),
            r is Ok ==> stripped_init(old(self).cfg(), name@, *init, r->Ok_0),
    {
        proof {
            lemma_walk_empty(*self);
        }
        if keeps_keys_name(name.as_str()) {
            if let Some(Expr::Object(props)) = init {
                return match self.fold_stripped_props(props) {
                    Ok(v) => Ok(Some(Expr::Object(v))),
                    Err(e) => Err(e),
                };
            }
        }
        Ok(Some(Expr::Bool(true)))
    }

    /// Rewrites a variable declaration; where `strip` is set, every
    /// declarator that binds a reserved name to a value is stripped.
    fn fold_var_decl(&mut self, v: &VarDecl, strip: bool) -> (r: Result<VarDecl, ResolveError>)
        ensures
            old(self).walked(
                *final(self),
                sites_declarators(strip, v.decls@, v.decls@.len() as int),
                err_of(r),
            ),
            r is Ok ==> rw_var(old(self).cfg(), strip, *v, r->Ok_0),
    {
        let ghost s0 = *self;
        let decls = &v.decls;
        let mut out: Vec<VarDeclarator> = Vec::new();
        let mut i: usize = 0;
        proof {
            lemma_walk_empty(s0);
        }
        while i < decls.len()
            invariant
                s0 == *old(self),
                decls@ == v.decls@,
                i <= decls@.len(),
                s0.walked(*self, sites_declarators(strip, decls@, i as int), None),
                out@.len() == i,
                forall|k: int|
                    0 <= k < i ==> rw_declarator_at(s0.cfg(), strip, decls@, k, #[trigger] out@[k]),
            decreases decls@.len() - i,
        {
            let ghost s1 = *self;
            let ghost here = sites_declarator_at(strip, decls@, i as int);
            let d = &decls[i];
            let is_target = strip && is_strip_target_exec(d);
            let name = match self.fold_pat(&d.name) {
                Ok(x) => x,
                Err(e) => {
                    proof {
                        lemma_walk_chain(s0, s1, *self, sites_declarators(strip, decls@, i as int), sites_pat(d.name), Some(e));
                        lemma_walk_extend(s0, *self, sites_declarators(strip, decls@, i as int) + sites_pat(d.name), here.subrange(sites_pat(d.name).len() as int, here.len() as int), e);
                        assert(sites_declarators(strip, decls@, i as int) + sites_pat(d.name) + here.subrange(sites_pat(d.name).len() as int, here.len() as int) =~= sites_declarators(strip, decls@, i + 1));
                        lemma_sites_declarators_split(strip, decls@, i + 1, decls@.len() as int);
                        lemma_walk_extend(s0, *self, sites_declarators(strip, decls@, i + 1), sites_declarators(strip, decls@, decls@.len() as int).subrange(sites_declarators(strip, decls@, i + 1).len() as int, sites_declarators(strip, decls@, decls@.len() as int).len() as int), e);
                    }
                    return Err(e);
                },
            };
            let ghost s2 = *self;
            proof {
                lemma_walk_chain(s0, s1, s2, sites_declarators(strip, decls@, i as int), sites_pat(d.name), None);
            }
            let init = if is_target {
                let n = match &d.name {
                    Pat::Ident(n) => n,
                    _ => unreached(),
                };
                self.strip_init(n, &d.init)
            } else {
                self.fold_opt_expr(&d.init)
            };
            let ghost rest_sites = if is_target {
                sites_stripped_init(d.name->Ident_0@, d.init)
            } else {
                sites_opt_expr(d.init)
            };
            assert(here == sites_pat(d.name) + rest_sites);
            match init {
                Ok(x) => {
                    proof {
                        lemma_walk_chain(s0, s2, *self, sites_declarators(strip, decls@, i as int) + sites_pat(d.name), rest_sites, None);
                        assert(sites_declarators(strip, decls@, i as int) + sites_pat(d.name) + rest_sites =~= sites_declarators(strip, decls@, i + 1));
                    }
                    out.push(VarDeclarator { name, init: x });
                },
                Err(e) => {
                    proof {
                        lemma_walk_chain(s0, s2, *self, sites_declarators(strip, decls@, i as int) + sites_pat(d.name), rest_sites, Some(e));
                        assert(sites_declarators(strip, decls@, i as int) + sites_pat(d.name) + rest_sites =~= sites_declarators(strip, decls@, i + 1));
                        lemma_sites_declarators_split(strip, decls@, i + 1, decls@.len() as int);
                        lemma_walk_extend(s0, *self, sites_declarators(strip, decls@, i + 1), sites_declarators(strip, decls@, decls@.len() as int).subrange(sites_declarators(strip, decls@, i + 1).len() as int, sites_declarators(strip, decls@, decls@.len() as int).len() as int), e);
                    }
                    return Err(e);
                },
            }
            i = i + 1;
        }
        Ok(VarDecl { kind: v.kind, declare: v.declare, decls: out })
    }

    fn fold_fn_decl(&mut self, f: &FnDecl) -> (r: Result<FnDecl, ResolveError>)
        ensures
            old(self).walked(*final(self), sites_fn(*f), err_of(r)),
            r is Ok ==> rw_fn(old(self).cfg(), *f, r->Ok_0),
    {
        let ghost s0 = *self;
        let ghost body_sites = sites_body(f.body);
        let params = match self.fold_pats(&f.params) {
            Ok(x) => x,
            Err(e) => {
                proof {
                    lemma_walk_extend(s0, *self, sites_pats(f.params@), body_sites, e);
                }
                return Err(e);
            },
        };
        let ghost s1 = *self;
        let body = match &f.body {
            Some(b) => {
                assert(b@.subrange(0, b@.len() as int) =~= b@);
                match self.fold_exprs_from(b, 0) {
                    Ok(x) => Some(x),
                    Err(e) => {
                        proof {
                            lemma_walk_chain(s0, s1, *self, sites_pats(f.params@), body_sites, Some(e));
                        }
                        return Err(e);
                    },
                }
            },
            None => {
                proof {
                    lemma_walk_empty(s1);
                }
                None
            },
        };
        proof {
            lemma_walk_chain(s0, s1, *self, sites_pats(f.params@), body_sites, None);
        }
        Ok(
            FnDecl {
                ident: f.ident.clone(),
                declare: f.declare,
                params,
                body,
                is_async: f.is_async,
                is_generator: f.is_generator,
            },
        )
    }

    fn fold_decl(&mut self, d: &Decl, strip: bool) -> (r: Result<Decl, ResolveError>)
        ensures
            old(self).walked(*final(self), sites_decl(strip, *d), err_of(r)),
            r is Ok ==> rw_decl(old(self).cfg(), strip, *d, r->Ok_0),
    {
        match d {
            Decl::Var(v) => match self.fold_var_decl(v, strip) {
                Ok(x) => Ok(Decl::Var(x)),
                Err(e) => Err(e),
            },
            Decl::Fn(f) => {
                if strip && is_reserved_export_name(f.ident.as_str()) {
                    proof {
                        lemma_walk_empty(*self);
                    }
                    Ok(
                        Decl::Fn(
                            FnDecl {
                                ident: f.ident.clone(),
                                declare: f.declare,
                                params: Vec::new(),
                                body: Some(Vec::new()),
                                is_async: false,
                                is_generator: false,
                            },
                        ),
                    )
                } else {
                    match self.fold_fn_decl(f) {
                        Ok(x) => Ok(Decl::Fn(x)),
                        Err(e) => Err(e),
                    }
                }
            },
            Decl::Class(c) => {
                assert(c.body@.subrange(0, c.body@.len() as int) =~= c.body@);
                match self.fold_exprs_from(&c.body, 0) {
                    Ok(x) => Ok(Decl::Class(ClassDecl { ident: c.ident.clone(), body: x })),
                    Err(e) => Err(e),
                }
            },
        }
    }

    /// Rewrites one module item: resolves the source of an import or
    /// re-export that is not type-only, strips a server-only export where
    /// that is asked for, and rewrites the expressions within.
    pub fn fold_module_item(&mut self, item: ModuleItem) -> (r: Result<ModuleItem, ResolveError>)
        ensures
            old(self).walked(*final(self), sites_item(old(self).strip_data_export, item), err_of(r)),
            r is Ok ==> rw_item(old(self).cfg(), old(self).strip_data_export, item, r->Ok_0),
    {
        proof {
            lemma_walk_empty(*self);
        }
        match item {
            ModuleItem::Import(d) => {
                if d.type_only {
                    Ok(ModuleItem::Import(d))
                } else {
                    match self.resolve_str(&d.src, false) {
                        Ok(src) => Ok(
                            ModuleItem::Import(
                                ImportDecl { specifiers: d.specifiers, src, type_only: d.type_only },
                            ),
                        ),
                        Err(e) => Err(e),
                    }
                }
            },
            ModuleItem::ExportNamed(n) => {
                match n.src {
                    Some(s) => {
                        if n.type_only {
                            Ok(
                                ModuleItem::ExportNamed(
                                    NamedExport {
                                        specifiers: n.specifiers,
                                        src: Some(s),
                                        type_only: n.type_only,
                                    },
                                ),
                            )
                        } else {
                            match self.resolve_str(&s, false) {
                                Ok(src) => Ok(
                                    ModuleItem::ExportNamed(
                                        NamedExport {
                                            specifiers: n.specifiers,
                                            src: Some(src),
                                            type_only: n.type_only,
                                        },
                                    ),
                                ),
                                Err(e) => Err(e),
                            }
                        }
                    },
                    None => Ok(
                        ModuleItem::ExportNamed(
                            NamedExport { specifiers: n.specifiers, src: None, type_only: n.type_only },
                        ),
                    ),
                }
            },
            ModuleItem::ExportAll(x) => match self.resolve_str(&x.src, false) {
                Ok(src) => Ok(ModuleItem::ExportAll(ExportAll { src, type_only: x.type_only })),
                Err(e) => Err(e),
            },
            ModuleItem::ExportDecl(d) => {
                let strip = self.strip_data_export;
                match self.fold_decl(&d, strip) {
                    Ok(x) => Ok(ModuleItem::ExportDecl(x)),
                    Err(e) => Err(e),
                }
            },
            ModuleItem::ExportDefaultDecl(d) => match self.fold_decl(&d, false) {
                Ok(x) => Ok(ModuleItem::ExportDefaultDecl(x)),
                Err(e) => Err(e),
            },
            ModuleItem::ExportDefaultExpr(e) => match self.fold_expr(&e) {
                Ok(x) => Ok(ModuleItem::ExportDefaultExpr(x)),
                Err(err) => Err(err),
            },
            ModuleItem::Stmt(e) => match self.fold_expr(&e) {
                Ok(x) => Ok(ModuleItem::Stmt(x)),
                Err(err) => Err(err),
            },
        }
    }

    /// Rewrites the items of a module, in order. Fails with the error of the
    /// first specifier, in source order, that does not resolve.
    pub fn fold_module_items(&mut self, module_items: Vec<ModuleItem>) -> (r: Result<
        Vec<ModuleItem>,
        ResolveError,
    >)
        ensures
            old(self).walked(
                *final(self),
                sites_items(old(self).strip_data_export, module_items@),
                err_of(r),
            ),
            r is Ok ==> rw_items(
                old(self).cfg(),
                old(self).strip_data_export,
                module_items@,
                r->Ok_0@,
            ),
    {
        let ghost s0 = *self;
        let ghost all = module_items@;
        let ghost strip = self.strip_data_export;
        let mut rest = module_items;
        let mut out: Vec<ModuleItem> = Vec::new();
        proof {
            lemma_walk_empty(s0);
            assert(all.subrange(0, 0) =~= Seq::<ModuleItem>::empty());
            assert(all.subrange(0, all.len() as int) =~= all);
        }
        while rest.len() > 0
            invariant
                s0 == *old(self),
                all == module_items@,
                strip == s0.strip_data_export,
                out@.len() + rest@.len() == all.len(),
                rest@ == all.subrange(out@.len() as int, all.len() as int),
                s0.walked(*self, sites_items(strip, all.subrange(0, out@.len() as int)), None),
                forall|k: int|
                    0 <= k < out@.len() ==> rw_item(s0.cfg(), strip, all[k], #[trigger] out@[k]),
            decreases rest@.len(),
        {
            let ghost i = out@.len() as int;
            let ghost s1 = *self;
            let ghost done = all.subrange(0, i);
            let ghost next = all.subrange(0, i + 1);
            assert(next.subrange(0, next.len() - 1) =~= done);
            assert(next[next.len() - 1] == all[i]);
            assert(sites_items(strip, next) == sites_items(strip, done) + sites_item(strip, all[i]));
            let item = rest.remove(0);
            assert(item == all[i]);
            assert(rest@ =~= all.subrange(i + 1, all.len() as int));
            match self.fold_module_item(item) {
                Ok(x) => {
                    proof {
                        lemma_walk_chain(s0, s1, *self, sites_items(strip, done), sites_item(strip, all[i]), None);
                    }
                    out.push(x);
                },
                Err(e) => {
                    proof {
                        lemma_walk_chain(s0, s1, *self, sites_items(strip, done), sites_item(strip, all[i]), Some(e));
                        assert(s0.walked(*self, sites_items(strip, next), Some(e)));
                        lemma_sites_items_split(strip, all, i + 1);
                        assert(all.subrange(0, i + 1) == next);
                        lemma_walk_extend(
                            s0,
                            *self,
                            sites_items(strip, next),
                            sites_items(strip, all.subrange(i + 1, all.len() as int)),
                            e,
                        );
                        assert(s0.walked(*self, sites_items(strip, all), Some(e)));
                    }
                    return Err(e);
                },
            }
        }
        assert(all.subrange(0, out@.len() as int) =~= all);
        Ok(out)
    }
}

} // verus!
