//! The export-name extractor: the names a module exports, in order, without
//! rewriting anything.
use crate::ast::{Decl, ExportSpecifier, ModuleItem, Pat, PatProp, Str, VarDecl, VarDeclarator};
use crate::urls::string_views;
use vstd::prelude::*;
use vstd::string::*;

verus! {

/// The marker that stands for everything re-exported from `src`.
pub open spec fn star_marker(src: Seq<char>) -> Seq<char> {
    "*"@ + src
}

/// The names a pattern binds, from left to right; a rest element binds
/// the names of its pattern.
pub open spec fn pat_names(p: Pat) -> Seq<Seq<char>>
    decreases p,
{
    match p {
        Pat::Ident(n) => seq![n@],
        Pat::Array(ps) => pats_names(ps@),
        Pat::Hole => Seq::empty(),
        Pat::Object(pps) => pat_props_names(pps@),
        Pat::Rest(q) => pat_names(*q),
        Pat::Assign(q, _) => pat_names(*q),
    }
}

pub open spec fn pats_names(s: Seq<Pat>) -> Seq<Seq<char>>
    decreases s,
{
    if s.len() == 0 {
        Seq::empty()
    } else {
        pats_names(s.subrange(0, s.len() - 1)) + pat_names(s[s.len() - 1])
    }
}

pub open spec fn pat_prop_names(p: PatProp) -> Seq<Seq<char>>
    decreases p,
{
    match p {
        PatProp::KeyValue(_, q) => pat_names(q),
        PatProp::Assign(n, _) => seq![n@],
        PatProp::Rest(q) => pat_names(q),
    }
}

pub open spec fn pat_props_names(s: Seq<PatProp>) -> Seq<Seq<char>>
    decreases s,
{
    if s.len() == 0 {
        Seq::empty()
    } else {
        pat_props_names(s.subrange(0, s.len() - 1)) + pat_prop_names(s[s.len() - 1])
    }
}

/// The names bound by the first `n` declarators.
pub open spec fn declarators_names(decls: Seq<VarDeclarator>, n: int) -> Seq<Seq<char>>
    decreases n,
{
    if n <= 0 {
        Seq::empty()
    } else {
        declarators_names(decls, n - 1) + pat_names(decls[n - 1].name)
    }
}

/// The name an export specifier reports: in a re-export the name in the
/// source module, else the exported name.
pub open spec fn specifier_name(s: ExportSpecifier, reexport: bool) -> Seq<char> {
    match s {
        ExportSpecifier::Named(orig, exported) => match exported {
            Some(x) => if reexport {
                orig@
            } else {
                x@
            },
            None => orig@,
        },
        ExportSpecifier::Default(x) => x@,
        ExportSpecifier::Namespace(x) => x@,
    }
}

/// The names of the first `n` specifiers of a named export; a namespace
/// re-export reports the marker of its source.
pub open spec fn specifiers_names(
    specs: Seq<ExportSpecifier>,
    src: Option<Seq<char>>,
    n: int,
) -> Seq<Seq<char>>
    decreases n,
{
    if n <= 0 {
        Seq::empty()
    } else {
        let s = specs[n - 1];
        let name = match (s, src) {
            (ExportSpecifier::Namespace(_), Some(from)) => star_marker(from),
            _ => specifier_name(s, src is Some),
        };
        specifiers_names(specs, src, n - 1).push(name)
    }
}

/// The text of an optional source literal.
pub open spec fn src_view(src: Option<Str>) -> Option<Seq<char>> {
    match src {
        Some(s) => Some(s.value@),
        None => None,
    }
}

pub open spec fn decl_names(d: Decl) -> Seq<Seq<char>> {
    match d {
        Decl::Var(v) => declarators_names(v.decls@, v.decls@.len() as int),
        Decl::Fn(f) => seq![f.ident@],
        Decl::Class(c) => seq![c.ident@],
    }
}

/// The names that a module item exports.
pub open spec fn item_names(item: ModuleItem) -> Seq<Seq<char>> {
    match item {
        ModuleItem::ExportNamed(n) => specifiers_names(
            n.specifiers@,
            src_view(n.src),
            n.specifiers@.len() as int,
        ),
        ModuleItem::ExportAll(x) => seq![star_marker(x.src.value@)],
        ModuleItem::ExportDecl(d) => decl_names(d),
        ModuleItem::ExportDefaultDecl(_) => seq!["default"@],
        ModuleItem::ExportDefaultExpr(_) => seq!["default"@],
        _ => Seq::empty(),
    }
}

/// The names that a module exports, in order; a name may repeat.
pub open spec fn module_names(items: Seq<ModuleItem>) -> Seq<Seq<char>>
    decreases items.len(),
{
    if items.len() == 0 {
        Seq::empty()
    } else {
        module_names(items.subrange(0, items.len() - 1)) + item_names(items[items.len() - 1])
    }
}

fn push_name(out: &mut Vec<String>, name: &String)
    ensures
        string_views(final(out)@) == string_views(old(out)@).push(name@),
{
    out.push(name.clone());
    assert(string_views(out@) =~= string_views(old(out)@).push(name@));
}

fn push_pat_names(out: &mut Vec<String>, p: &Pat)
    ensures
        string_views(final(out)@) == string_views(old(out)@) + pat_names(*p),
    decreases p, 1int,
{
    match p {
        Pat::Ident(n) => {
            push_name(out, n);
            assert(string_views(old(out)@).push(n@) =~= string_views(old(out)@) + seq![n@]);
        },
        Pat::Array(ps) => push_pats_names(out, ps),
        Pat::Hole => {
            assert(string_views(old(out)@) + Seq::<Seq<char>>::empty() =~= string_views(old(out)@));
        },
        Pat::Object(pps) => push_pat_props_names(out, pps),
        Pat::Rest(q) => push_pat_names(out, q),
        Pat::Assign(q, _) => push_pat_names(out, q),
    }
}

fn push_pats_names(out: &mut Vec<String>, ps: &Vec<Pat>)
    ensures
        string_views(final(out)@) == string_views(old(out)@) + pats_names(ps@),
    decreases ps, 0int,
{
    let ghost start = string_views(out@);
    let mut i: usize = 0;
    assert(ps@.subrange(0, 0) =~= Seq::<Pat>::empty());
    assert(start + Seq::<Seq<char>>::empty() =~= start);
    while i < ps.len()
        invariant
            start == string_views(old(out)@),
            i <= ps@.len(),
            string_views(out@) == start + pats_names(ps@.subrange(0, i as int)),
        decreases ps@.len() - i,
    {
        let ghost next = ps@.subrange(0, i + 1);
        assert(next.subrange(0, next.len() - 1) =~= ps@.subrange(0, i as int));
        assert(next[next.len() - 1] == ps@[i as int]);
        push_pat_names(out, &ps[i]);
        assert(start + pats_names(ps@.subrange(0, i as int)) + pat_names(ps@[i as int]) =~= start
            + pats_names(next));
        i = i + 1;
    }
    assert(ps@.subrange(0, ps@.len() as int) =~= ps@);
}

fn push_pat_prop_names(out: &mut Vec<String>, p: &PatProp)
    ensures
        string_views(final(out)@) == string_views(old(out)@) + pat_prop_names(*p),
    decreases p, 1int,
{
    match p {
        PatProp::KeyValue(_, q) => push_pat_names(out, q),
        PatProp::Assign(n, _) => {
            push_name(out, n);
            assert(string_views(old(out)@).push(n@) =~= string_views(old(out)@) + seq![n@]);
        },
        PatProp::Rest(q) => push_pat_names(out, q),
    }
}

fn push_pat_props_names(out: &mut Vec<String>, ps: &Vec<PatProp>)
    ensures
        string_views(final(out)@) == string_views(old(out)@) + pat_props_names(ps@),
    decreases ps, 0int,
{
    let ghost start = string_views(out@);
    let mut i: usize = 0;
    assert(ps@.subrange(0, 0) =~= Seq::<PatProp>::empty());
    assert(start + Seq::<Seq<char>>::empty() =~= start);
    while i < ps.len()
        invariant
            start == string_views(old(out)@),
            i <= ps@.len(),
            string_views(out@) == start + pat_props_names(ps@.subrange(0, i as int)),
        decreases ps@.len() - i,
    {
        let ghost next = ps@.subrange(0, i + 1);
        assert(next.subrange(0, next.len() - 1) =~= ps@.subrange(0, i as int));
        assert(next[next.len() - 1] == ps@[i as int]);
        push_pat_prop_names(out, &ps[i]);
        assert(start + pat_props_names(ps@.subrange(0, i as int)) + pat_prop_names(ps@[i as int])
            =~= start + pat_props_names(next));
        i = i + 1;
    }
    assert(ps@.subrange(0, ps@.len() as int) =~= ps@);
}

fn push_decl_names(out: &mut Vec<String>, d: &Decl)
    ensures
        string_views(final(out)@) == string_views(old(out)@) + decl_names(*d),
{
    match d {
        Decl::Var(v) => {
            let ghost start = string_views(out@);
            let mut i: usize = 0;
            assert(start + Seq::<Seq<char>>::empty() =~= start);
            while i < v.decls.len()
                invariant
                    start == string_views(old(out)@),
                    i <= v.decls@.len(),
                    string_views(out@) == start + declarators_names(v.decls@, i as int),
                decreases v.decls@.len() - i,
            {
                push_pat_names(out, &v.decls[i].name);
                assert(start + declarators_names(v.decls@, i as int) + pat_names(
                    v.decls@[i as int].name,
                ) =~= start + declarators_names(v.decls@, i + 1));
                i = i + 1;
            }
        },
        Decl::Fn(f) => {
            push_name(out, &f.ident);
            assert(string_views(old(out)@).push(f.ident@) =~= string_views(old(out)@) + seq![
                f.ident@,
            ]);
        },
        Decl::Class(c) => {
            push_name(out, &c.ident);
            assert(string_views(old(out)@).push(c.ident@) =~= string_views(old(out)@) + seq![
                c.ident@,
            ]);
        },
    }
}

fn push_item_names(out: &mut Vec<String>, item: &ModuleItem)
    ensures
        string_views(final(out)@) == string_views(old(out)@) + item_names(*item),
{
    proof {
        reveal_strlit("*");
        reveal_strlit("default");
    }
    match item {
        ModuleItem::ExportNamed(n) => {
            let ghost start = string_views(out@);
            let ghost src = src_view(n.src);
            let mut i: usize = 0;
            assert(start + Seq::<Seq<char>>::empty() =~= start);
            while i < n.specifiers.len()
                invariant
                    start == string_views(old(out)@),
                    i <= n.specifiers@.len(),
                    src == src_view(n.src),
                    string_views(out@) == start + specifiers_names(n.specifiers@, src, i as int),
                decreases n.specifiers@.len() - i,
            {
                let name = match (&n.specifiers[i], &n.src) {
                    (ExportSpecifier::Namespace(_), Some(from)) => String::from_str("*").concat(
                        from.value.as_str(),
                    ),
                    (ExportSpecifier::Named(orig, exported), _) => match exported {
                        Some(x) => if n.src.is_some() {
                            orig.clone()
                        } else {
                            x.clone()
                        },
                        None => orig.clone(),
                    },
                    (ExportSpecifier::Default(x), _) => x.clone(),
                    (ExportSpecifier::Namespace(x), None) => x.clone(),
                };
                push_name(out, &name);
                assert(start + specifiers_names(n.specifiers@, src, i as int) + seq![name@] =~= start
                    + specifiers_names(n.specifiers@, src, i + 1));
                i = i + 1;
            }
        },
        ModuleItem::ExportAll(x) => {
            let name = String::from_str("*").concat(x.src.value.as_str());
            push_name(out, &name);
            assert(string_views(old(out)@).push(name@) =~= string_views(old(out)@) + seq![name@]);
        },
        ModuleItem::ExportDecl(d) => push_decl_names(out, d),
        ModuleItem::ExportDefaultDecl(_) | ModuleItem::ExportDefaultExpr(_) => {
            let name = String::from_str("default");
            push_name(out, &name);
            assert(string_views(old(out)@).push(name@) =~= string_views(old(out)@) + seq![name@]);
        },
        _ => {
            assert(string_views(old(out)@) + Seq::<Seq<char>>::empty() =~= string_views(
                old(out)@,
            ));
        },
    }
}

/// The names that the module `items` exports, in source order: declared
/// and destructured bindings, `default` for a default export, the names of
/// named exports, and a marker embedding the source of each `export *`.
pub fn parse_export_names(items: &Vec<ModuleItem>) -> (r: Vec<String>)
    ensures
        string_views(r@) == module_names(items@),
{
    let mut out: Vec<String> = Vec::new();
    let mut i: usize = 0;
    assert(string_views(out@) =~= Seq::<Seq<char>>::empty());
    assert(items@.subrange(0, 0) =~= Seq::<ModuleItem>::empty());
    while i < items.len()
        invariant
            i <= items@.len(),
            string_views(out@) == module_names(items@.subrange(0, i as int)),
        decreases items@.len() - i,
    {
        let ghost next = items@.subrange(0, i + 1);
        assert(next.subrange(0, next.len() - 1) =~= items@.subrange(0, i as int));
        assert(next[next.len() - 1] == items@[i as int]);
        push_item_names(&mut out, &items[i]);
        i = i + 1;
    }
    assert(items@.subrange(0, items@.len() as int) =~= items@);
    out
}

/// Flattening: an exported declaration with one destructuring declarator
/// reports exactly the names its pattern binds, from left to right; in an
/// array pattern that ends in a rest element, the rest's names come last.
pub proof fn lemma_destructured_export_names(v: VarDecl)
    requires
        v.decls@.len() == 1,
    ensures
        item_names(ModuleItem::ExportDecl(Decl::Var(v))) == pat_names(v.decls@[0].name),
        v.decls@[0].name is Array && v.decls@[0].name->Array_0@.len() > 0
            && v.decls@[0].name->Array_0@.last() is Rest ==> pat_names(v.decls@[0].name) == pats_names(
            v.decls@[0].name->Array_0@.drop_last(),
        ) + pat_names(*v.decls@[0].name->Array_0@.last()->Rest_0),
{
    assert(declarators_names(v.decls@, 0) =~= Seq::<Seq<char>>::empty());
    assert(Seq::<Seq<char>>::empty() + pat_names(v.decls@[0].name) =~= pat_names(v.decls@[0].name));
    let p = v.decls@[0].name;
    if p is Array && p->Array_0@.len() > 0 && p->Array_0@.last() is Rest {
        let ps = p->Array_0@;
        assert(ps.drop_last() =~= ps.subrange(0, ps.len() - 1));
        assert(pat_names(p) == pats_names(ps));
        assert(pats_names(ps) == pats_names(ps.subrange(0, ps.len() - 1)) + pat_names(ps[ps.len() - 1]));
        assert(pat_names(ps.last()) == pat_names(*ps.last()->Rest_0));
    }
}

} // verus!
