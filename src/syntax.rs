//! The parser dialect of a module, and the language versions that decide
//! which down-levelling passes run.
use crate::text::str_eq;
use vstd::prelude::*;
use vstd::string::*;

verus! {

/// The ECMAScript version that output targets.
#[derive(Debug, Clone, Copy, PartialEq, Eq, Structural)]
pub enum EsVersion {
    Es3,
    Es5,
    Es2015,
    Es2016,
    Es2017,
    Es2018,
    Es2019,
    Es2020,
    Es2021,
    Es2022,
}

/// The position of a version in release order.
pub open spec fn rank(v: EsVersion) -> int {
    match v {
        EsVersion::Es3 => 0,
        EsVersion::Es5 => 1,
        EsVersion::Es2015 => 2,
        EsVersion::Es2016 => 3,
        EsVersion::Es2017 => 4,
        EsVersion::Es2018 => 5,
        EsVersion::Es2019 => 6,
        EsVersion::Es2020 => 7,
        EsVersion::Es2021 => 8,
        EsVersion::Es2022 => 9,
    }
}

fn rank_of(v: EsVersion) -> (r: u8)
    ensures
        r as int == rank(v),
{
    match v {
        EsVersion::Es3 => 0,
        EsVersion::Es5 => 1,
        EsVersion::Es2015 => 2,
        EsVersion::Es2016 => 3,
        EsVersion::Es2017 => 4,
        EsVersion::Es2018 => 5,
        EsVersion::Es2019 => 6,
        EsVersion::Es2020 => 7,
        EsVersion::Es2021 => 8,
        EsVersion::Es2022 => 9,
    }
}

/// Whether the pass that lowers the features of `feature` runs for
/// `target`: only where the target is older.
pub fn should_enable(target: EsVersion, feature: EsVersion) -> (r: bool)
    ensures
        r == (rank(target) < rank(feature)),
{
    rank_of(target) < rank_of(feature)
}

/// The target named by `name`; the latest version for any other name.
pub open spec fn target_spec(name: Seq<char>) -> EsVersion {
    if name == "es2015"@ {
        EsVersion::Es2015
    } else if name == "es2016"@ {
        EsVersion::Es2016
    } else if name == "es2017"@ {
        EsVersion::Es2017
    } else if name == "es2018"@ {
        EsVersion::Es2018
    } else if name == "es2019"@ {
        EsVersion::Es2019
    } else if name == "es2020"@ {
        EsVersion::Es2020
    } else if name == "es2021"@ {
        EsVersion::Es2021
    } else {
        EsVersion::Es2022
    }
}

/// The target version named by an option such as `"es2018"`.
pub fn parse_target(name: &str) -> (r: EsVersion)
    ensures
        r == target_spec(name@),
{
    if str_eq(name, "es2015") {
        EsVersion::Es2015
    } else if str_eq(name, "es2016") {
        EsVersion::Es2016
    } else if str_eq(name, "es2017") {
        EsVersion::Es2017
    } else if str_eq(name, "es2018") {
        EsVersion::Es2018
    } else if str_eq(name, "es2019") {
        EsVersion::Es2019
    } else if str_eq(name, "es2020") {
        EsVersion::Es2020
    } else if str_eq(name, "es2021") {
        EsVersion::Es2021
    } else {
        EsVersion::Es2022
    }
}

/// The dialect a module is parsed in: ECMAScript or TypeScript, each with
/// or without JSX.
#[derive(Debug, Clone, Copy, PartialEq, Eq, Structural)]
pub enum Syntax {
    Es { jsx: bool },
    Typescript { tsx: bool },
}

/// The characters of `s` in lower case.
pub uninterp spec fn lower_of(s: Seq<char>) -> Seq<char>;

/// Relies on `str::to_lowercase`: the result depends on the characters
/// alone.
#[verifier::external_body]
fn lowercase(s: &str) -> (r: String)
    ensures
        r@ == lower_of(s@),
{
    s.to_lowercase()
}

/// `i` is where `s` first holds `?` or `#`, or its length.
pub open spec fn is_path_end(s: Seq<char>, i: int) -> bool {
    &&& 0 <= i <= s.len()
    &&& (i == s.len() || s[i] == '?' || s[i] == '#')
    &&& forall|j: int| 0 <= j < i ==> s[j] != '?' && s[j] != '#'
}

/// `i` is the position after the last `.` of `s`, or 0 where it has none.
pub open spec fn is_ext_start(s: Seq<char>, i: int) -> bool {
    &&& 0 <= i <= s.len()
    &&& (i == 0 || s[i - 1] == '.')
    &&& forall|j: int| i <= j < s.len() ==> s[j] != '.'
}

/// The extension of a specifier: what follows the last `.` before any
/// query or fragment; the whole path where there is no `.`.
pub open spec fn extension_of(s: Seq<char>) -> Seq<char> {
    let path = s.subrange(0, choose|i: int| is_path_end(s, i));
    path.subrange(choose|i: int| is_ext_start(path, i), path.len() as int)
}

/// The dialect of a language name.
pub open spec fn syntax_spec(lang: Seq<char>) -> Syntax {
    if lang == "jsx"@ {
        Syntax::Es { jsx: true }
    } else if lang == "ts"@ || lang == "mts"@ {
        Syntax::Typescript { tsx: false }
    } else if lang == "tsx"@ {
        Syntax::Typescript { tsx: true }
    } else {
        Syntax::Es { jsx: false }
    }
}

fn extension(s: &str) -> (r: String)
    ensures
        r@ == extension_of(s@),
{
    let n = s.unicode_len();
    let mut end: usize = 0;
    while end < n && s.get_char(end) != '?' && s.get_char(end) != '#'
        invariant
            n == s@.len(),
            end <= n,
            forall|j: int| 0 <= j < end ==> s@[j] != '?' && s@[j] != '#',
        decreases n - end,
    {
        end = end + 1;
    }
    let ghost path = s@.subrange(0, end as int);
    proof {
        assert(is_path_end(s@, end as int));
        let k = choose|k: int| is_path_end(s@, k);
        if k < end {
            assert(s@[k] != '?' && s@[k] != '#');
        } else if k > end {
            assert(s@[end as int] == '?' || s@[end as int] == '#');
        }
        assert(k == end);
    }
    let mut start: usize = end;
    while start > 0 && s.get_char(start - 1) != '.'
        invariant
            n == s@.len(),
            end <= n,
            start <= end,
            path == s@.subrange(0, end as int),
            forall|j: int| start <= j < end ==> s@[j] != '.',
        decreases start,
    {
        start = start - 1;
    }
    proof {
        assert(is_ext_start(path, start as int));
        let k = choose|k: int| is_ext_start(path, k);
        if k < start {
            assert(path[start - 1] == '.');
        } else if k > start {
            assert(path[k - 1] == '.');
        }
        assert(k == start);
        assert(path.subrange(start as int, path.len() as int) =~= s@.subrange(
            start as int,
            end as int,
        ));
    }
    String::from_str(s.substring_char(start, end))
}

/// The dialect to parse `specifier` in: `lang` where it is given, else the
/// lower-cased extension of the specifier.
pub fn get_syntax(specifier: &str, lang: Option<String>) -> (r: Syntax)
    ensures
        r == syntax_spec(
            match lang {
                Some(l) => l@,
                None => lower_of(extension_of(specifier@)),
            },
        ),
{
    let lang = match lang {
        Some(l) => l,
        None => lowercase(extension(specifier).as_str()),
    };
    let l = lang.as_str();
    if str_eq(l, "jsx") {
        Syntax::Es { jsx: true }
    } else if str_eq(l, "ts") || str_eq(l, "mts") {
        Syntax::Typescript { tsx: false }
    } else if str_eq(l, "tsx") {
        Syntax::Typescript { tsx: true }
    } else {
        Syntax::Es { jsx: false }
    }
}

/// Settings of the minifier.
#[derive(Debug, Clone, Copy, PartialEq, Eq, Structural)]
pub struct MinifierOptions {
    pub compress: Option<bool>,
}

/// Options for transpiling a module.
#[derive(Debug)]
pub struct EmitOptions {
    pub target: EsVersion,
    pub jsx_pragma: Option<String>,
    pub jsx_pragma_frag: Option<String>,
    pub jsx_import_source: Option<String>,
    pub react_refresh: bool,
    pub strip_data_export: bool,
    pub minify: Option<MinifierOptions>,
    pub source_map: bool,
}

impl Default for EmitOptions {
    fn default() -> (r: Self)
        ensures
            r.target == EsVersion::Es2022,
            r.jsx_pragma is None,
            r.jsx_pragma_frag is None,
            r.jsx_import_source is None,
            !r.react_refresh,
            !r.strip_data_export,
            r.minify is None,
            !r.source_map,
    {
        EmitOptions {
            target: EsVersion::Es2022,
            jsx_pragma: None,
            jsx_pragma_frag: None,
            jsx_import_source: None,
            react_refresh: false,
            strip_data_export: false,
            minify: None,
            source_map: false,
        }
    }
}

} // verus!
