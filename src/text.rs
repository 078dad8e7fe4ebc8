//! Character-level string helpers with exact specifications.
use vstd::prelude::*;
use vstd::string::*;

verus! {

/// `needle` occurs somewhere in `hay` as a contiguous run of characters.
pub open spec fn occurs_in(needle: Seq<char>, hay: Seq<char>) -> bool {
    exists|i: int|
        0 <= i && i + needle.len() <= hay.len() && #[trigger] hay.subrange(i, i + needle.len())
            == needle
}

/// `s` with every leading `c` removed.
pub open spec fn trim_start(s: Seq<char>, c: char) -> Seq<char>
    decreases s.len(),
{
    if s.len() > 0 && s[0] == c {
        trim_start(s.subrange(1, s.len() as int), c)
    } else {
        s
    }
}

/// Whether `p` is a prefix of `s`.
pub fn starts_with(s: &str, p: &str) -> (r: bool)
    ensures
        r == p@.is_prefix_of(s@),
{
    let n = s.unicode_len();
    let m = p.unicode_len();
    if m > n {
        return false;
    }
    let mut i: usize = 0;
    while i < m
        invariant
            n == s@.len(),
            m == p@.len(),
            m <= n,
            i <= m,
            forall|j: int| 0 <= j < i ==> s@[j] == p@[j],
        decreases m - i,
    {
        if s.get_char(i) != p.get_char(i) {
            return false;
        }
        i = i + 1;
    }
    assert(p@ =~= s@.subrange(0, m as int));
    true
}

/// Whether `p` is a suffix of `s`.
pub fn ends_with(s: &str, p: &str) -> (r: bool)
    ensures
        r == p@.is_suffix_of(s@),
{
    let n = s.unicode_len();
    let m = p.unicode_len();
    if m > n {
        return false;
    }
    let d = n - m;
    let mut i: usize = 0;
    while i < m
        invariant
            n == s@.len(),
            m == p@.len(),
            d == n - m,
            i <= m,
            forall|j: int| 0 <= j < i ==> s@[d + j] == p@[j],
        decreases m - i,
    {
        if s.get_char(d + i) != p.get_char(i) {
            return false;
        }
        i = i + 1;
    }
    assert(p@ =~= s@.subrange(d as int, n as int));
    true
}

/// Whether `p` occurs in `s`.
pub fn contains_str(s: &str, p: &str) -> (r: bool)
    ensures
        r == occurs_in(p@, s@),
{
    let n = s.unicode_len();
    let m = p.unicode_len();
    if m > n {
        return false;
    }
    let last = n - m;
    let mut i: usize = 0;
    loop
        invariant
            n == s@.len(),
            m == p@.len(),
            m <= n,
            last == n - m,
            i <= last,
            forall|k: int| 0 <= k < i ==> #[trigger] s@.subrange(k, k + m) != p@,
        decreases last - i,
    {
        let mut j: usize = 0;
        let mut same = true;
        while j < m && same
            invariant
                n == s@.len(),
                m == p@.len(),
                i + m <= n,
                j <= m,
                same ==> forall|t: int| 0 <= t < j ==> s@[i + t] == p@[t],
                !same ==> s@.subrange(i as int, i + m) != p@,
            decreases m - j + if same { 1int } else { 0int },
        {
            if s.get_char(i + j) != p.get_char(j) {
                assert(s@.subrange(i as int, i + m)[j as int] != p@[j as int]);
                same = false;
            } else {
                j = j + 1;
            }
        }
        if same {
            assert(s@.subrange(i as int, i + m) =~= p@);
            return true;
        }
        if i == last {
            assert forall|k: int| 0 <= k && k + p@.len() <= s@.len() implies #[trigger] s@.subrange(
                k,
                k + p@.len(),
            ) != p@ by {
                assert(k <= i);
            }
            return false;
        }
        i = i + 1;
    }
}

/// Whether the character `c` occurs in `s`.
pub fn contains_char(s: &str, c: char) -> (r: bool)
    ensures
        r == s@.contains(c),
{
    let n = s.unicode_len();
    let mut i: usize = 0;
    while i < n
        invariant
            n == s@.len(),
            i <= n,
            forall|j: int| 0 <= j < i ==> s@[j] != c,
        decreases n - i,
    {
        if s.get_char(i) == c {
            return true;
        }
        i = i + 1;
    }
    false
}

/// The characters of `s` from position `from` on.
pub fn tail_from(s: &str, from: usize) -> (r: String)
    requires
        from <= s@.len(),
    ensures
        r@ == s@.subrange(from as int, s@.len() as int),
{
    let n = s.unicode_len();
    let t = s.substring_char(from, n);
    String::from_str(t)
}

/// `s` with every leading `c` removed.
pub fn trim_start_char(s: &str, c: char) -> (r: String)
    ensures
        r@ == trim_start(s@, c),
{
    let n = s.unicode_len();
    let mut i: usize = 0;
    assert(s@.subrange(0, n as int) =~= s@);
    while i < n && s.get_char(i) == c
        invariant
            n == s@.len(),
            i <= n,
            trim_start(s@, c) == trim_start(s@.subrange(i as int, n as int), c),
        decreases n - i,
    {
        assert(s@.subrange(i as int, n as int).subrange(1, (n - i) as int) =~= s@.subrange(
            i + 1,
            n as int,
        ));
        i = i + 1;
    }
    assert(trim_start(s@.subrange(i as int, n as int), c) == s@.subrange(i as int, n as int));
    tail_from(s, i)
}

/// Whether `a` and `b` hold the same characters.
pub fn str_eq(a: &str, b: &str) -> (r: bool)
    ensures
        r == (a@ == b@),
{
    let r = a.unicode_len() == b.unicode_len() && starts_with(a, b);
    proof {
        if r {
            assert(a@ =~= b@);
        }
    }
    r
}

/// `s[k..]` with every occurrence of `p` replaced by `t`, scanning from
/// left to right: occurrences do not overlap, the leftmost wins.
pub open spec fn replace_from(s: Seq<char>, p: Seq<char>, t: Seq<char>, k: int) -> Seq<char>
    decreases s.len() - k,
{
    if k < 0 || k >= s.len() {
        Seq::empty()
    } else if p.len() == 0 || k + p.len() > s.len() {
        s.subrange(k, s.len() as int)
    } else if s.subrange(k, k + p.len()) == p {
        t + replace_from(s, p, t, k + p.len())
    } else {
        seq![s[k]] + replace_from(s, p, t, k + 1)
    }
}

/// `s` with every occurrence of `p` replaced by `t`.
pub open spec fn replace_all(s: Seq<char>, p: Seq<char>, t: Seq<char>) -> Seq<char> {
    replace_from(s, p, t, 0)
}

/// Whether `p` occurs in `s` at position `k`.
fn matches_at(s: &str, p: &str, k: usize) -> (r: bool)
    requires
        k + p@.len() <= s@.len(),
    ensures
        r == (s@.subrange(k as int, k + p@.len()) == p@),
{
    let n = s.unicode_len();
    let m = p.unicode_len();
    let mut j: usize = 0;
    while j < m
        invariant
            n == s@.len(),
            m == p@.len(),
            k + m <= s@.len(),
            j <= m,
            forall|t: int| 0 <= t < j ==> s@[k + t] == p@[t],
        decreases m - j,
    {
        if s.get_char(k + j) != p.get_char(j) {
            assert(s@.subrange(k as int, k + m)[j as int] != p@[j as int]);
            return false;
        }
        j = j + 1;
    }
    assert(s@.subrange(k as int, k + m) =~= p@);
    true
}

/// `s` with every occurrence of `p` replaced by `t`, left to right.
pub fn replace_str(s: &str, p: &str, t: &str) -> (r: String)
    ensures
        r@ == replace_all(s@, p@, t@),
{
    let n = s.unicode_len();
    let m = p.unicode_len();
    let mut out = String::new();
    let mut k: usize = 0;
    while k < n
        invariant
            n == s@.len(),
            m == p@.len(),
            k <= n,
            out@ + replace_from(s@, p@, t@, k as int) == replace_from(s@, p@, t@, 0),
        decreases n - k,
    {
        if m > 0 && m <= n - k && matches_at(s, p, k) {
            let ghost before = out@;
            out.append(t);
            assert(before + replace_from(s@, p@, t@, k as int) =~= out@ + replace_from(
                s@,
                p@,
                t@,
                k + m,
            ));
            k = k + m;
        } else if m == 0 || m > n - k {
            let ghost before = out@;
            out.append(s.substring_char(k, n));
            assert(replace_from(s@, p@, t@, n as int) =~= Seq::<char>::empty());
            assert(before + replace_from(s@, p@, t@, k as int) =~= out@ + replace_from(
                s@,
                p@,
                t@,
                n as int,
            ));
            k = n;
        } else {
            let ghost before = out@;
            out.append(s.substring_char(k, k + 1));
            assert(s@.subrange(k as int, k + 1) =~= seq![s@[k as int]]);
            assert(before + replace_from(s@, p@, t@, k as int) =~= out@ + replace_from(
                s@,
                p@,
                t@,
                k + 1,
            ));
            k = k + 1;
        }
    }
    assert(replace_from(s@, p@, t@, k as int) =~= Seq::<char>::empty());
    assert(out@ =~= out@ + Seq::<char>::empty());
    out
}

} // verus!
