//! Route parameter parsing: static-asset size names and cookie headers.

use vstd::prelude::*;

use crate::openrtb::is_space_char;
use crate::strutil::{parse_i64_str, spec_parse_i64_chars};

verus! {

/// First index at or after `i` where `c` occurs in `s`, or `s.len()`.
pub open spec fn spec_find_char(s: Seq<char>, c: char, i: int) -> int
    decreases s.len() - i,
{
    if i < 0 || i >= s.len() {
        s.len() as int
    } else if s[i] == c {
        i
    } else {
        spec_find_char(s, c, i + 1)
    }
}

proof fn lemma_find_char_skips(s: Seq<char>, c: char, i: int, j: int)
    requires
        0 <= i <= j <= s.len(),
        forall|k: int| i <= k < j ==> s[k] != c,
    ensures
        spec_find_char(s, c, i) == spec_find_char(s, c, j),
    decreases j - i,
{
    if i < j {
        lemma_find_char_skips(s, c, i + 1, j);
    }
}

/// Finds the first occurrence of `c` in `s@[from..)`, returning `s@.len()`
/// when there is none.
fn find_char(s: &str, from: usize, c: char) -> (r: usize)
    requires
        from <= s@.len(),
    ensures
        r == spec_find_char(s@, c, from as int),
        from <= r <= s@.len(),
        r < s@.len() ==> s@[r as int] == c,
{
    let n = s.unicode_len();
    let mut i: usize = from;
    while i < n
        invariant
            from <= i <= n,
            n == s@.len(),
            forall|k: int| from <= k < i ==> s@[k] != c,
        decreases n - i,
    {
        if s.get_char(i) == c {
            proof {
                lemma_find_char_skips(s@, c, from as int, i as int);
            }
            return i;
        }
        i = i + 1;
    }
    proof {
        lemma_find_char_skips(s@, c, from as int, s@.len() as int);
    }
    n
}

/// First index at or after `i` of a query separator ('?' or '&'), or
/// `s.len()`.
pub open spec fn spec_find_sep(s: Seq<char>, i: int) -> int
    decreases s.len() - i,
{
    if i < 0 || i >= s.len() {
        s.len() as int
    } else if s[i] == '?' || s[i] == '&' {
        i
    } else {
        spec_find_sep(s, i + 1)
    }
}

proof fn lemma_find_sep_skips(s: Seq<char>, i: int, j: int)
    requires
        0 <= i <= j <= s.len(),
        forall|k: int| i <= k < j ==> s[k] != '?' && s[k] != '&',
    ensures
        spec_find_sep(s, i) == spec_find_sep(s, j),
    decreases j - i,
{
    if i < j {
        lemma_find_sep_skips(s, i + 1, j);
    }
}

fn find_sep(s: &str) -> (r: usize)
    ensures
        r == spec_find_sep(s@, 0),
        r <= s@.len(),
{
    let n = s.unicode_len();
    let mut i: usize = 0;
    while i < n
        invariant
            0 <= i <= n,
            n == s@.len(),
            forall|k: int| 0 <= k < i ==> s@[k] != '?' && s@[k] != '&',
        decreases n - i,
    {
        let c = s.get_char(i);
        if c == '?' || c == '&' {
            proof {
                lemma_find_sep_skips(s@, 0, i as int);
            }
            return i;
        }
        i = i + 1;
    }
    proof {
        lemma_find_sep_skips(s@, 0, s@.len() as int);
    }
    n
}

/// The size a static-asset name denotes: everything after a '?' or '&'
/// is dropped, the suffix must match, and what remains must read as
/// "<width>x<height>" (the height ending at the next 'x', if any).
pub open spec fn spec_parse_size_param(s: Seq<char>, suffix: Seq<char>) -> Option<(int, int)> {
    let cleaned = s.take(spec_find_sep(s, 0));
    if cleaned.len() >= suffix.len() && cleaned.skip(cleaned.len() - suffix.len()) == suffix {
        let core = cleaned.take(cleaned.len() - suffix.len());
        let p1 = spec_find_char(core, 'x', 0);
        if p1 < core.len() {
            let piece1 = core.take(p1);
            let p2 = spec_find_char(core, 'x', p1 + 1);
            let piece2 = core.subrange(p1 + 1, p2);
            match spec_parse_i64_chars(piece1) {
                Some(w) => match spec_parse_i64_chars(piece2) {
                    Some(h) => Some((w, h)),
                    None => None,
                },
                None => None,
            }
        } else {
            None
        }
    } else {
        None
    }
}

/// Parses a static-asset size name such as "300x250.svg".
pub fn parse_size_param(size: &str, suffix: &str) -> (r: Option<(i64, i64)>)
    ensures
        match r {
            Some((w, h)) => spec_parse_size_param(size@, suffix@) == Some((w as int, h as int)),
            None => spec_parse_size_param(size@, suffix@) is None,
        },
{
    let n = size.unicode_len();
    let sep = find_sep(size);
    let ghost cleaned = size@.take(sep as int);
    let m = suffix.unicode_len();
    if sep < m {
        return None;
    }
    let core_len = sep - m;
    // check the suffix character by character
    let mut k: usize = 0;
    while k < m
        invariant
            0 <= k <= m,
            m == suffix@.len(),
            core_len + m == sep <= size@.len(),
            sep == spec_find_sep(size@, 0),
            cleaned == size@.take(sep as int),
            forall|k2: int| 0 <= k2 < k ==> cleaned[core_len + k2] == suffix@[k2],
        decreases m - k,
    {
        if size.get_char(core_len + k) != suffix.get_char(k) {
            proof {
                assert(cleaned.skip(core_len as int)[k as int] != suffix@[k as int]);
            }
            return None;
        }
        k = k + 1;
    }
    proof {
        assert(cleaned.skip(core_len as int) =~= suffix@);
    }
    let ghost core = cleaned.take(core_len as int);
    proof {
        assert(core =~= size@.take(core_len as int));
    }
    // find the 'x' separating width from height
    let p1 = find_char(size, 0, 'x');
    proof {
        lemma_find_char_prefix(size@, core, 'x', 0);
    }
    if p1 >= core_len {
        proof {
            assert(spec_find_char(core, 'x', 0) == core.len());
        }
        return None;
    }
    let p2 = find_char(size, p1 + 1, 'x');
    let p2c = if p2 > core_len {
        core_len
    } else {
        p2
    };
    let ghost p2core = spec_find_char(core, 'x', p1 as int + 1);
    proof {
        lemma_find_char_prefix(size@, core, 'x', p1 as int + 1);
        assert(p2core == p2c as int);
        assert(core.take(p1 as int) =~= size@.subrange(0, p1 as int));
        assert(core.subrange(p1 as int + 1, p2core) =~= size@.subrange(
            p1 as int + 1,
            p2c as int,
        ));
    }
    let w = match parse_i64_str(size, 0, p1) {
        Some(w) => w,
        None => {
            return None;
        },
    };
    let h = match parse_i64_str(size, p1 + 1, p2c) {
        Some(h) => h,
        None => {
            return None;
        },
    };
    Some((w, h))
}

/// Finding a character inside a prefix of `s` agrees with finding it in
/// `s`, as long as the search stays inside the prefix.
proof fn lemma_find_char_bounds(s: Seq<char>, c: char, i: int)
    requires
        0 <= i <= s.len(),
    ensures
        i <= spec_find_char(s, c, i) <= s.len(),
    decreases s.len() - i,
{
    if i < s.len() && s[i] != c {
        lemma_find_char_bounds(s, c, i + 1);
    }
}

proof fn lemma_find_char_prefix(s: Seq<char>, pre: Seq<char>, c: char, i: int)
    requires
        pre =~= s.take(pre.len() as int),
        pre.len() <= s.len(),
        0 <= i <= pre.len(),
    ensures
        spec_find_char(s, c, i) < pre.len() ==> spec_find_char(pre, c, i) == spec_find_char(
            s,
            c,
            i,
        ),
        spec_find_char(s, c, i) >= pre.len() ==> spec_find_char(pre, c, i) == pre.len(),
    decreases pre.len() - i,
{
    if i < pre.len() {
        if s[i] != c {
            lemma_find_char_prefix(s, pre, c, i + 1);
        }
    } else {
        lemma_find_char_bounds(s, c, i);
    }
}

/// A static asset format and its file suffix.
pub enum AssetFormat {
    Svg,
    Html,
}

impl AssetFormat {
    /// The file suffix of this format.
    pub fn suffix(&self) -> (r: &'static str)
        ensures
            *self is Svg ==> r@ == ".svg"@,
            *self is Html ==> r@ == ".html"@,
    {
        match self {
            AssetFormat::Svg => ".svg",
            AssetFormat::Html => ".html",
        }
    }
}

/// A size path parameter is acceptable when it parses under either
/// format's suffix.
pub fn validate_static_asset_size(value: &str) -> (r: bool)
    ensures
        r == (spec_parse_size_param(value@, ".svg"@) is Some || spec_parse_size_param(
            value@,
            ".html"@,
        ) is Some),
{
    if parse_size_param(value, ".svg").is_some() {
        return true;
    }
    if parse_size_param(value, ".html").is_some() {
        return true;
    }
    false
}

/// `s` without its leading ASCII whitespace.
pub open spec fn spec_trim_start(s: Seq<char>) -> Seq<char>
    decreases s.len(),
{
    if s.len() > 0 && is_space_char(s[0]) {
        spec_trim_start(s.skip(1))
    } else {
        s
    }
}

/// `s` without its trailing ASCII whitespace.
pub open spec fn spec_trim_end(s: Seq<char>) -> Seq<char>
    decreases s.len(),
{
    if s.len() > 0 && is_space_char(s.last()) {
        spec_trim_end(s.drop_last())
    } else {
        s
    }
}

/// `s` without leading and trailing ASCII whitespace.
pub open spec fn spec_trim(s: Seq<char>) -> Seq<char> {
    spec_trim_end(spec_trim_start(s))
}

proof fn lemma_trim_start_skip(s: Seq<char>, k: int)
    requires
        0 <= k <= s.len(),
        forall|j: int| 0 <= j < k ==> is_space_char(#[trigger] s[j]),
        k == s.len() || !is_space_char(s[k]),
    ensures
        spec_trim_start(s) == s.skip(k),
    decreases k,
{
    if k == 0 {
        assert(s.skip(0) =~= s);
    } else {
        assert(is_space_char(s[0]));
        lemma_trim_start_skip(s.skip(1), k - 1);
        assert(s.skip(1).skip(k - 1) =~= s.skip(k));
    }
}

proof fn lemma_trim_end_take(s: Seq<char>, k: int)
    requires
        0 <= k <= s.len(),
        forall|j: int| k <= j < s.len() ==> is_space_char(#[trigger] s[j]),
        k == 0 || !is_space_char(s[k - 1]),
    ensures
        spec_trim_end(s) == s.take(k),
    decreases s.len() - k,
{
    if k == s.len() {
        assert(s.take(k) =~= s);
        if s.len() > 0 {
            assert(!is_space_char(s.last()));
        }
    } else {
        assert(is_space_char(s.last()));
        lemma_trim_end_take(s.drop_last(), k);
        assert(s.drop_last().take(k) =~= s.take(k));
    }
}

/// True when the character at `i` is ASCII whitespace.
fn is_space_at(s: &str, i: usize) -> (r: bool)
    requires
        i < s@.len(),
    ensures
        r == is_space_char(s@[i as int]),
{
    let c = s.get_char(i);
    c == ' ' || c == '\t' || c == '\n' || c == '\r'
}

/// Trims ASCII whitespace from both ends of `s@[a..b)`, returning the
/// trimmed bounds.
fn trim_range(s: &str, a: usize, b: usize) -> (r: (usize, usize))
    requires
        a <= b <= s@.len(),
    ensures
        a <= r.0 <= r.1 <= b,
        spec_trim(s@.subrange(a as int, b as int)) == s@.subrange(r.0 as int, r.1 as int),
{
    let ghost sub = s@.subrange(a as int, b as int);
    let mut ta: usize = a;
    while ta < b && is_space_at(s, ta)
        invariant
            a <= ta <= b <= s@.len(),
            sub == s@.subrange(a as int, b as int),
            forall|j: int| 0 <= j < ta - a ==> is_space_char(#[trigger] sub[j]),
        decreases b - ta,
    {
        ta = ta + 1;
    }
    proof {
        lemma_trim_start_skip(sub, ta - a);
        assert(sub.skip(ta - a) =~= s@.subrange(ta as int, b as int));
    }
    let ghost mid = s@.subrange(ta as int, b as int);
    let mut tb: usize = b;
    while tb > ta && is_space_at(s, tb - 1)
        invariant
            ta <= tb <= b <= s@.len(),
            mid == s@.subrange(ta as int, b as int),
            forall|j: int| tb - ta <= j < mid.len() ==> is_space_char(#[trigger] mid[j]),
        decreases tb,
    {
        tb = tb - 1;
    }
    proof {
        lemma_trim_end_take(mid, tb - ta);
        assert(mid.take(tb - ta) =~= s@.subrange(ta as int, tb as int));
    }
    (ta, tb)
}

/// Finds `c` inside `s@[from..to)`; returns `to` when absent.  The result
/// is phrased over the subrange, offset by `from`.
fn find_char_in(s: &str, from: usize, to: usize, c: char) -> (r: usize)
    requires
        from <= to <= s@.len(),
    ensures
        from <= r <= to,
        r - from == spec_find_char(s@.subrange(from as int, to as int), c, 0),
{
    let ghost t = s@.subrange(from as int, to as int);
    let mut i: usize = from;
    while i < to
        invariant
            from <= i <= to <= s@.len(),
            t == s@.subrange(from as int, to as int),
            forall|k: int| 0 <= k < i - from ==> t[k] != c,
        decreases to - i,
    {
        if s.get_char(i) == c {
            proof {
                lemma_find_char_skips(t, c, 0, i - from);
            }
            return i;
        }
        i = i + 1;
    }
    proof {
        lemma_find_char_skips(t, c, 0, t.len() as int);
    }
    to
}

/// True when `s@[a..b)` equals `t@`.
fn range_eq_str(s: &str, a: usize, b: usize, t: &str) -> (r: bool)
    requires
        a <= b <= s@.len(),
    ensures
        r == (s@.subrange(a as int, b as int) == t@),
{
    let m = t.unicode_len();
    if b - a != m {
        proof {
            assert(s@.subrange(a as int, b as int).len() != t@.len());
        }
        return false;
    }
    let mut k: usize = 0;
    while k < m
        invariant
            0 <= k <= m,
            m == t@.len(),
            a + m == b <= s@.len(),
            forall|j: int| 0 <= j < k ==> s@.subrange(a as int, b as int)[j] == t@[j],
        decreases m - k,
    {
        if s.get_char(a + k) != t.get_char(k) {
            proof {
                assert(s@.subrange(a as int, b as int)[k as int] != t@[k as int]);
            }
            return false;
        }
        k = k + 1;
    }
    proof {
        assert(s@.subrange(a as int, b as int) =~= t@);
    }
    true
}

/// Copies `s@[a..b)` into a fresh string.
fn copy_range(s: &str, a: usize, b: usize) -> (r: String)
    requires
        a <= b <= s@.len(),
    ensures
        r@ == s@.subrange(a as int, b as int),
{
    let mut out = String::new();
    let mut i: usize = a;
    while i < b
        invariant
            a <= i <= b <= s@.len(),
            out@ == s@.subrange(a as int, i as int),
        decreases b - i,
    {
        out.push(s.get_char(i));
        proof {
            assert(s@.subrange(a as int, i + 1) =~= s@.subrange(a as int, i as int).push(
                s@[i as int],
            ));
        }
        i = i + 1;
    }
    out
}

/// The value one "key=value" part yields for `name`: the part is trimmed,
/// split at its first '=', and matches when its trimmed key equals
/// `name`; the value comes back trimmed.
pub open spec fn spec_part_value(part: Seq<char>, name: Seq<char>) -> Option<Seq<char>> {
    let t = spec_trim(part);
    let e = spec_find_char(t, '=', 0);
    if e < t.len() {
        if spec_trim(t.take(e)) == name {
            Some(spec_trim(t.skip(e + 1)))
        } else {
            None
        }
    } else {
        None
    }
}

/// The value of the first ';'-separated part, at or after `i`, whose key
/// is `name`.
pub open spec fn spec_cookie_lookup(h: Seq<char>, name: Seq<char>, i: int) -> Option<Seq<char>>
    decreases h.len() - i,
    via spec_cookie_lookup_dec
{
    if i < 0 || i > h.len() {
        None
    } else {
        let j = spec_find_char(h, ';', i);
        match spec_part_value(h.subrange(i, j), name) {
            Some(v) => Some(v),
            None => {
                if j >= h.len() {
                    None
                } else {
                    spec_cookie_lookup(h, name, j + 1)
                }
            },
        }
    }
}

#[via_fn]
proof fn spec_cookie_lookup_dec(h: Seq<char>, name: Seq<char>, i: int) {
    if 0 <= i <= h.len() {
        lemma_find_char_bounds(h, ';', i);
    }
}

/// Extracts the value of the cookie called `name` from a Cookie header.
pub fn parse_cookie(cookie_header: &str, name: &str) -> (r: Option<String>)
    ensures
        match r {
            Some(v) => spec_cookie_lookup(cookie_header@, name@, 0) == Some(v@),
            None => spec_cookie_lookup(cookie_header@, name@, 0) is None,
        },
{
    let n = cookie_header.unicode_len();
    let mut i: usize = 0;
    loop
        invariant
            0 <= i <= n,
            n == cookie_header@.len(),
            spec_cookie_lookup(cookie_header@, name@, 0) == spec_cookie_lookup(
                cookie_header@,
                name@,
                i as int,
            ),
        decreases n - i,
    {
        let j = find_char(cookie_header, i, ';');
        proof {
            lemma_find_char_bounds(cookie_header@, ';', i as int);
        }
        // evaluate the part [i, j)
        let (ta, tb) = trim_range(cookie_header, i, j);
        let ghost tpart = spec_trim(cookie_header@.subrange(i as int, j as int));
        let e = find_char_in(cookie_header, ta, tb, '=');
        proof {
            assert(tpart == cookie_header@.subrange(ta as int, tb as int));
        }
        if e < tb {
            proof {
                assert(tpart.take(e - ta) =~= cookie_header@.subrange(ta as int, e as int));
                assert(tpart.skip(e - ta + 1) =~= cookie_header@.subrange(
                    e as int + 1,
                    tb as int,
                ));
            }
            let (ka, kb) = trim_range(cookie_header, ta, e);
            if range_eq_str(cookie_header, ka, kb, name) {
                let (va, vb) = trim_range(cookie_header, e + 1, tb);
                return Some(copy_range(cookie_header, va, vb));
            }
        }
        if j >= n {
            return None;
        }
        i = j + 1;
    }
}

} // verus!
