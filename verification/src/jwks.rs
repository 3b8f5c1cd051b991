//! Parser for the well-known key-set document.
//!
//! The document is the JSON object `{"keys":[{"kid": "...", "x": "..."},
//! ...]}`.  The grammar accepted here is a strict subset of JSON: ASCII
//! only, strings without escape sequences, each key object carrying
//! exactly the two members "kid" and "x" in either order.  Anything else
//! is rejected, as a malformed document would be.

use vstd::prelude::*;

use crate::verification::JwkKey;

verus! {

/// JSON insignificant whitespace.
pub open spec fn is_ws_byte(b: u8) -> bool {
    b == 32 || b == 9 || b == 10 || b == 13
}

/// A byte allowed inside a string literal: printable ASCII except the
/// quote and the backslash.
pub open spec fn is_string_byte(b: u8) -> bool {
    32 <= b <= 126 && b != 34 && b != 92
}

/// First non-whitespace position at or after `i`.
pub open spec fn spec_skip_ws(s: Seq<u8>, i: int) -> int
    decreases s.len() - i,
{
    if i < 0 || i >= s.len() {
        s.len() as int
    } else if is_ws_byte(s[i]) {
        spec_skip_ws(s, i + 1)
    } else {
        i
    }
}

proof fn lemma_skip_ws_bounds(s: Seq<u8>, i: int)
    requires
        0 <= i <= s.len(),
    ensures
        i <= spec_skip_ws(s, i) <= s.len(),
    decreases s.len() - i,
{
    if i < s.len() && is_ws_byte(s[i]) {
        lemma_skip_ws_bounds(s, i + 1);
    }
}

/// The rest of a string literal, after its opening quote: the characters
/// up to the closing quote, and the position after it.
pub open spec fn spec_parse_str_rest(s: Seq<u8>, i: int) -> Option<(Seq<char>, int)>
    decreases s.len() - i,
{
    if i < 0 || i >= s.len() {
        None
    } else if s[i] == 34 {
        Some((Seq::empty(), i + 1))
    } else if is_string_byte(s[i]) {
        match spec_parse_str_rest(s, i + 1) {
            Some((t, j)) => Some((seq![s[i] as char] + t, j)),
            None => None,
        }
    } else {
        None
    }
}

/// A string literal starting at `i`.
pub open spec fn spec_parse_string(s: Seq<u8>, i: int) -> Option<(Seq<char>, int)> {
    if 0 <= i < s.len() && s[i] == 34 {
        spec_parse_str_rest(s, i + 1)
    } else {
        None
    }
}

proof fn lemma_str_rest_advances(s: Seq<u8>, i: int)
    requires
        0 <= i <= s.len(),
    ensures
        match spec_parse_str_rest(s, i) {
            Some(r) => i < r.1 <= s.len(),
            None => true,
        },
    decreases s.len() - i,
{
    if i < s.len() && s[i] != 34 && is_string_byte(s[i]) {
        lemma_str_rest_advances(s, i + 1);
    }
}

proof fn lemma_string_advances(s: Seq<u8>, i: int)
    ensures
        match spec_parse_string(s, i) {
            Some(r) => i < r.1 <= s.len(),
            None => true,
        },
{
    if 0 <= i < s.len() && s[i] == 34 {
        lemma_str_rest_advances(s, i + 1);
    }
}

/// One `"name" : "value"` member starting at `i`.
pub open spec fn spec_parse_member(s: Seq<u8>, i: int) -> Option<((Seq<char>, Seq<char>), int)> {
    match spec_parse_string(s, i) {
        Some((name, j)) => {
            let j2 = spec_skip_ws(s, j);
            if j2 < s.len() && s[j2] == 58 {
                let j3 = spec_skip_ws(s, j2 + 1);
                match spec_parse_string(s, j3) {
                    Some((v, j4)) => Some(((name, v), j4)),
                    None => None,
                }
            } else {
                None
            }
        },
        None => None,
    }
}

proof fn lemma_member_advances(s: Seq<u8>, i: int)
    requires
        0 <= i <= s.len(),
    ensures
        match spec_parse_member(s, i) {
            Some(r) => i < r.1 <= s.len(),
            None => true,
        },
{
    lemma_string_advances(s, i);
    match spec_parse_string(s, i) {
        Some((name, j)) => {
            lemma_skip_ws_bounds(s, j);
            let j2 = spec_skip_ws(s, j);
            if j2 < s.len() && s[j2] == 58 {
                lemma_skip_ws_bounds(s, j2 + 1);
                lemma_string_advances(s, spec_skip_ws(s, j2 + 1));
            }
        },
        None => (),
    }
}

/// One key object starting at `i`: exactly the members "kid" and "x", in
/// either order.  Yields (kid, x).
pub open spec fn spec_parse_key_obj(s: Seq<u8>, i: int) -> Option<((Seq<char>, Seq<char>), int)> {
    if 0 <= i < s.len() && s[i] == 123 {
        let j = spec_skip_ws(s, i + 1);
        match spec_parse_member(s, j) {
            Some((m1, j1)) => {
                let j2 = spec_skip_ws(s, j1);
                if j2 < s.len() && s[j2] == 44 {
                    let j3 = spec_skip_ws(s, j2 + 1);
                    match spec_parse_member(s, j3) {
                        Some((m2, j4)) => {
                            let j5 = spec_skip_ws(s, j4);
                            if j5 < s.len() && s[j5] == 125 {
                                if m1.0 == "kid"@ && m2.0 == "x"@ {
                                    Some(((m1.1, m2.1), j5 + 1))
                                } else if m1.0 == "x"@ && m2.0 == "kid"@ {
                                    Some(((m2.1, m1.1), j5 + 1))
                                } else {
                                    None
                                }
                            } else {
                                None
                            }
                        },
                        None => None,
                    }
                } else {
                    None
                }
            },
            None => None,
        }
    } else {
        None
    }
}

proof fn lemma_key_obj_advances(s: Seq<u8>, i: int)
    requires
        0 <= i <= s.len(),
    ensures
        match spec_parse_key_obj(s, i) {
            Some(r) => i < r.1 <= s.len(),
            None => true,
        },
{
    if 0 <= i < s.len() && s[i] == 123 {
        lemma_skip_ws_bounds(s, i + 1);
        let j = spec_skip_ws(s, i + 1);
        lemma_member_advances(s, j);
        match spec_parse_member(s, j) {
            Some((m1, j1)) => {
                lemma_skip_ws_bounds(s, j1);
                let j2 = spec_skip_ws(s, j1);
                if j2 < s.len() && s[j2] == 44 {
                    lemma_skip_ws_bounds(s, j2 + 1);
                    let j3 = spec_skip_ws(s, j2 + 1);
                    lemma_member_advances(s, j3);
                    match spec_parse_member(s, j3) {
                        Some((m2, j4)) => {
                            lemma_skip_ws_bounds(s, j4);
                        },
                        None => (),
                    }
                }
            },
            None => (),
        }
    }
}

/// The tail of a key list, standing just after a parsed object: either
/// a closing ']' or a ',' followed by another object and the rest.
pub open spec fn spec_parse_keys_rest(s: Seq<u8>, i: int) -> Option<
    (Seq<(Seq<char>, Seq<char>)>, int),
>
    decreases s.len() - i,
    via spec_parse_keys_rest_dec
{
    if i < 0 || i > s.len() {
        None
    } else {
        let j = spec_skip_ws(s, i);
        if j < s.len() && s[j] == 93 {
            Some((Seq::empty(), j + 1))
        } else if j < s.len() && s[j] == 44 {
            let j2 = spec_skip_ws(s, j + 1);
            match spec_parse_key_obj(s, j2) {
                Some((kv, j3)) => match spec_parse_keys_rest(s, j3) {
                    Some((rest, j4)) => Some((seq![kv] + rest, j4)),
                    None => None,
                },
                None => None,
            }
        } else {
            None
        }
    }
}

#[via_fn]
proof fn spec_parse_keys_rest_dec(s: Seq<u8>, i: int) {
    if 0 <= i <= s.len() {
        lemma_skip_ws_bounds(s, i);
        let j = spec_skip_ws(s, i);
        if j < s.len() && s[j] == 44 {
            lemma_skip_ws_bounds(s, j + 1);
            lemma_key_obj_advances(s, spec_skip_ws(s, j + 1));
        }
    }
}

/// A key list starting at `i`: '[' then objects separated by commas, or
/// nothing, then ']'.
pub open spec fn spec_parse_key_list(s: Seq<u8>, i: int) -> Option<
    (Seq<(Seq<char>, Seq<char>)>, int),
> {
    if 0 <= i < s.len() && s[i] == 91 {
        let j = spec_skip_ws(s, i + 1);
        if j < s.len() && s[j] == 93 {
            Some((Seq::empty(), j + 1))
        } else {
            match spec_parse_key_obj(s, j) {
                Some((kv, j2)) => match spec_parse_keys_rest(s, j2) {
                    Some((rest, j3)) => Some((seq![kv] + rest, j3)),
                    None => None,
                },
                None => None,
            }
        }
    } else {
        None
    }
}

/// The whole document: `{"keys": [...]}` with nothing but whitespace
/// around it.  Yields the (kid, x) pairs in order.
pub open spec fn spec_parse_key_set(s: Seq<u8>) -> Option<Seq<(Seq<char>, Seq<char>)>> {
    let i = spec_skip_ws(s, 0);
    if i < s.len() && s[i] == 123 {
        let j = spec_skip_ws(s, i + 1);
        match spec_parse_string(s, j) {
            Some((name, j2)) => {
                if name == "keys"@ {
                    let j3 = spec_skip_ws(s, j2);
                    if j3 < s.len() && s[j3] == 58 {
                        let j4 = spec_skip_ws(s, j3 + 1);
                        match spec_parse_key_list(s, j4) {
                            Some((keys, j5)) => {
                                let j6 = spec_skip_ws(s, j5);
                                if j6 < s.len() && s[j6] == 125 {
                                    if spec_skip_ws(s, j6 + 1) == s.len() {
                                        Some(keys)
                                    } else {
                                        None
                                    }
                                } else {
                                    None
                                }
                            },
                            None => None,
                        }
                    } else {
                        None
                    }
                } else {
                    None
                }
            },
            None => None,
        }
    } else {
        None
    }
}

/// Skips insignificant whitespace.
fn skip_ws(v: &Vec<u8>, i: usize) -> (r: usize)
    requires
        i <= v@.len(),
    ensures
        r == spec_skip_ws(v@, i as int),
        i <= r <= v@.len(),
{
    let mut k: usize = i;
    while k < v.len() && (v[k] == 32 || v[k] == 9 || v[k] == 10 || v[k] == 13)
        invariant
            i <= k <= v@.len(),
            spec_skip_ws(v@, i as int) == spec_skip_ws(v@, k as int),
        decreases v@.len() - k,
    {
        k = k + 1;
    }
    k
}

/// Parses a string literal at `i`.
fn parse_string_at(v: &Vec<u8>, i: usize) -> (r: Option<(String, usize)>)
    requires
        i <= v@.len(),
    ensures
        match r {
            Some((t, j)) => spec_parse_string(v@, i as int) == Some((t@, j as int)) && i < j
                <= v@.len(),
            None => spec_parse_string(v@, i as int) is None,
        },
{
    if i >= v.len() || v[i] != 34 {
        return None;
    }
    let mut out = String::new();
    proof {
        assert forall|t: Seq<char>| true implies out@ + t =~= t by {}
    }
    let mut k: usize = i + 1;
    loop
        invariant
            i < v@.len(),
            v@[i as int] == 34,
            i + 1 <= k <= v@.len(),
            spec_parse_str_rest(v@, i as int + 1) == (match spec_parse_str_rest(v@, k as int) {
                Some((t, j)) => Some((out@ + t, j)),
                None => None::<(Seq<char>, int)>,
            }),
        decreases v@.len() - k,
    {
        if k >= v.len() {
            return None;
        }
        let b = v[k];
        if b == 34 {
            proof {
                assert(out@ + Seq::<char>::empty() =~= out@);
            }
            return Some((out, k + 1));
        }
        if !(32 <= b && b <= 126) || b == 92 {
            return None;
        }
        let c = b as char;
        let ghost old_out = out@;
        out.push(c);
        proof {
            assert forall|t: Seq<char>| true implies old_out + (seq![c] + t) =~= out@ + t by {}
        }
        k = k + 1;
    }
}

/// Parses one `"name" : "value"` member at `i`.
fn parse_member_at(v: &Vec<u8>, i: usize) -> (r: Option<(String, String, usize)>)
    requires
        i <= v@.len(),
    ensures
        match r {
            Some((name, val, j)) => spec_parse_member(v@, i as int) == Some(
                ((name@, val@), j as int),
            ) && i < j <= v@.len(),
            None => spec_parse_member(v@, i as int) is None,
        },
{
    let (name, j) = match parse_string_at(v, i) {
        Some(p) => p,
        None => {
            return None;
        },
    };
    let j2 = skip_ws(v, j);
    if j2 >= v.len() || v[j2] != 58 {
        return None;
    }
    let j3 = skip_ws(v, j2 + 1);
    let (val, j4) = match parse_string_at(v, j3) {
        Some(p) => p,
        None => {
            return None;
        },
    };
    Some((name, val, j4))
}

/// Parses one key object at `i`, yielding the key it describes.
fn parse_key_obj_at(v: &Vec<u8>, i: usize) -> (r: Option<(JwkKey, usize)>)
    requires
        i <= v@.len(),
    ensures
        match r {
            Some((key, j)) => spec_parse_key_obj(v@, i as int) == Some(
                ((key.kid@, key.x@), j as int),
            ) && i < j <= v@.len(),
            None => spec_parse_key_obj(v@, i as int) is None,
        },
{
    if i >= v.len() || v[i] != 123 {
        return None;
    }
    let j = skip_ws(v, i + 1);
    let (n1, v1, j1) = match parse_member_at(v, j) {
        Some(p) => p,
        None => {
            return None;
        },
    };
    let j2 = skip_ws(v, j1);
    if j2 >= v.len() || v[j2] != 44 {
        return None;
    }
    let j3 = skip_ws(v, j2 + 1);
    let (n2, v2, j4) = match parse_member_at(v, j3) {
        Some(p) => p,
        None => {
            return None;
        },
    };
    let j5 = skip_ws(v, j4);
    if j5 >= v.len() || v[j5] != 125 {
        return None;
    }
    proof {
        reveal_strlit("kid");
        reveal_strlit("x");
    }
    if n1.as_str().eq("kid") && n2.as_str().eq("x") {
        Some((JwkKey { kid: v1, x: v2 }, j5 + 1))
    } else if n1.as_str().eq("x") && n2.as_str().eq("kid") {
        Some((JwkKey { kid: v2, x: v1 }, j5 + 1))
    } else {
        None
    }
}

/// The (kid, x) views of a key list.
pub open spec fn spec_key_views(keys: Seq<JwkKey>) -> Seq<(Seq<char>, Seq<char>)> {
    keys.map_values(|k: JwkKey| (k.kid@, k.x@))
}

/// Parses the key list starting at `i` (at its '[').
fn parse_key_list_at(v: &Vec<u8>, i: usize) -> (r: Option<(Vec<JwkKey>, usize)>)
    requires
        i <= v@.len(),
    ensures
        match r {
            Some((keys, j)) => spec_parse_key_list(v@, i as int) == Some(
                (spec_key_views(keys@), j as int),
            ) && j <= v@.len(),
            None => spec_parse_key_list(v@, i as int) is None,
        },
{
    if i >= v.len() || v[i] != 91 {
        return None;
    }
    let j = skip_ws(v, i + 1);
    let mut keys: Vec<JwkKey> = Vec::new();
    if j < v.len() && v[j] == 93 {
        proof {
            assert(spec_key_views(keys@) =~= Seq::<(Seq<char>, Seq<char>)>::empty());
        }
        return Some((keys, j + 1));
    }
    let (first, mut pos) = match parse_key_obj_at(v, j) {
        Some(p) => p,
        None => {
            return None;
        },
    };
    let ghost first_kv = (first.kid@, first.x@);
    keys.push(first);
    proof {
        assert(spec_key_views(keys@) =~= seq![first_kv]);
    }
    loop
        invariant
            pos <= v@.len(),
            spec_key_views(keys@).len() >= 1,
            (match spec_parse_keys_rest(v@, pos as int) {
                Some((rest, e)) => spec_parse_key_list(v@, i as int) == Some(
                    (spec_key_views(keys@) + rest, e),
                ),
                None => spec_parse_key_list(v@, i as int) is None,
            }),
        decreases v@.len() - pos,
    {
        let j2 = skip_ws(v, pos);
        if j2 < v.len() && v[j2] == 93 {
            proof {
                assert(spec_key_views(keys@) + Seq::<(Seq<char>, Seq<char>)>::empty()
                    =~= spec_key_views(keys@));
            }
            return Some((keys, j2 + 1));
        }
        if !(j2 < v.len() && v[j2] == 44) {
            return None;
        }
        let j3 = skip_ws(v, j2 + 1);
        let (key, npos) = match parse_key_obj_at(v, j3) {
            Some(p) => p,
            None => {
                return None;
            },
        };
        let ghost kv = (key.kid@, key.x@);
        let ghost old_keys = keys@;
        keys.push(key);
        proof {
            assert(spec_key_views(keys@) =~= spec_key_views(old_keys).push(kv));
            assert forall|rest: Seq<(Seq<char>, Seq<char>)>| true implies spec_key_views(old_keys)
                + (seq![kv] + rest) =~= spec_key_views(keys@) + rest by {}
        }
        pos = npos;
    }
}

/// Parses a key-set document.  Succeeds exactly on documents of the
/// accepted grammar, yielding the keys in document order.
pub fn parse_key_set(v: &Vec<u8>) -> (r: Option<Vec<JwkKey>>)
    ensures
        match r {
            Some(keys) => spec_parse_key_set(v@) == Some(spec_key_views(keys@)),
            None => spec_parse_key_set(v@) is None,
        },
{
    let i = skip_ws(v, 0);
    if i >= v.len() || v[i] != 123 {
        return None;
    }
    let j = skip_ws(v, i + 1);
    let (name, j2) = match parse_string_at(v, j) {
        Some(p) => p,
        None => {
            return None;
        },
    };
    proof {
        reveal_strlit("keys");
    }
    if !name.as_str().eq("keys") {
        return None;
    }
    let j3 = skip_ws(v, j2);
    if j3 >= v.len() || v[j3] != 58 {
        return None;
    }
    let j4 = skip_ws(v, j3 + 1);
    let (keys, j5) = match parse_key_list_at(v, j4) {
        Some(p) => p,
        None => {
            return None;
        },
    };
    let j6 = skip_ws(v, j5);
    if j6 >= v.len() || v[j6] != 125 {
        return None;
    }
    if skip_ws(v, j6 + 1) != v.len() {
        return None;
    }
    Some(keys)
}

} // verus!
