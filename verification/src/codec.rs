//! Opaque price encoding.
//!
//! A price in cents is rendered as decimal dollars and wrapped in base64,
//! standing in for a real exchange's proprietary price obfuscation.  The
//! encoding is reversible; decoding is total and rejects malformed input.

use vstd::prelude::*;

use base64::Engine;

use crate::strutil::{
    all_digit_bytes, digits_val_bytes, is_digit_byte, lemma_digits_val_bytes_nonneg, lemma_u64_bytes_digits,
    parse_digits_bytes, price_bytes, spec_price_bytes, spec_u64_bytes,
};

verus! {

/// The base64 rendering (standard alphabet, padded) of a byte string.
pub uninterp spec fn b64_of(b: Seq<u8>) -> Seq<char>;

/// The byte string whose canonical base64 rendering is `s`, if any.
pub uninterp spec fn b64_decoding(s: Seq<char>) -> Option<Seq<u8>>;

/// Relies on base64's `STANDARD` engine `encode`: the output is the
/// canonical padded rendering of the input, which `decode` reverses.
#[verifier::external_body]
fn b64_encode(b: &Vec<u8>) -> (r: String)
    ensures
        r@ == b64_of(b@),
        b64_decoding(r@) == Some(b@),
{
    base64::engine::general_purpose::STANDARD.encode(b.as_slice())
}

/// Relies on base64's `STANDARD` engine `decode`: strict decoding that
/// accepts exactly the canonical padded renderings and inverts `encode`.
#[verifier::external_body]
fn b64_decode(s: &str) -> (r: Option<Vec<u8>>)
    ensures
        match r {
            Some(v) => b64_decoding(s@) == Some(v@),
            None => b64_decoding(s@) is None,
        },
{
    base64::engine::general_purpose::STANDARD.decode(s.as_bytes()).ok()
}

/// First index of a dot in `s` at or after `i`.
pub open spec fn spec_find_dot(s: Seq<u8>, i: int) -> Option<int>
    decreases s.len() - i,
{
    if i < 0 || i >= s.len() {
        None
    } else if s[i] == 46 {
        Some(i)
    } else {
        spec_find_dot(s, i + 1)
    }
}

/// The price denoted by a decoded byte string: a digit string optionally
/// followed by a dot and one or two decimals, valued in cents.  Values
/// beyond `i64::MAX` cents are rejected.
pub open spec fn spec_parse_price_bytes(s: Seq<u8>) -> Option<int> {
    match spec_find_dot(s, 0) {
        None => {
            if s.len() >= 1 && all_digit_bytes(s) && digits_val_bytes(s) * 100 <= i64::MAX {
                Some(digits_val_bytes(s) * 100)
            } else {
                None
            }
        },
        Some(d) => {
            let ip = s.take(d);
            let fp = s.skip(d + 1);
            if ip.len() >= 1 && all_digit_bytes(ip) && 1 <= fp.len() <= 2 && all_digit_bytes(fp) {
                let frac = if fp.len() == 1 {
                    digits_val_bytes(fp) * 10
                } else {
                    digits_val_bytes(fp)
                };
                if digits_val_bytes(ip) * 100 + frac <= i64::MAX {
                    Some(digits_val_bytes(ip) * 100 + frac)
                } else {
                    None
                }
            } else {
                None
            }
        },
    }
}

/// The price denoted by an encoded token: the base64 decoding parsed as
/// decimal dollars, in cents.
pub open spec fn spec_decode_price(s: Seq<char>) -> Option<int> {
    match b64_decoding(s) {
        None => None,
        Some(b) => spec_parse_price_bytes(b),
    }
}

proof fn lemma_find_dot_skips_non_dots(s: Seq<u8>, i: int, j: int)
    requires
        0 <= i <= j <= s.len(),
        forall|k: int| i <= k < j ==> s[k] != 46,
    ensures
        spec_find_dot(s, i) == spec_find_dot(s, j),
    decreases j - i,
{
    if i < j {
        lemma_find_dot_skips_non_dots(s, i + 1, j);
    }
}

/// Finds the first dot in `v`, scanning left to right.
fn find_dot(v: &Vec<u8>) -> (r: Option<usize>)
    ensures
        match r {
            Some(i) => spec_find_dot(v@, 0) == Some(i as int) && i < v@.len(),
            None => spec_find_dot(v@, 0) is None,
        },
{
    let mut i: usize = 0;
    while i < v.len()
        invariant
            0 <= i <= v@.len(),
            forall|k: int| 0 <= k < i ==> v@[k] != 46,
        decreases v@.len() - i,
    {
        if v[i] == 46 {
            proof {
                lemma_find_dot_skips_non_dots(v@, 0, i as int);
            }
            return Some(i);
        }
        i = i + 1;
    }
    proof {
        lemma_find_dot_skips_non_dots(v@, 0, v@.len() as int);
    }
    None
}

/// Parses a decoded byte string as a decimal dollar amount in cents.
pub fn parse_price_bytes(v: &Vec<u8>) -> (r: Option<i64>)
    ensures
        match r {
            Some(p) => spec_parse_price_bytes(v@) == Some(p as int),
            None => spec_parse_price_bytes(v@) is None,
        },
{
    match find_dot(v) {
        None => {
            match parse_digits_bytes(v, 0, v.len()) {
                Some(x) => {
                    proof {
                        assert(v@.subrange(0, v@.len() as int) =~= v@);
                        lemma_digits_val_bytes_nonneg(v@);
                    }
                    if x > i64::MAX / 100 {
                        proof {
                            assert(x * 100 > i64::MAX) by (nonlinear_arith)
                                requires
                                    x > i64::MAX / 100,
                                    x >= 0,
                            ;
                        }
                        None
                    } else {
                        proof {
                            assert(x * 100 <= i64::MAX) by (nonlinear_arith)
                                requires
                                    x <= i64::MAX / 100,
                                    x >= 0,
                            ;
                        }
                        Some(x * 100)
                    }
                },
                None => {
                    proof {
                        assert(v@.subrange(0, v@.len() as int) =~= v@);
                        if v@.len() >= 1 && all_digit_bytes(v@) {
                            lemma_digits_val_bytes_nonneg(v@);
                        }
                    }
                    None
                },
            }
        },
        Some(d) => {
            let ghost ip = v@.take(d as int);
            let ghost fp = v@.skip(d as int + 1);
            proof {
                assert(ip =~= v@.subrange(0, d as int));
                assert(fp =~= v@.subrange(d as int + 1, v@.len() as int));
            }
            let fplen = v.len() - d - 1;
            if fplen < 1 || fplen > 2 {
                return None;
            }
            let intpart = match parse_digits_bytes(v, 0, d) {
                Some(x) => x,
                None => {
                    proof {
                        if ip.len() >= 1 && all_digit_bytes(ip) && 1 <= fp.len() <= 2
                            && all_digit_bytes(fp) {
                            lemma_digits_val_bytes_nonneg(ip);
                            lemma_digits_val_bytes_nonneg(fp);
                            let fv = if fp.len() == 1 {
                                digits_val_bytes(fp) * 10
                            } else {
                                digits_val_bytes(fp)
                            };
                            assert(digits_val_bytes(ip) * 100 + fv > i64::MAX) by (
                            nonlinear_arith)
                                requires
                                    digits_val_bytes(ip) > i64::MAX,
                                    fv >= 0,
                            ;
                        }
                    }
                    return None;
                },
            };
            let fracval = match parse_digits_bytes(v, d + 1, v.len()) {
                Some(x) => x,
                None => {
                    proof {
                        if all_digit_bytes(fp) {
                            assert(is_digit_byte(fp.last()));
                            if fp.len() == 1 {
                                assert(fp.drop_last() =~= Seq::<u8>::empty());
                                assert(digits_val_bytes(fp.drop_last()) == 0);
                                assert(digits_val_bytes(fp) == fp.last() - 48);
                                assert(digits_val_bytes(fp) <= 9);
                            } else {
                                assert(fp.drop_last().drop_last() =~= Seq::<u8>::empty());
                                assert(all_digit_bytes(fp.drop_last()));
                                assert(is_digit_byte(fp.drop_last().last()));
                                assert(digits_val_bytes(fp.drop_last().drop_last()) == 0);
                                assert(digits_val_bytes(fp.drop_last()) == fp.drop_last().last()
                                    - 48);
                                assert(digits_val_bytes(fp.drop_last()) <= 9);
                                assert(digits_val_bytes(fp) <= 99);
                            }
                        }
                    }
                    return None;
                },
            };
            proof {
                lemma_digits_val_bytes_nonneg(ip);
                lemma_digits_val_bytes_nonneg(fp);
                assert(is_digit_byte(fp.last()));
                if fplen == 1 {
                    assert(fp.drop_last() =~= Seq::<u8>::empty());
                    assert(digits_val_bytes(fp.drop_last()) == 0);
                    assert(digits_val_bytes(fp) == fp.last() - 48);
                    assert(digits_val_bytes(fp) <= 9);
                } else {
                    assert(fp.drop_last().drop_last() =~= Seq::<u8>::empty());
                    assert(all_digit_bytes(fp.drop_last()));
                    assert(is_digit_byte(fp.drop_last().last()));
                    assert(digits_val_bytes(fp.drop_last().drop_last()) == 0);
                    assert(digits_val_bytes(fp.drop_last()) == fp.drop_last().last() - 48);
                    assert(digits_val_bytes(fp.drop_last()) <= 9);
                    assert(digits_val_bytes(fp) <= 99);
                }
            }
            let frac = if fplen == 1 {
                fracval * 10
            } else {
                fracval
            };
            assert(0 <= frac < 100);
            if intpart > (i64::MAX - frac) / 100 {
                proof {
                    assert(intpart * 100 + frac > i64::MAX) by (nonlinear_arith)
                        requires
                            intpart > (i64::MAX - frac) / 100,
                            0 <= frac < 100,
                            0 <= intpart,
                    ;
                }
                None
            } else {
                proof {
                    assert(intpart * 100 + frac <= i64::MAX) by (nonlinear_arith)
                        requires
                            intpart <= (i64::MAX - frac) / 100,
                            0 <= frac < 100,
                            0 <= intpart,
                    ;
                }
                Some(intpart * 100 + frac)
            }
        },
    }
}

/// No decimal rendering of an unsigned value contains a dot.
proof fn lemma_u64_bytes_no_dot(n: nat)
    ensures
        forall|k: int| 0 <= k < spec_u64_bytes(n).len() ==> spec_u64_bytes(n)[k] != 46,
{
    lemma_u64_bytes_digits(n);
}

/// Rendering a price and parsing it back yields the price again.
pub proof fn lemma_parse_price_bytes_round_trip(cents: i64)
    requires
        0 <= cents,
    ensures
        spec_parse_price_bytes(spec_price_bytes(cents as nat)) == Some(cents as int),
{
    let c = cents as nat;
    let ip = spec_u64_bytes(c / 100);
    let s = spec_price_bytes(c);
    lemma_u64_bytes_digits(c / 100);
    lemma_u64_bytes_no_dot(c / 100);
    assert(s[ip.len() as int] == 46);
    lemma_find_dot_skips_non_dots(s, 0, ip.len() as int);
    assert(spec_find_dot(s, ip.len() as int) == Some(ip.len() as int));
    let d = ip.len() as int;
    assert(s.take(d) =~= ip);
    let fp = s.skip(d + 1);
    assert(fp =~= seq![
        crate::strutil::spec_digit_byte(((c / 10) % 10) as int),
        crate::strutil::spec_digit_byte((c % 10) as int),
    ]);
    assert(fp.drop_last() =~= seq![crate::strutil::spec_digit_byte(((c / 10) % 10) as int)]);
    assert(fp.drop_last().drop_last() =~= Seq::<u8>::empty());
    assert(all_digit_bytes(fp));
    assert(fp.len() == 2);
    assert(fp.last() == crate::strutil::spec_digit_byte((c % 10) as int));
    assert(fp.drop_last().last() == crate::strutil::spec_digit_byte(((c / 10) % 10) as int));
    assert(digits_val_bytes(fp.drop_last().drop_last()) == 0);
    assert(digits_val_bytes(fp.drop_last()) == (c / 10) % 10);
    assert(digits_val_bytes(fp) == digits_val_bytes(fp.drop_last()) * 10 + (fp.last() - 48));
    assert(digits_val_bytes(fp) == ((c / 10) % 10) * 10 + (c % 10));
    assert(((c / 10) % 10) * 10 + (c % 10) == c % 100) by (nonlinear_arith);
    assert(digits_val_bytes(ip) == c / 100);
    assert((c / 100) * 100 + (c % 100) == c) by (nonlinear_arith);
}

/// Encodes a price in cents as an opaque token.  The token decodes back
/// to the same price.
pub fn encode_price(cents: i64) -> (r: String)
    requires
        0 <= cents,
    ensures
        r@ == b64_of(spec_price_bytes(cents as nat)),
        spec_decode_price(r@) == Some(cents as int),
{
    let bytes = price_bytes(cents);
    let r = b64_encode(&bytes);
    proof {
        lemma_parse_price_bytes_round_trip(cents);
    }
    r
}

/// Decodes an opaque price token back to cents.  Returns `None` on any
/// input that is not the base64 rendering of a well-formed decimal price.
pub fn decode_price(s: &str) -> (r: Option<i64>)
    ensures
        match r {
            Some(p) => spec_decode_price(s@) == Some(p as int),
            None => spec_decode_price(s@) is None,
        },
{
    match b64_decode(s) {
        None => None,
        Some(bytes) => parse_price_bytes(&bytes),
    }
}

} // verus!
