//! Decimal formatting and parsing helpers.
//!
//! Prices are carried as integer cents throughout the crate; this module
//! renders them as decimal text (both as characters for markup and as bytes
//! for the price codec) and parses them back.

use vstd::prelude::*;

verus! {

pub open spec fn spec_digit_char(d: int) -> char {
    if d == 0 {
        '0'
    } else if d == 1 {
        '1'
    } else if d == 2 {
        '2'
    } else if d == 3 {
        '3'
    } else if d == 4 {
        '4'
    } else if d == 5 {
        '5'
    } else if d == 6 {
        '6'
    } else if d == 7 {
        '7'
    } else if d == 8 {
        '8'
    } else {
        '9'
    }
}

pub open spec fn spec_digit_byte(d: int) -> u8 {
    (48 + d) as u8
}

/// Decimal digits of `n`, most significant first, as characters.
pub open spec fn spec_u64_chars(n: nat) -> Seq<char>
    decreases n,
{
    if n < 10 {
        seq![spec_digit_char(n as int)]
    } else {
        spec_u64_chars(n / 10).push(spec_digit_char((n % 10) as int))
    }
}

/// Decimal digits of `n`, most significant first, as ASCII bytes.
pub open spec fn spec_u64_bytes(n: nat) -> Seq<u8>
    decreases n,
{
    if n < 10 {
        seq![spec_digit_byte(n as int)]
    } else {
        spec_u64_bytes(n / 10).push(spec_digit_byte((n % 10) as int))
    }
}

/// Decimal rendering of a signed value as characters.
pub open spec fn spec_i64_chars(n: int) -> Seq<char> {
    if n >= 0 {
        spec_u64_chars(n as nat)
    } else {
        seq!['-'] + spec_u64_chars((-n) as nat)
    }
}

/// A price in cents rendered as dollars with exactly two decimals,
/// e.g. 250 cents renders as "2.50".
pub open spec fn spec_price_chars(cents: nat) -> Seq<char> {
    spec_u64_chars(cents / 100) + seq![
        '.',
        spec_digit_char(((cents / 10) % 10) as int),
        spec_digit_char((cents % 10) as int),
    ]
}

/// Byte rendering of a price in cents, same shape as `spec_price_chars`.
pub open spec fn spec_price_bytes(cents: nat) -> Seq<u8> {
    spec_u64_bytes(cents / 100) + seq![
        46u8,
        spec_digit_byte(((cents / 10) % 10) as int),
        spec_digit_byte((cents % 10) as int),
    ]
}

fn digit_str(d: u64) -> (r: &'static str)
    requires
        d < 10,
    ensures
        r@ =~= seq![spec_digit_char(d as int)],
{
    proof {
        reveal_strlit("0");
        reveal_strlit("1");
        reveal_strlit("2");
        reveal_strlit("3");
        reveal_strlit("4");
        reveal_strlit("5");
        reveal_strlit("6");
        reveal_strlit("7");
        reveal_strlit("8");
        reveal_strlit("9");
    }
    match d {
        0 => "0",
        1 => "1",
        2 => "2",
        3 => "3",
        4 => "4",
        5 => "5",
        6 => "6",
        7 => "7",
        8 => "8",
        _ => "9",
    }
}

/// Appends the decimal rendering of `n` to `s`.
pub fn append_u64_chars(s: &mut String, n: u64)
    ensures
        final(s)@ == old(s)@ + spec_u64_chars(n as nat),
    decreases n,
{
    if n < 10 {
        s.append(digit_str(n));
    } else {
        append_u64_chars(s, n / 10);
        s.append(digit_str(n % 10));
        assert(s@ =~= old(s)@ + spec_u64_chars(n as nat));
    }
}

/// Appends the decimal rendering of `n` to `s`, with a leading minus
/// sign for negative values.
pub fn append_i64_chars(s: &mut String, n: i64)
    ensures
        final(s)@ == old(s)@ + spec_i64_chars(n as int),
{
    if n >= 0 {
        append_u64_chars(s, n as u64);
    } else {
        proof {
            reveal_strlit("-");
        }
        s.append("-");
        let m: u64 = if n == i64::MIN {
            9223372036854775808u64
        } else {
            (-n) as u64
        };
        append_u64_chars(s, m);
        assert(s@ =~= old(s)@ + spec_i64_chars(n as int));
    }
}

/// Appends `cents` rendered as dollars with two decimals to `s`.
pub fn append_price_chars_u64(s: &mut String, cents: u64)
    ensures
        final(s)@ == old(s)@ + spec_price_chars(cents as nat),
{
    proof {
        reveal_strlit(".");
    }
    append_u64_chars(s, cents / 100);
    s.append(".");
    s.append(digit_str((cents / 10) % 10));
    s.append(digit_str(cents % 10));
    assert(s@ =~= old(s)@ + spec_price_chars(cents as nat));
}

/// A price in cents as dollars with two decimals and a sign when negative.
pub open spec fn spec_price_chars_signed(cents: int) -> Seq<char> {
    if cents >= 0 {
        spec_price_chars(cents as nat)
    } else {
        seq!['-'] + spec_price_chars((-cents) as nat)
    }
}

/// Appends `cents` rendered as signed dollars with two decimals to `s`.
pub fn append_price_chars_signed(s: &mut String, cents: i64)
    ensures
        final(s)@ == old(s)@ + spec_price_chars_signed(cents as int),
{
    if cents >= 0 {
        append_price_chars_u64(s, cents as u64);
    } else {
        proof {
            reveal_strlit("-");
        }
        s.append("-");
        let m: u64 = if cents == i64::MIN {
            9223372036854775808u64
        } else {
            (-cents) as u64
        };
        append_price_chars_u64(s, m);
        assert(s@ =~= old(s)@ + spec_price_chars_signed(cents as int));
    }
}

/// Byte rendering of `n` in decimal, appended to `v`.
pub fn append_u64_bytes(v: &mut Vec<u8>, n: u64)
    ensures
        final(v)@ == old(v)@ + spec_u64_bytes(n as nat),
    decreases n,
{
    if n < 10 {
        v.push(48 + (n as u8));
        assert(v@ =~= old(v)@ + spec_u64_bytes(n as nat));
    } else {
        append_u64_bytes(v, n / 10);
        v.push(48 + ((n % 10) as u8));
        assert(v@ =~= old(v)@ + spec_u64_bytes(n as nat));
    }
}

/// Byte rendering of a price in cents, dollars with two decimals.
pub fn price_bytes(cents: i64) -> (r: Vec<u8>)
    requires
        0 <= cents,
    ensures
        r@ == spec_price_bytes(cents as nat),
{
    let mut v: Vec<u8> = Vec::new();
    append_u64_bytes(&mut v, (cents / 100) as u64);
    v.push(46);
    v.push(48 + (((cents / 10) % 10) as u8));
    v.push(48 + ((cents % 10) as u8));
    assert(v@ =~= spec_price_bytes(cents as nat));
    v
}

/// Relies on the standard library's `String::push`: appends one character.
pub assume_specification[ String::push ](s: &mut String, c: char)
    ensures
        final(s)@ == old(s)@.push(c),
;

/// Relies on the standard library's `str` equality: two string slices
/// are equal exactly when their character sequences are.
pub assume_specification[ <str as PartialEq>::eq ](a: &str, b: &str) -> (r: bool)
    ensures
        r == (a@ == b@),
;

pub open spec fn is_digit_byte(b: u8) -> bool {
    48 <= b <= 57
}

pub open spec fn all_digit_bytes(s: Seq<u8>) -> bool {
    forall|i: int| 0 <= i < s.len() ==> is_digit_byte(#[trigger] s[i])
}

/// Value of a digit string read in base 10, most significant first.
pub open spec fn digits_val_bytes(s: Seq<u8>) -> int
    decreases s.len(),
{
    if s.len() == 0 {
        0
    } else {
        digits_val_bytes(s.drop_last()) * 10 + (s.last() - 48)
    }
}

pub proof fn lemma_digits_val_bytes_nonneg(s: Seq<u8>)
    requires
        all_digit_bytes(s),
    ensures
        digits_val_bytes(s) >= 0,
    decreases s.len(),
{
    if s.len() > 0 {
        assert(all_digit_bytes(s.drop_last()));
        lemma_digits_val_bytes_nonneg(s.drop_last());
    }
}

/// A digit string is worth at least any of its prefixes.
pub proof fn lemma_digits_val_bytes_prefix(s: Seq<u8>, j: int)
    requires
        all_digit_bytes(s),
        0 <= j <= s.len(),
    ensures
        digits_val_bytes(s.take(j)) <= digits_val_bytes(s),
    decreases s.len() - j,
{
    if j < s.len() {
        lemma_digits_val_bytes_prefix(s, j + 1);
        assert(s.take(j + 1).drop_last() =~= s.take(j));
        assert(all_digit_bytes(s.take(j)));
        lemma_digits_val_bytes_nonneg(s.take(j));
        assert(digits_val_bytes(s.take(j + 1)) == digits_val_bytes(s.take(j)) * 10 + (s[j]
            - 48));
    } else {
        assert(s.take(j) =~= s);
    }
}

/// The decimal rendering of `n` consists of digits and reads back as `n`.
pub proof fn lemma_u64_bytes_digits(n: nat)
    ensures
        all_digit_bytes(spec_u64_bytes(n)),
        digits_val_bytes(spec_u64_bytes(n)) == n,
        spec_u64_bytes(n).len() >= 1,
    decreases n,
{
    let s = spec_u64_bytes(n);
    if n < 10 {
        assert(s =~= seq![spec_digit_byte(n as int)]);
        assert(s.drop_last() =~= Seq::<u8>::empty());
        assert(digits_val_bytes(s) == digits_val_bytes(s.drop_last()) * 10 + (s.last() - 48));
        assert(s.last() == spec_digit_byte(n as int));
        assert(spec_digit_byte(n as int) == 48 + n);
    } else {
        lemma_u64_bytes_digits(n / 10);
        assert(s.drop_last() =~= spec_u64_bytes(n / 10));
        assert(s.last() == spec_digit_byte((n % 10) as int));
        assert(spec_digit_byte((n % 10) as int) == 48 + n % 10);
        assert(digits_val_bytes(s) == digits_val_bytes(s.drop_last()) * 10 + (s.last() - 48));
        assert(digits_val_bytes(s) == (n / 10) * 10 + (n % 10));
        assert((n / 10) * 10 + (n % 10) == n);
    }
}

/// Parses `v[from..to)` as an unsigned decimal number.  Fails when the
/// range is empty, holds a non-digit, or the value exceeds `i64::MAX`.
pub fn parse_digits_bytes(v: &Vec<u8>, from: usize, to: usize) -> (r: Option<i64>)
    requires
        from <= to <= v@.len(),
    ensures
        match r {
            Some(x) => to > from && all_digit_bytes(v@.subrange(from as int, to as int)) && x
                == digits_val_bytes(v@.subrange(from as int, to as int)),
            None => to <= from || !all_digit_bytes(v@.subrange(from as int, to as int))
                || digits_val_bytes(v@.subrange(from as int, to as int)) > i64::MAX,
        },
{
    if from >= to {
        return None;
    }
    let ghost s = v@.subrange(from as int, to as int);
    let mut acc: i64 = 0;
    let mut i: usize = from;
    while i < to
        invariant
            from <= i <= to <= v@.len(),
            s == v@.subrange(from as int, to as int),
            all_digit_bytes(s.take(i - from)),
            acc == digits_val_bytes(s.take(i - from)),
            0 <= acc,
        decreases to - i,
    {
        let b = v[i];
        assert(b == s[i - from]);
        if b < 48 || b > 57 {
            return None;
        }
        let d = (b - 48) as i64;
        proof {
            assert(s.take(i - from + 1).drop_last() =~= s.take(i - from));
        }
        if acc > (i64::MAX - d) / 10 {
            proof {
                assert(acc * 10 + d > i64::MAX) by (nonlinear_arith)
                    requires
                        acc > (i64::MAX - d) / 10,
                        0 <= d < 10,
                        0 <= acc,
                ;
                if all_digit_bytes(s) {
                    lemma_digits_val_bytes_prefix(s, i - from + 1);
                }
            }
            return None;
        }
        acc = acc * 10 + d;
        i = i + 1;
    }
    proof {
        assert(s.take(to - from) =~= s);
    }
    Some(acc)
}

pub open spec fn is_digit_char(c: char) -> bool {
    48 <= c as int <= 57
}

pub open spec fn all_digit_chars(s: Seq<char>) -> bool {
    forall|i: int| 0 <= i < s.len() ==> is_digit_char(#[trigger] s[i])
}

pub open spec fn digit_char_val(c: char) -> int {
    c as int - 48
}

/// Value of a digit string of characters read in base 10.
pub open spec fn digits_val_chars(s: Seq<char>) -> int
    decreases s.len(),
{
    if s.len() == 0 {
        0
    } else {
        digits_val_chars(s.drop_last()) * 10 + digit_char_val(s.last())
    }
}

pub proof fn lemma_digits_val_chars_nonneg(s: Seq<char>)
    requires
        all_digit_chars(s),
    ensures
        digits_val_chars(s) >= 0,
    decreases s.len(),
{
    if s.len() > 0 {
        assert(all_digit_chars(s.drop_last()));
        lemma_digits_val_chars_nonneg(s.drop_last());
    }
}

pub proof fn lemma_digits_val_chars_prefix(s: Seq<char>, j: int)
    requires
        all_digit_chars(s),
        0 <= j <= s.len(),
    ensures
        digits_val_chars(s.take(j)) <= digits_val_chars(s),
    decreases s.len() - j,
{
    if j < s.len() {
        lemma_digits_val_chars_prefix(s, j + 1);
        assert(s.take(j + 1).drop_last() =~= s.take(j));
        assert(all_digit_chars(s.take(j)));
        lemma_digits_val_chars_nonneg(s.take(j));
        assert(digits_val_chars(s.take(j + 1)) == digits_val_chars(s.take(j)) * 10
            + digit_char_val(s[j]));
    } else {
        assert(s.take(j) =~= s);
    }
}

/// A signed decimal integer: an optional sign, then one or more digits.
/// Values beyond `i64::MAX` in magnitude are rejected.
pub open spec fn spec_parse_i64_chars(s: Seq<char>) -> Option<int> {
    let negative = s.len() >= 1 && s[0] == '-';
    let body = if s.len() >= 1 && (s[0] == '-' || s[0] == '+') {
        s.skip(1)
    } else {
        s
    };
    if body.len() >= 1 && all_digit_chars(body) && digits_val_chars(body) <= i64::MAX {
        if negative {
            Some(-digits_val_chars(body))
        } else {
            Some(digits_val_chars(body))
        }
    } else {
        None
    }
}

/// Parses the characters `s@[from..to)` as a signed decimal integer.
pub fn parse_i64_str(s: &str, from: usize, to: usize) -> (r: Option<i64>)
    requires
        from <= to <= s@.len(),
    ensures
        match r {
            Some(x) => spec_parse_i64_chars(s@.subrange(from as int, to as int)) == Some(
                x as int,
            ),
            None => spec_parse_i64_chars(s@.subrange(from as int, to as int)) is None,
        },
{
    let ghost whole = s@.subrange(from as int, to as int);
    if from >= to {
        return None;
    }
    let first = s.get_char(from);
    let (negative, start) = if first == '-' {
        (true, from + 1)
    } else if first == '+' {
        (false, from + 1)
    } else {
        (false, from)
    };
    let ghost body = s@.subrange(start as int, to as int);
    proof {
        if start > from {
            assert(body =~= whole.skip(1));
        } else {
            assert(body =~= whole);
        }
    }
    if start >= to {
        return None;
    }
    let mut acc: i64 = 0;
    let mut i: usize = start;
    while i < to
        invariant
            from <= start <= i <= to <= s@.len(),
            whole == s@.subrange(from as int, to as int),
            body == s@.subrange(start as int, to as int),
            body == (if whole.len() >= 1 && (whole[0] == '-' || whole[0] == '+') {
                whole.skip(1)
            } else {
                whole
            }),
            negative == (whole.len() >= 1 && whole[0] == '-'),
            all_digit_chars(body.take(i - start)),
            acc == digits_val_chars(body.take(i - start)),
            0 <= acc,
        decreases to - i,
    {
        let c = s.get_char(i);
        assert(c == body[i - start]);
        let cu = c as u32;
        if cu < 48 || cu > 57 {
            proof {
                assert(!is_digit_char(body[i - start]));
            }
            return None;
        }
        let d = (cu - 48) as i64;
        proof {
            assert(d == digit_char_val(c));
            assert(body.take(i - start + 1).drop_last() =~= body.take(i - start));
            assert(digits_val_chars(body.take(i - start + 1)) == acc * 10 + d);
        }
        if acc > (i64::MAX - d) / 10 {
            proof {
                assert(acc * 10 + d > i64::MAX) by (nonlinear_arith)
                    requires
                        acc > (i64::MAX - d) / 10,
                        0 <= d < 10,
                        0 <= acc,
                ;
                if all_digit_chars(body) {
                    lemma_digits_val_chars_prefix(body, i - start + 1);
                    assert(digits_val_chars(body) > i64::MAX);
                }
            }
            return None;
        }
        acc = acc * 10 + d;
        i = i + 1;
    }
    proof {
        assert(body.take(to - start) =~= body);
    }
    if negative {
        Some(-acc)
    } else {
        Some(acc)
    }
}

} // verus!
