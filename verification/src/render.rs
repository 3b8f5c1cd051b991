//! Creative markup rendering.
//!
//! Builds the iframe creative used when a bid carries no markup of its
//! own, and the HTML escaping that protects its attribute values.

use vstd::prelude::*;

use crate::strutil::{
    append_i64_chars, append_price_chars_signed, spec_i64_chars, spec_price_chars_signed,
};

verus! {

/// What a single character escapes to in HTML attribute context.
pub open spec fn spec_escape_char(c: char) -> Seq<char> {
    if c == '&' {
        seq!['&', 'a', 'm', 'p', ';']
    } else if c == '<' {
        seq!['&', 'l', 't', ';']
    } else if c == '>' {
        seq!['&', 'g', 't', ';']
    } else if c == '"' {
        seq!['&', 'q', 'u', 'o', 't', ';']
    } else if c == '\'' {
        seq!['&', '#', '3', '9', ';']
    } else {
        seq![c]
    }
}

/// HTML escaping of a whole string, character by character.
pub open spec fn spec_escape_html(s: Seq<char>) -> Seq<char>
    decreases s.len(),
{
    if s.len() == 0 {
        Seq::empty()
    } else {
        spec_escape_html(s.drop_last()) + spec_escape_char(s.last())
    }
}

/// Escapes the five HTML-special characters.
pub fn escape_html(input: &str) -> (r: String)
    ensures
        r@ == spec_escape_html(input@),
{
    proof {
        reveal_strlit("&amp;");
        reveal_strlit("&lt;");
        reveal_strlit("&gt;");
        reveal_strlit("&quot;");
        reveal_strlit("&#39;");
    }
    let n = input.unicode_len();
    let mut out = String::new();
    let mut i: usize = 0;
    while i < n
        invariant
            0 <= i <= n,
            n == input@.len(),
            out@ == spec_escape_html(input@.take(i as int)),
        decreases n - i,
    {
        let c = input.get_char(i);
        proof {
            reveal_strlit("&amp;");
            reveal_strlit("&lt;");
            reveal_strlit("&gt;");
            reveal_strlit("&quot;");
            reveal_strlit("&#39;");
            assert(input@.take(i + 1).drop_last() =~= input@.take(i as int));
            assert(input@.take(i + 1).last() == c);
        }
        if c == '&' {
            out.append("&amp;");
            assert("&amp;"@ =~= spec_escape_char(c));
        } else if c == '<' {
            out.append("&lt;");
            assert("&lt;"@ =~= spec_escape_char(c));
        } else if c == '>' {
            out.append("&gt;");
            assert("&gt;"@ =~= spec_escape_char(c));
        } else if c == '"' {
            out.append("&quot;");
            assert("&quot;"@ =~= spec_escape_char(c));
        } else if c == '\'' {
            out.append("&#39;");
            assert("&#39;"@ =~= spec_escape_char(c));
        } else {
            out.push(c);
            assert(out@ =~= spec_escape_html(input@.take(i as int)) + spec_escape_char(c));
        }
        i = i + 1;
    }
    proof {
        assert(input@.take(n as int) =~= input@);
    }
    out
}

/// The iframe creative for a slot: points at the static creative of the
/// slot's size on `host`, carrying the creative id and the bid (blank when
/// no bid is exposed) as query parameters.
pub open spec fn spec_iframe_html(
    host: Seq<char>,
    crid: Seq<char>,
    w: int,
    h: int,
    bid: Option<int>,
) -> Seq<char> {
    "<iframe src=\"//"@ + spec_escape_html(host) + "/static/creatives/"@ + spec_i64_chars(w)
        + "x"@ + spec_i64_chars(h) + ".html?crid="@ + spec_escape_html(crid) + "&bid="@ + (
    match bid {
        Some(p) => spec_price_chars_signed(p),
        None => Seq::empty(),
    }) + "\" width=\""@ + spec_i64_chars(w) + "\" height=\""@ + spec_i64_chars(h)
        + "\" frameborder=\"0\" scrolling=\"no\"></iframe>"@
}

/// Builds the iframe creative markup for a slot.
pub fn banner_adm_iframe(base_host: &str, crid: &str, w: i64, h: i64, bid: Option<i64>) -> (r:
    String)
    ensures
        r@ == spec_iframe_html(base_host@, crid@, w as int, h as int, spec_bid_view(bid)),
{
    let mut out = String::new();
    out.append("<iframe src=\"//");
    let escaped_host = escape_html(base_host);
    out.append(escaped_host.as_str());
    out.append("/static/creatives/");
    append_i64_chars(&mut out, w);
    out.append("x");
    append_i64_chars(&mut out, h);
    out.append(".html?crid=");
    let escaped_crid = escape_html(crid);
    out.append(escaped_crid.as_str());
    out.append("&bid=");
    match bid {
        Some(p) => append_price_chars_signed(&mut out, p),
        None => (),
    }
    out.append("\" width=\"");
    append_i64_chars(&mut out, w);
    out.append("\" height=\"");
    append_i64_chars(&mut out, h);
    out.append("\" frameborder=\"0\" scrolling=\"no\"></iframe>");
    assert(out@ =~= spec_iframe_html(base_host@, crid@, w as int, h as int, spec_bid_view(bid)));
    out
}

/// The mathematical value of an optional bid in cents.
pub open spec fn spec_bid_view(bid: Option<i64>) -> Option<int> {
    match bid {
        Some(p) => Some(p as int),
        None => None,
    }
}

} // verus!
