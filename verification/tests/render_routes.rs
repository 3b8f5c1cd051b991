use mocktioneer::render::{banner_adm_iframe, escape_html};
use mocktioneer::routes::{parse_cookie, parse_size_param, validate_static_asset_size, AssetFormat};

#[test]
fn test_escape_html_basic() {
    assert_eq!(escape_html("<&>\"'"), "&lt;&amp;&gt;&quot;&#39;");
}

#[test]
fn test_banner_adm_iframe_contains_expected_src_and_escapes() {
    let adm = banner_adm_iframe("host.test", "abc&def\"", 300, 250, None);
    assert!(adm.contains("//host.test/static/creatives/300x250.html?crid=abc&amp;def&quot;"));
    assert!(adm.contains("width=\"300\""));
    assert!(adm.contains("height=\"250\""));
}

#[test]
fn banner_adm_iframe_includes_bid_when_present() {
    let adm = banner_adm_iframe("host.test", "c1", 728, 90, Some(350));
    assert!(adm.contains("<iframe"));
    assert!(adm.contains("//host.test/static/creatives/728x90.html?crid=c1&bid=3.50"));
    let adm2 = banner_adm_iframe("host.test", "c1", 728, 90, None);
    assert!(adm2.contains("crid=c1&bid=\""));
}

#[test]
fn escape_html_leaves_plain_text_alone() {
    assert_eq!(escape_html("plain text 123"), "plain text 123");
    assert_eq!(escape_html(""), "");
}

#[test]
fn parse_size_param_parses_suffix() {
    assert_eq!(parse_size_param("300x250.svg", ".svg"), Some((300, 250)));
    assert_eq!(parse_size_param("300x250.html", ".svg"), None);
    assert_eq!(parse_size_param("bad", ".svg"), None);
}

#[test]
fn parse_size_param_drops_query_tail() {
    assert_eq!(
        parse_size_param("300x250.svg?bid=2.50", ".svg"),
        Some((300, 250))
    );
    assert_eq!(
        parse_size_param("300x250.html&crid=c1&bid=", ".html"),
        Some((300, 250))
    );
    assert_eq!(parse_size_param("x250.svg", ".svg"), None);
    assert_eq!(parse_size_param("300x.svg", ".svg"), None);
}

#[test]
fn asset_format_suffixes() {
    assert_eq!(AssetFormat::Svg.suffix(), ".svg");
    assert_eq!(AssetFormat::Html.suffix(), ".html");
    assert!(validate_static_asset_size("300x250.svg"));
    assert!(validate_static_asset_size("333x222.html"));
    assert!(!validate_static_asset_size("banner.png"));
}

#[test]
fn parse_cookie_extracts_value() {
    let c = "a=1; mtkid=xyz; x=y";
    assert_eq!(parse_cookie(c, "mtkid"), Some("xyz".to_string()));
    assert_eq!(parse_cookie(c, "missing"), None);
}

#[test]
fn parse_cookie_trims_and_takes_first_match() {
    assert_eq!(
        parse_cookie("  mtkid =  abc  ; mtkid=def", "mtkid"),
        Some("abc".to_string())
    );
    assert_eq!(parse_cookie("", "mtkid"), None);
    assert_eq!(parse_cookie("mtkid", "mtkid"), None);
    assert_eq!(parse_cookie("mtkid=", "mtkid"), Some("".to_string()));
}
