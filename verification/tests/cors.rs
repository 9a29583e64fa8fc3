//! Cross-origin requests.
use axum::http::HeaderValue;
use logdive::cors::{cors_summary, parse_cors_origins};

#[test]
fn parse_cors_origins_none_returns_empty() {
    assert!(parse_cors_origins(None).unwrap().is_empty());
}

#[test]
fn parse_cors_origins_empty_string_returns_empty() {
    assert!(parse_cors_origins(Some(String::new())).unwrap().is_empty());
}

#[test]
fn parse_cors_origins_whitespace_only_returns_empty() {
    assert!(parse_cors_origins(Some("  , , ".to_string())).unwrap().is_empty());
}

#[test]
fn parse_cors_origins_wildcard_returns_single_star_header() {
    let result = parse_cors_origins(Some("*".to_string())).unwrap();
    assert_eq!(result.len(), 1);
    assert_eq!(result[0].as_bytes(), b"*");
}

#[test]
fn parse_cors_origins_wildcard_with_whitespace_is_accepted() {
    let result = parse_cors_origins(Some("  *  ".to_string())).unwrap();
    assert_eq!(result.len(), 1);
    assert_eq!(result[0].as_bytes(), b"*");
}

#[test]
fn parse_cors_origins_wildcard_mixed_with_origin_is_error() {
    let err = parse_cors_origins(Some("*,https://example.com".to_string())).unwrap_err();
    assert!(err.contains('*'), "error message must mention the wildcard");
}

#[test]
fn parse_cors_origins_single_specific_origin() {
    let result = parse_cors_origins(Some("https://app.example.com".to_string())).unwrap();
    assert_eq!(result.len(), 1);
    assert_eq!(result[0], "https://app.example.com");
}

#[test]
fn parse_cors_origins_multiple_specific_origins() {
    let result = parse_cors_origins(Some(
        "https://app.example.com, https://staging.example.com".to_string(),
    ))
    .unwrap();
    assert_eq!(result.len(), 2);
    assert_eq!(result[0], "https://app.example.com");
    assert_eq!(result[1], "https://staging.example.com");
}

#[test]
fn parse_cors_origins_trims_whitespace_around_each_entry() {
    let result = parse_cors_origins(Some(
        "  https://a.example.com , https://b.example.com  ".to_string(),
    ))
    .unwrap();
    assert_eq!(result[0], "https://a.example.com");
    assert_eq!(result[1], "https://b.example.com");
}

#[test]
fn parse_cors_origins_invalid_header_value_is_error() {
    let err = parse_cors_origins(Some("https://ok.com,bad\nvalue".to_string())).unwrap_err();
    assert!(
        err.contains("bad\nvalue") || err.contains("bad"),
        "error must identify the offending origin"
    );
}

#[test]
fn cors_summary_disabled() {
    assert_eq!(cors_summary(&[]), "disabled");
}

#[test]
fn cors_summary_wildcard() {
    assert_eq!(cors_summary(&[HeaderValue::from_static("*")]), "any origin (*)");
}

#[test]
fn cors_summary_specific_origins() {
    let origins: Vec<HeaderValue> = vec![
        "https://a.example.com".parse().unwrap(),
        "https://b.example.com".parse().unwrap(),
    ];
    assert_eq!(cors_summary(&origins), "2 specific origin(s)");
}

#[test]
fn commas_and_white_space_mean_nothing() {
    let plain = parse_cors_origins(Some("a,b".to_string())).unwrap();
    assert_eq!(parse_cors_origins(Some("a, b,".to_string())).unwrap(), plain);
    assert_eq!(parse_cors_origins(Some(",, a\t,\u{a0}b ,".to_string())).unwrap(), plain);
}

#[test]
fn the_first_invalid_origin_is_named() {
    assert_eq!(
        parse_cors_origins(Some("ok, x\u{1}, y\u{7f}".to_string())).unwrap_err(),
        "`x\u{1}` is not a valid HTTP header value (check for control characters or non-ASCII bytes)"
    );
    assert_eq!(
        parse_cors_origins(Some("a, *".to_string())).unwrap_err(),
        "`*` (allow any origin) cannot be combined with specific origins; use either `*` alone or a list of explicit origins"
    );
    assert!(parse_cors_origins(Some("*,*".to_string())).is_err());
}

#[test]
fn tabs_and_bytes_beyond_ascii_are_header_bytes() {
    let result = parse_cors_origins(Some("a\tb,é".to_string())).unwrap();
    assert_eq!(result[0].as_bytes(), b"a\tb");
    assert_eq!(result[1].as_bytes(), "é".as_bytes());
}

#[test]
fn one_specific_origin_is_not_any_origin() {
    assert_eq!(cors_summary(&[HeaderValue::from_static("**")]), "1 specific origin(s)");
}
