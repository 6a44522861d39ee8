use codex_copilot::quota::{parse_copilot_quota_headers, parse_quota_snapshot_header};
use http::{HeaderMap, HeaderName, HeaderValue};

fn as_f64(text: &str) -> f64 {
    text.parse::<f64>().unwrap()
}

#[test]
fn test_parse_quota_snapshot_header() {
    let raw = "ent=-1&ov=0.0&ovPerm=true&rem=100.0&rst=2026-04-01T00%3A00%3A00Z";
    let quota = parse_quota_snapshot_header(raw).unwrap();
    assert_eq!(quota.entitlement, -1);
    assert_eq!(as_f64(&quota.percent_remaining), 100.0);
    assert_eq!(quota.resets_at, "2026-04-01T00:00:00Z");
}

#[test]
fn test_parse_quota_snapshot_header_capped_plan() {
    let raw = "ent=1000&ov=0.0&ovPerm=false&rem=62.3&rst=2026-04-01T00%3A00%3A00Z";
    let quota = parse_quota_snapshot_header(raw).unwrap();
    assert_eq!(quota.entitlement, 1000);
    assert_eq!(as_f64(&quota.percent_remaining), 62.3);
    assert!(!quota.overage_permitted);
}

#[test]
fn test_parse_quota_from_response_headers() {
    let mut headers = HeaderMap::new();
    headers.insert(
        "x-quota-snapshot-premium_interactions",
        HeaderValue::from_static(
            "ent=-1&ov=0.0&ovPerm=true&rem=100.0&rst=2026-04-01T00%3A00%3A00Z",
        ),
    );
    headers.insert(
        "x-quota-snapshot-chat",
        HeaderValue::from_static(
            "ent=500&ov=0.0&ovPerm=false&rem=80.0&rst=2026-04-01T00%3A00%3A00Z",
        ),
    );

    let quotas = parse_copilot_quota_headers(&headers);
    assert_eq!(quotas.len(), 2);
    assert!(quotas.contains_key("premium_interactions"));
    assert!(quotas.contains_key("chat"));
    assert_eq!(
        as_f64(&quotas.get("premium_interactions").unwrap().percent_remaining),
        100.0
    );
    assert_eq!(as_f64(&quotas.get("chat").unwrap().percent_remaining), 80.0);
}

#[test]
fn test_parse_quota_from_response_headers_empty() {
    let headers = HeaderMap::new();
    let quotas = parse_copilot_quota_headers(&headers);
    assert!(quotas.is_empty());
}

#[test]
fn test_parse_quota_snapshot_header_malformed() {
    let raw = "garbage";
    let result = parse_quota_snapshot_header(raw);
    assert!(result.is_none());
}

#[test]
fn snapshot_keeps_every_field() {
    let raw = "ent=42&ov=1.5&ovPerm=true&rem=3e2&rst=a%20b";
    let quota = parse_quota_snapshot_header(raw).unwrap();
    assert_eq!(quota.entitlement, 42);
    assert_eq!(quota.overage, "1.5");
    assert!(quota.overage_permitted);
    assert_eq!(quota.percent_remaining, "3e2");
    assert_eq!(as_f64(&quota.percent_remaining), 300.0);
    assert_eq!(quota.resets_at, "a b");
}

#[test]
fn each_field_is_required() {
    let full = ["ent=1", "ov=0.0", "ovPerm=true", "rem=1.0", "rst=x"];
    assert!(parse_quota_snapshot_header(&full.join("&")).is_some());
    for skip in 0..full.len() {
        let parts: Vec<&str> = full
            .iter()
            .enumerate()
            .filter(|(i, _)| *i != skip)
            .map(|(_, p)| *p)
            .collect();
        assert!(parse_quota_snapshot_header(&parts.join("&")).is_none());
    }
}

#[test]
fn later_parameter_overrides_earlier() {
    let raw = "ent=1&ov=0&ovPerm=true&rem=5&rst=x&ent=7&ovPerm=no";
    let quota = parse_quota_snapshot_header(raw).unwrap();
    assert_eq!(quota.entitlement, 7);
    assert!(!quota.overage_permitted);
}

#[test]
fn parameter_order_does_not_matter() {
    let a = parse_quota_snapshot_header("rst=z&rem=2.5&ovPerm=true&ov=1&ent=-3").unwrap();
    assert_eq!(a.entitlement, -3);
    assert_eq!(a.percent_remaining, "2.5");
    assert_eq!(a.resets_at, "z");
}

#[test]
fn value_split_at_first_equals_sign() {
    let quota = parse_quota_snapshot_header("ent=1&ov=0&ovPerm=true&rem=1&rst=a=b").unwrap();
    assert_eq!(quota.resets_at, "a=b");
}

#[test]
fn segments_without_equals_and_empty_segments_are_skipped() {
    let quota =
        parse_quota_snapshot_header("&&junk&ent=1&&ov=0&ovPerm=true&rem=1&rst=x&").unwrap();
    assert_eq!(quota.entitlement, 1);
}

#[test]
fn overage_permitted_only_for_exact_true() {
    for (text, expected) in [("true", true), ("True", false), ("1", false), ("", false)] {
        let raw = format!("ent=1&ov=0&ovPerm={}&rem=1&rst=x", text);
        assert_eq!(parse_quota_snapshot_header(&raw).unwrap().overage_permitted, expected);
    }
}

#[test]
fn entitlement_must_be_an_i64() {
    let with = |ent: &str| format!("ent={}&ov=0&ovPerm=true&rem=1&rst=x", ent);
    assert_eq!(
        parse_quota_snapshot_header(&with("9223372036854775807")).unwrap().entitlement,
        i64::MAX
    );
    assert_eq!(
        parse_quota_snapshot_header(&with("-9223372036854775808")).unwrap().entitlement,
        i64::MIN
    );
    assert_eq!(parse_quota_snapshot_header(&with("+12")).unwrap().entitlement, 12);
    assert_eq!(parse_quota_snapshot_header(&with("007")).unwrap().entitlement, 7);
    for bad in ["9223372036854775808", "-9223372036854775809", "", "-", "+", "1.0", " 1", "1a", "+-1"] {
        assert!(parse_quota_snapshot_header(&with(bad)).is_none(), "{}", bad);
        assert_eq!(bad.parse::<i64>().is_ok(), false);
    }
}

#[test]
fn fractional_fields_accept_what_f64_accepts() {
    let with = |ov: &str| format!("ent=1&ov={}&ovPerm=true&rem=1&rst=x", ov);
    let candidates = [
        "0", "0.0", "1.", ".5", "-2.5", "+3", "1e10", "1E-3", "2.5e+7", "inf", "-Infinity",
        "NaN", "+nan", "", ".", "e5", "1e", "1e+", "1.2.3", " 1", "1 ", "0x10", "1_0",
        "infinit", "--1", "+-1", "١",
    ];
    for text in candidates {
        let accepted = parse_quota_snapshot_header(&with(text)).is_some();
        assert_eq!(accepted, text.parse::<f64>().is_ok(), "{:?}", text);
    }
}

#[test]
fn undecodable_reset_date_is_rejected() {
    let raw = "ent=1&ov=0&ovPerm=true&rem=1&rst=%FF";
    assert!(parse_quota_snapshot_header(raw).is_none());
}

#[test]
fn reset_date_percent_decoding_keeps_stray_percent_and_plus() {
    let quota = parse_quota_snapshot_header("ent=1&ov=0&ovPerm=true&rem=1&rst=a+b%2%zz%41").unwrap();
    assert_eq!(quota.resets_at, "a+b%2%zzA");
    let quota = parse_quota_snapshot_header("ent=1&ov=0&ovPerm=true&rem=1&rst=%E2%9C%93").unwrap();
    assert_eq!(quota.resets_at, "\u{2713}");
}

#[test]
fn header_names_are_matched_by_prefix_and_others_ignored() {
    let mut headers = HeaderMap::new();
    let value = "ent=5&ov=0&ovPerm=false&rem=50&rst=x";
    headers.insert(
        HeaderName::from_bytes(b"X-Quota-Snapshot-Completions").unwrap(),
        HeaderValue::from_static(value),
    );
    headers.insert("x-quota-other", HeaderValue::from_static(value));
    headers.insert("content-type", HeaderValue::from_static("application/json"));
    headers.insert("x-quota-snapshot-broken", HeaderValue::from_static("garbage"));
    let quotas = parse_copilot_quota_headers(&headers);
    assert_eq!(quotas.len(), 1);
    assert_eq!(quotas.get("completions").unwrap().entitlement, 5);
    assert!(quotas.get("broken").is_none());
}

#[test]
fn later_header_for_a_category_wins() {
    let mut headers = HeaderMap::new();
    headers.append(
        "x-quota-snapshot-chat",
        HeaderValue::from_static("ent=1&ov=0&ovPerm=false&rem=50&rst=x"),
    );
    headers.append(
        "x-quota-snapshot-chat",
        HeaderValue::from_static("ent=2&ov=0&ovPerm=false&rem=50&rst=x"),
    );
    let quotas = parse_copilot_quota_headers(&headers);
    assert_eq!(quotas.len(), 1);
    assert_eq!(quotas.get("chat").unwrap().entitlement, 2);
}

#[test]
fn non_text_header_values_are_ignored() {
    let mut headers = HeaderMap::new();
    headers.insert(
        "x-quota-snapshot-chat",
        HeaderValue::from_bytes(b"ent=1&ov=0&ovPerm=false&rem=50&rst=\xe2\x9c\x93").unwrap(),
    );
    let quotas = parse_copilot_quota_headers(&headers);
    assert!(quotas.is_empty());
}

#[test]
fn reordered_parameters_with_extras_give_the_same_snapshot() {
    let a = parse_quota_snapshot_header("ent=3&ov=0.5&ovPerm=true&rem=9&rst=2026%2D01").unwrap();
    let b = parse_quota_snapshot_header("junk&rst=2026%2D01&x=1&rem=9&&ovPerm=true&ov=0.5&ent=3")
        .unwrap();
    assert_eq!(a.entitlement, b.entitlement);
    assert_eq!(a.overage, b.overage);
    assert_eq!(a.overage_permitted, b.overage_permitted);
    assert_eq!(a.percent_remaining, b.percent_remaining);
    assert_eq!(a.resets_at, b.resets_at);
}

#[test]
fn header_without_quota_anywhere_changes_nothing() {
    let value = "ent=5&ov=0&ovPerm=false&rem=50&rst=x";
    let mut first = HeaderMap::new();
    first.insert("x-quota-snapshot-chat", HeaderValue::from_static(value));
    let mut second = HeaderMap::new();
    second.insert("content-type", HeaderValue::from_static("application/json"));
    second.insert("x-quota-snapshot-chat", HeaderValue::from_static(value));
    second.insert("x-quota-snapshot-bad", HeaderValue::from_static("ent=x"));
    let a = parse_copilot_quota_headers(&first);
    let b = parse_copilot_quota_headers(&second);
    assert_eq!(a.len(), 1);
    assert_eq!(b.len(), 1);
    assert!(b.len() <= second.len());
    assert_eq!(a.get("chat").unwrap().entitlement, b.get("chat").unwrap().entitlement);
}
