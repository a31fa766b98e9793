use llm_monitor::commands::{stats_window_start, validate_endpoint, EndpointError};
use llm_monitor::db::{mask_key, millis_or_zero, now_ms};
use llm_monitor::proxy::Protocol;
use llm_monitor::upstream::{auth_headers, forward_request_header, forward_response_header, upstream_url};

#[test]
fn valid_endpoint_is_trimmed() {
    let full = validate_endpoint(" dsh ", " My Agent ", "https://api.x.com/v1 ", " sk-1 ", "openai").unwrap();
    assert_eq!(full.id, "dsh");
    assert_eq!(full.name, "My Agent");
    assert_eq!(full.base_url, "https://api.x.com/v1");
    assert_eq!(full.api_key, "sk-1");
    assert_eq!(full.protocol, "openai");
}

#[test]
fn endpoint_errors_in_order() {
    assert_eq!(validate_endpoint("a b", "", "ftp://x", "", "x").unwrap_err(), EndpointError::BadId);
    assert_eq!(validate_endpoint("   ", "", "", "", "").unwrap_err(), EndpointError::BadId);
    assert_eq!(validate_endpoint("a_b-9", "", "ftp://x", "", "x").unwrap_err(), EndpointError::BadProtocol);
    assert_eq!(validate_endpoint("a", "", " http://x", "", "anthropic").unwrap_err(), EndpointError::BadBaseUrl);
    assert_eq!(validate_endpoint("a", "", "http://x", "  ", "anthropic").unwrap_err(), EndpointError::EmptyApiKey);
    assert_eq!(EndpointError::EmptyApiKey.message(), "api_key 不能为空");
    assert_eq!(EndpointError::BadProtocol.message(), "protocol 必须是 anthropic 或 openai");
}

#[test]
fn keys_are_masked() {
    assert_eq!(mask_key("12345678"), "***");
    assert_eq!(mask_key("sk-abcdefghij"), "sk-a***ghij");
    assert_eq!(mask_key("密钥一二三四五六七"), "密钥一二***四五六七");
}

#[test]
fn upstream_urls() {
    assert_eq!(upstream_url("https://a.b/v4//", "chat/completions", None), "https://a.b/v4/chat/completions");
    assert_eq!(upstream_url("https://a.b", "v1/messages", Some("beta=true")), "https://a.b/v1/messages?beta=true");
    assert_eq!(upstream_url("https://a.b/", "x", Some("")), "https://a.b/x?");
}

#[test]
fn header_rules() {
    assert!(!forward_request_header("Authorization"));
    assert!(!forward_request_header("x-api-key"));
    assert!(!forward_request_header("Accept-Encoding"));
    assert!(forward_request_header("content-type"));
    assert!(forward_request_header("anthropic-beta"));
    assert!(!forward_response_header("Content-Length"));
    assert!(!forward_response_header("connection"));
    assert!(forward_response_header("content-type"));
}

#[test]
fn credentials_by_protocol() {
    let h = auth_headers(Protocol::Anthropic, "k1", None);
    assert_eq!(h, vec![("x-api-key".to_string(), "k1".to_string()), ("anthropic-version".to_string(), "2023-06-01".to_string())]);
    let h = auth_headers(Protocol::Anthropic, "k1", Some("2024-01-01"));
    assert_eq!(h[1].1, "2024-01-01");
    let h = auth_headers(Protocol::OpenAi, "k2", Some("ignored"));
    assert_eq!(h, vec![("authorization".to_string(), "Bearer k2".to_string())]);
}

#[test]
fn stats_window() {
    assert_eq!(stats_window_start(10_000_000, Some(2)), 10_000_000 - 7_200_000);
    assert_eq!(stats_window_start(10_000_000, Some(0)), 0);
    assert_eq!(stats_window_start(10_000_000, Some(-3)), 0);
    assert_eq!(stats_window_start(10_000_000, None), 0);
}

#[test]
fn clock_is_after_2020() {
    assert!(now_ms() > 1_577_836_800_000);
}

#[test]
fn clock_readings_are_stored_as_i64() {
    assert_eq!(millis_or_zero(None), 0);
    assert_eq!(millis_or_zero(Some(1_700_000_000_123)), 1_700_000_000_123);
    assert_eq!(millis_or_zero(Some((1u128 << 64) + 3)), 3);
}
