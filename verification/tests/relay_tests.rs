use signed_relay::request::{build_asset_request, build_news_request, signed_asset_request};
use signed_relay::response::{handle_response, relay_parsed, RelayBody, UpstreamReply};

#[test]
fn news_request_shape() {
    let r = build_news_request("caller-key");
    assert_eq!(r.method, "POST");
    assert_eq!(r.url, "http://localhost:1989/v1/info/news");
    assert!(r.headers.is_empty());
    assert_eq!(r.body_fields.len(), 1);
    assert_eq!(r.body_fields[0].0, "overmindApiKey");
    assert_eq!(r.body_fields[0].1, "caller-key");
}

#[test]
fn news_request_has_no_signature() {
    let r = build_news_request("any key at all");
    assert!(r.headers.is_empty());
    assert!(r.body_fields.iter().all(|p| p.0 != "signature"));
    assert!(!r.url.contains('?'));
    assert!(!r.url.contains("signature"));
}

#[test]
fn asset_request_url_is_signed_and_sorted() {
    let r = build_asset_request("api-key", "mysecret", 1234);
    let expected_signature = crypto_hash::hex_digest(
        crypto_hash::Algorithm::SHA256,
        b"needBtcValuation=true&timestamp=1234mysecret",
    );
    let expected_url = format!(
        "https://api3.binance.com/sapi/v3/asset/getUserAsset?needBtcValuation=true&signature={}&timestamp=1234",
        expected_signature
    );
    assert_eq!(r.url, expected_url);
    assert_eq!(r.method, "POST");
}

#[test]
fn asset_request_keeps_secret_out_of_wire_data() {
    let r = build_asset_request("public-key", "hush", 77);
    assert_eq!(r.headers, vec![("X-MBX-APIKEY".to_string(), "public-key".to_string())]);
    assert_eq!(r.body_fields, vec![("apiKey".to_string(), "public-key".to_string())]);
    assert!(!r.url.contains("hush"));
    assert!(r.headers.iter().all(|p| p.1 != "hush"));
    assert!(r.body_fields.iter().all(|p| p.1 != "hush"));
}

#[test]
fn signed_asset_request_uses_clock() {
    let r = signed_asset_request("k", "s");
    assert!(r
        .url
        .starts_with("https://api3.binance.com/sapi/v3/asset/getUserAsset?"));
    assert!(r.url.contains("signature="));
    assert!(r.url.contains("timestamp="));
    assert_eq!(r.headers, vec![("X-MBX-APIKEY".to_string(), "k".to_string())]);
}

#[test]
fn upstream_success_passthrough() {
    let body = br#"{"status":"ok"}"#.to_vec();
    let r = handle_response(UpstreamReply::Received(body.clone()));
    assert_eq!(r.status, 200);
    let expected: serde_json::Value = serde_json::from_slice(&body).unwrap();
    match r.body {
        RelayBody::Payload(v) => assert_eq!(v, expected),
        RelayBody::ErrorMessage(m) => panic!("expected payload, got error {m}"),
    }
}

#[test]
fn upstream_transport_failure() {
    let r = handle_response(UpstreamReply::Failed);
    assert_eq!(r.status, 500);
    match r.body {
        RelayBody::ErrorMessage(m) => assert_eq!(m, "An error occurred while fetching news"),
        RelayBody::Payload(_) => panic!("expected an error message"),
    }
}

#[test]
fn upstream_malformed_body() {
    let r = handle_response(UpstreamReply::Received(b"not json at all".to_vec()));
    assert_eq!(r.status, 400);
    match r.body {
        RelayBody::ErrorMessage(m) => assert_eq!(m, "Failed to parse news data"),
        RelayBody::Payload(_) => panic!("expected an error message"),
    }
}

#[test]
fn relay_parsed_returns_exact_payload() {
    let value: serde_json::Value = serde_json::from_str(r#"{"a":[1,2,3],"b":null}"#).unwrap();
    let r = relay_parsed(Ok(value.clone()));
    assert_eq!(r.status, 200);
    match r.body {
        RelayBody::Payload(v) => assert_eq!(v, value),
        RelayBody::ErrorMessage(m) => panic!("expected payload, got error {m}"),
    }
}

#[test]
fn relay_parsed_hides_error_detail() {
    let err = serde_json::from_slice::<serde_json::Value>(b"{{{{").unwrap_err();
    let r = relay_parsed(Err(err));
    assert_eq!(r.status, 400);
    match r.body {
        RelayBody::ErrorMessage(m) => assert_eq!(m, "Failed to parse news data"),
        RelayBody::Payload(_) => panic!("expected an error message"),
    }
}
