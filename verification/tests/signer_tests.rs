use signed_relay::decimal::{i64_dec, u64_dec};
use signed_relay::ordering::{lex_le_exec, sort_pairs};
use signed_relay::signer::{sign, SigningParams};

fn params_from(pairs: &[(&str, &str)]) -> SigningParams {
    let mut params = SigningParams::new();
    for (k, v) in pairs {
        params.insert((*k).to_string(), (*v).to_string());
    }
    params
}

#[test]
fn sign_is_deterministic() {
    let params = params_from(&[("timestamp", "1700000000000"), ("needBtcValuation", "true")]);
    let first = sign("topsecret", &params);
    let second = sign("topsecret", &params);
    assert_eq!(first, second);
}

#[test]
fn sign_ignores_insertion_order() {
    let forward = params_from(&[("a", "1"), ("b", "2"), ("c", "3")]);
    let backward = params_from(&[("c", "3"), ("b", "2"), ("a", "1")]);
    assert_eq!(sign("mysecret", &forward), sign("mysecret", &backward));
}

#[test]
fn sign_length_and_charset() {
    let params = params_from(&[("a", "1"), ("b", "2")]);
    let signature = sign("mysecret", &params);
    assert_eq!(signature.len(), 64);
    assert!(signature
        .chars()
        .all(|c| c.is_ascii_digit() || ('a'..='f').contains(&c)));
}

#[test]
fn sign_known_vector() {
    let params = params_from(&[("a", "1"), ("b", "2")]);
    let signature = sign("mysecret", &params);
    assert_eq!(
        signature,
        "e224701e415d9f26745c354f61faaba0d842a18a7c97178c137a9695dc0f208b"
    );
    let expected = crypto_hash::hex_digest(crypto_hash::Algorithm::SHA256, b"a=1&b=2mysecret");
    assert_eq!(signature, expected);
}

#[test]
fn sign_empty_params_hashes_secret_alone() {
    let params = SigningParams::new();
    let signature = sign("abc", &params);
    let expected = crypto_hash::hex_digest(crypto_hash::Algorithm::SHA256, b"abc");
    assert_eq!(signature, expected);
}

#[test]
fn sign_sorts_keys_before_serializing() {
    let params = params_from(&[("b", "2"), ("a", "1")]);
    let signature = sign("mysecret", &params);
    let sorted_message = crypto_hash::hex_digest(crypto_hash::Algorithm::SHA256, b"a=1&b=2mysecret");
    let unsorted_message =
        crypto_hash::hex_digest(crypto_hash::Algorithm::SHA256, b"b=2&a=1mysecret");
    assert_eq!(signature, sorted_message);
    assert_ne!(signature, unsorted_message);
}

#[test]
fn insert_replaces_existing_key() {
    let mut params = SigningParams::new();
    params.insert("k".to_string(), "old".to_string());
    params.insert("k".to_string(), "new".to_string());
    assert_eq!(params.len(), 1);
    let expected = crypto_hash::hex_digest(crypto_hash::Algorithm::SHA256, b"k=news");
    assert_eq!(sign("s", &params), expected);
}

#[test]
fn lex_compare_orders_strings() {
    assert!(lex_le_exec("abc", "abd"));
    assert!(!lex_le_exec("abd", "abc"));
    assert!(lex_le_exec("ab", "abc"));
    assert!(!lex_le_exec("abc", "ab"));
    assert!(lex_le_exec("", "a"));
    assert!(lex_le_exec("same", "same"));
    assert!(lex_le_exec("needBtcValuation", "signature"));
    assert!(lex_le_exec("signature", "timestamp"));
}

#[test]
fn sort_pairs_sorts_by_key() {
    let input = vec![
        ("timestamp".to_string(), "99".to_string()),
        ("needBtcValuation".to_string(), "true".to_string()),
        ("signature".to_string(), "aa".to_string()),
    ];
    let sorted = sort_pairs(&input);
    let keys: Vec<&str> = sorted.iter().map(|p| p.0.as_str()).collect();
    assert_eq!(keys, vec!["needBtcValuation", "signature", "timestamp"]);
}

#[test]
fn decimal_renders_unsigned() {
    assert_eq!(u64_dec(0), "0");
    assert_eq!(u64_dec(7), "7");
    assert_eq!(u64_dec(1700000000000), "1700000000000");
    assert_eq!(u64_dec(u64::MAX), "18446744073709551615");
}

#[test]
fn decimal_renders_signed() {
    assert_eq!(i64_dec(0), "0");
    assert_eq!(i64_dec(1700000000000), "1700000000000");
    assert_eq!(i64_dec(-45), "-45");
    assert_eq!(i64_dec(i64::MIN), "-9223372036854775808");
}
