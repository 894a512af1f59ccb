use talksage::sorted_map::StrMap;
use talksage::token::{
    build_canonical_query, compact_of, new_compact_id, days_to_ymd, percent_encode, sign_hmac_sha1, time_to_iso8601,
    url_query_string, TokenInfo, TokenManager,
};

#[test]
fn token_info_expired() {
    let t = TokenInfo { id: "tok".into(), expire_time: 0 };
    assert!(t.is_expired());
}

#[test]
fn token_info_not_expired() {
    let t = TokenInfo { id: "tok".into(), expire_time: u64::MAX };
    assert!(!t.is_expired());
}

#[test]
fn expiry_refreshes_five_minutes_early() {
    let t = TokenInfo { id: "tok".into(), expire_time: 1_000 };
    assert!(!t.is_expired_at(699));
    assert!(t.is_expired_at(700));
    assert!(t.is_expired_at(5_000));
}

#[test]
fn build_canonical_query_sorts_and_encodes() {
    let mut params = StrMap::new();
    params.insert("Action", "CreateToken");
    params.insert("Format", "JSON");
    params.insert("Version", "2019-02-28");
    let s = build_canonical_query(&params);
    assert!(s.starts_with("Action=CreateToken"));
    assert!(s.contains("&Format=JSON"));
    assert!(s.contains("&Version=2019-02-28"));
}

#[test]
fn parameters_are_kept_in_name_order_and_replaced_in_place() {
    let mut params = StrMap::new();
    assert_eq!(params.insert("Version", "1"), 0);
    assert_eq!(params.insert("Action", "a b"), 0);
    assert_eq!(params.insert("Format", "JSON"), 1);
    assert_eq!(params.insert("Action", "c/d"), 0);
    assert_eq!(params.len(), 3);
    assert_eq!(build_canonical_query(&params), "Action=c%2Fd&Format=JSON&Version=1");
    assert_eq!(url_query_string(&params), "Action=c%2Fd&Format=JSON&Version=1");
}

#[test]
fn sign_produces_non_empty_base64() {
    let sig = sign_hmac_sha1("key", "string-to-sign");
    assert!(!sig.is_empty());
    assert!(sig.chars().all(|c| c.is_alphanumeric() || c == '+' || c == '/' || c == '='));
}

#[test]
fn signature_matches_the_rfc2202_vector() {
    // HMAC-SHA1("key", "The quick brown fox jumps over the lazy dog")
    // = de7c9b85b8b78aa6bc8a7a36f70a90701c9db4d9, in base64:
    assert_eq!(
        sign_hmac_sha1("key", "The quick brown fox jumps over the lazy dog"),
        "3nybhbi3iqa8ino29wqQcBydtNk="
    );
}

#[test]
fn percent_encoding_keeps_unreserved_bytes() {
    assert_eq!(percent_encode("AZaz09-_.~"), "AZaz09-_.~");
    assert_eq!(percent_encode("a b/c"), "a%20b%2Fc");
    assert_eq!(percent_encode("中"), "%E4%B8%AD");
    assert_eq!(percent_encode(""), "");
}

#[test]
fn iso8601_of_known_instants() {
    assert_eq!(time_to_iso8601(0), "1970-01-01T00:00:00Z");
    assert_eq!(time_to_iso8601(951_782_400), "2000-02-29T00:00:00Z");
    assert_eq!(time_to_iso8601(1_700_000_000), "2023-11-14T22:13:20Z");
}

#[test]
fn days_to_ymd_handles_leap_years() {
    assert_eq!(days_to_ymd(0), (1970, 1, 1));
    assert_eq!(days_to_ymd(59), (1970, 3, 1));
    assert_eq!(days_to_ymd(789), (1972, 2, 29));
    assert_eq!(days_to_ymd(11_016), (2000, 2, 29));
    assert_eq!(days_to_ymd(10_956), (1999, 12, 31));
}

#[test]
fn token_manager_reuses_a_fresh_token_only() {
    let mut m = TokenManager::new("id", "secret");
    assert_eq!(m.cached_token(100), None);
    m.store(TokenInfo { id: "abc".into(), expire_time: 10_000 });
    assert_eq!(m.cached_token(100), Some("abc".to_string()));
    assert_eq!(m.cached_token(9_800), None);
}

#[test]
fn request_url_is_signed_and_sorted() {
    let m = TokenManager::new("my-id", "my-secret");
    let url = m.request_url(0, "nonce-1");
    assert!(url.starts_with(
        "http://nls-meta.cn-shanghai.aliyuncs.com/?AccessKeyId=my-id&Action=CreateToken&Format=JSON&RegionId=cn-shanghai&Signature="
    ));
    assert!(url.ends_with(
        "&SignatureMethod=HMAC-SHA1&SignatureNonce=nonce-1&SignatureVersion=1.0&Timestamp=1970-01-01T00%3A00%3A00Z&Version=2019-02-28"
    ));
    // The signature covers the canonical query of the unsigned parameters.
    let mut unsigned = StrMap::new();
    for (k, v) in [
        ("AccessKeyId", "my-id"),
        ("Action", "CreateToken"),
        ("Format", "JSON"),
        ("RegionId", "cn-shanghai"),
        ("SignatureMethod", "HMAC-SHA1"),
        ("SignatureNonce", "nonce-1"),
        ("SignatureVersion", "1.0"),
        ("Timestamp", "1970-01-01T00:00:00Z"),
        ("Version", "2019-02-28"),
    ] {
        unsigned.insert(k, v);
    }
    let to_sign = format!("GET&%2F&{}", percent_encode(&build_canonical_query(&unsigned)));
    let sig = sign_hmac_sha1("my-secret&", &to_sign);
    assert!(url.contains(&format!("&Signature={}&", percent_encode(&sig))));
}

#[test]
fn signed_request_url_carries_a_fresh_uuid_nonce() {
    let m = TokenManager::new("id", "secret");
    let url = m.signed_request_url();
    assert!(url.starts_with("http://nls-meta.cn-shanghai.aliyuncs.com/?AccessKeyId=id&Action=CreateToken&"));
    let nonce = url.split("SignatureNonce=").nth(1).unwrap().split('&').next().unwrap();
    assert_eq!(nonce.len(), 36);
    assert_eq!(nonce.as_bytes()[14], b'4');
    assert!(url.contains("&Timestamp=20"));
    assert_ne!(url, m.signed_request_url());
}

#[test]
fn compact_ids_are_uuids_without_hyphens() {
    assert_eq!(compact_of("1b4e28ba-2fa1-41d2-883f-0016d3cca427"), "1b4e28ba2fa141d2883f0016d3cca427");
    assert_eq!(compact_of(""), "");
    let id: Vec<char> = new_compact_id().chars().collect();
    assert_eq!(id.len(), 32);
    assert_eq!(id[12], '4');
    assert!(matches!(id[16], '8' | '9' | 'a' | 'b'));
}
