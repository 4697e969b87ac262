use somebdd::api::{
    get_api_sign, get_url_and_query_string, get_url_encoded_params, ApiContext,
};

#[test]
fn api_urls_are_built_from_the_host() {
    let ctx = ApiContext::new(
        "key".to_string(),
        "api.example.com".to_string(),
        "c2VjcmV0".to_string(),
        "123456".to_string(),
    );
    assert_eq!(ctx.get_public_api_url(), "https://api.example.com/0/public/");
    assert_eq!(ctx.get_private_api_url(), "https://api.example.com/0/private/");
    assert_eq!(ctx.otp, "123456");
    assert_eq!(ctx.api_key().as_str(), "key");
}

#[test]
fn params_join_in_given_order() {
    let params = vec![
        ("pair".to_string(), "XXBTZUSD".to_string()),
        ("nonce".to_string(), "17".to_string()),
    ];
    assert_eq!(get_url_encoded_params(&params), "pair=XXBTZUSD&nonce=17");
    let one = vec![("a".to_string(), "b".to_string())];
    assert_eq!(get_url_encoded_params(&one), "a=b");
    let none: Vec<(String, String)> = vec![];
    assert_eq!(get_url_encoded_params(&none), "");
}

#[test]
fn query_string_appended_only_when_params_exist() {
    let none: Vec<(String, String)> = vec![];
    assert_eq!(get_url_and_query_string("https://h/x", &none), "https://h/x");
    let params = vec![("k".to_string(), "v".to_string())];
    assert_eq!(get_url_and_query_string("https://h/x", &params), "https://h/x?k=v");
}

#[test]
fn signing_requires_a_base64_secret() {
    assert!(get_api_sign("17", "/0/private/OpenOrders", "!!!not-base64!!!", "nonce=17").is_none());
}

#[test]
fn signature_is_a_base64_hmac_tag() {
    let sig = get_api_sign("17", "/0/private/OpenOrders", "c2VjcmV0", "nonce=17&otp=1").unwrap();
    // Base64 of the 64-byte HMAC-SHA-512 tag: 88 characters, padded.
    assert_eq!(sig.len(), 88);
    assert!(sig.ends_with('='));
    assert!(sig.chars().all(|c| c.is_ascii_alphanumeric() || c == '+' || c == '/' || c == '='));
    // The signature depends on its inputs.
    let other = get_api_sign("18", "/0/private/OpenOrders", "c2VjcmV0", "nonce=18&otp=1").unwrap();
    assert_ne!(sig, other);
}

#[test]
fn nonce_is_seconds_since_the_epoch() {
    let n = ApiContext::get_nonce();
    // Some time after 2020-01-01 and within this century.
    assert!(n > 1_577_836_800);
    assert!(n < 4_102_444_800);
}
