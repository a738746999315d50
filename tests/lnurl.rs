use payany::json::Json;
use payany::lnurl::{
    check_lnurl_invoice, check_metadata, lnurl_callback_url, lnurl_config_url, validate_lnurl_config,
    verify_lnurl_invoice, LnurlError, LnurlpConfig,
};

fn config(tag: &str, min: u64, max: u64, comment_allowed: Option<u64>) -> LnurlpConfig {
    LnurlpConfig {
        callback: "https://example.com/cb".to_string(),
        max_sendable: max,
        min_sendable: min,
        metadata: "[[\"text/plain\",\"hi\"]]".to_string(),
        tag: tag.to_string(),
        comment_allowed,
    }
}

fn s(t: &str) -> Json {
    Json::Str(t.to_string())
}

fn pair(a: Json, b: Json) -> Json {
    Json::Array(vec![a, b])
}

fn hex(h: &str) -> Vec<u8> {
    (0..h.len()).step_by(2).map(|i| u8::from_str_radix(&h[i..i + 2], 16).unwrap()).collect()
}

#[test]
fn lnurl_amount_bounds_inclusive() {
    let c = config("payRequest", 1000, 5000, None);
    assert_eq!(
        validate_lnurl_config(&c, 999, None, &None, false),
        Err(LnurlError::BelowMinimum { amount_msat: 999, min_sendable: 1000 })
    );
    assert_eq!(validate_lnurl_config(&c, 1000, None, &None, false), Ok(()));
    assert_eq!(validate_lnurl_config(&c, 5000, None, &None, false), Ok(()));
    assert_eq!(
        validate_lnurl_config(&c, 5001, None, &None, false),
        Err(LnurlError::AboveMaximum { amount_msat: 5001, max_sendable: 5000 })
    );
}

#[test]
fn lnurl_wrong_tag_rejected() {
    let c = config("withdrawRequest", 1000, 5000, Some(100));
    assert_eq!(validate_lnurl_config(&c, 2000, None, &None, true), Err(LnurlError::NotPayRequest));
    let c = config("PAYREQUEST", 1000, 5000, None);
    assert_eq!(validate_lnurl_config(&c, 2000, None, &None, true), Ok(()));
}

#[test]
fn lnurl_metadata_address() {
    let c = config("payRequest", 1, 10, None);
    let declared = Some(Json::Array(vec![
        pair(s("text/plain"), s("pay me")),
        pair(s("text/identifier"), s("Alice@Example.com")),
    ]));
    assert_eq!(validate_lnurl_config(&c, 5, Some("alice@example.com"), &declared, true), Ok(()));
    let email = Some(Json::Array(vec![pair(s("TEXT/EMAIL"), s("alice@example.com"))]));
    assert_eq!(check_metadata(&email, "alice@example.com", true), Ok(()));
    let other = Some(Json::Array(vec![pair(s("text/plain"), s("alice@example.com"))]));
    assert_eq!(
        check_metadata(&other, "alice@example.com", true),
        Err(LnurlError::AddressNotInMetadata)
    );
    assert_eq!(check_metadata(&other, "alice@example.com", false), Ok(()));
}

#[test]
fn lnurl_metadata_malformed() {
    assert_eq!(check_metadata(&None, "a@b", false), Err(LnurlError::MetadataMalformed));
    assert_eq!(
        check_metadata(&Some(s("not an array")), "a@b", false),
        Err(LnurlError::MetadataMalformed)
    );
    let short = Some(Json::Array(vec![Json::Array(vec![s("text/plain")])]));
    assert_eq!(check_metadata(&short, "a@b", false), Err(LnurlError::MetadataMalformed));
    let bad_value = Some(Json::Array(vec![pair(s("text/identifier"), Json::Null)]));
    assert_eq!(check_metadata(&bad_value, "a@b", false), Err(LnurlError::MetadataMalformed));
    let plain_null = Some(Json::Array(vec![pair(s("text/plain"), Json::Null)]));
    assert_eq!(check_metadata(&plain_null, "a@b", false), Ok(()));
}

#[test]
fn lnurl_callback_urls() {
    let c = config("payRequest", 1, 10, Some(5));
    assert_eq!(
        lnurl_callback_url(&c, 2500, None),
        Ok("https://example.com/cb?amount=2500".to_string())
    );
    assert_eq!(
        lnurl_callback_url(&c, 7, Some("hello")),
        Ok("https://example.com/cb?amount=7&comment=hello".to_string())
    );
    assert_eq!(
        lnurl_callback_url(&c, 7, Some("hello!")),
        Err(LnurlError::CommentTooLong { length: 6, allowed: 5 })
    );
    let c = config("payRequest", 1, 10, None);
    assert_eq!(lnurl_callback_url(&c, 7, Some("hi")), Err(LnurlError::CommentNotSupported));
    assert_eq!(lnurl_callback_url(&c, 0, None), Ok("https://example.com/cb?amount=0".to_string()));
}

#[test]
fn lnurl_invoice_checks() {
    let digest = hex("ba7816bf8f01cfea414140de5dae2223b00361a396177a9cb410ff61f20015ad");
    assert_eq!(check_lnurl_invoice(Some(10), 10, &Some(digest.clone()), &digest, true), Ok(()));
    assert_eq!(
        check_lnurl_invoice(Some(11), 10, &Some(digest.clone()), &digest, true),
        Err(LnurlError::WrongAmount { invoice_msat: 11, amount_msat: 10 })
    );
    assert_eq!(
        check_lnurl_invoice(None, 10, &None, &digest, false),
        Err(LnurlError::WrongAmount { invoice_msat: 0, amount_msat: 10 })
    );
    assert_eq!(check_lnurl_invoice(Some(10), 10, &None, &digest, false), Ok(()));
    assert_eq!(
        check_lnurl_invoice(Some(10), 10, &None, &digest, true),
        Err(LnurlError::MissingDescriptionHash)
    );
    assert_eq!(
        check_lnurl_invoice(Some(10), 10, &Some(vec![0u8; 32]), &digest, false),
        Err(LnurlError::DescriptionHashMismatch)
    );
}

#[test]
fn lnurl_description_hash_is_metadata_digest() {
    let digest = hex("ba7816bf8f01cfea414140de5dae2223b00361a396177a9cb410ff61f20015ad");
    assert_eq!(verify_lnurl_invoice(Some(10), 10, &Some(digest.clone()), "abc", true), Ok(()));
    assert_eq!(
        verify_lnurl_invoice(Some(10), 10, &Some(digest), "abd", true),
        Err(LnurlError::DescriptionHashMismatch)
    );
    let meta = "[[\"text/plain\",\"hi\"]]";
    let meta_digest = hex("c130467e6d7ebe44dde0b6380acefd25f494b979186b48d6961f655b603a16b6");
    assert_eq!(verify_lnurl_invoice(Some(1), 1, &Some(meta_digest), meta, true), Ok(()));
    assert_eq!(
        verify_lnurl_invoice(Some(1), 1, &Some(meta.as_bytes().to_vec()), meta, false),
        Err(LnurlError::DescriptionHashMismatch)
    );
}

#[test]
fn lnurl_bech32_decoding() {
    assert_eq!(
        lnurl_config_url("lnurl1dp68gurn8ghj7um9wfmxjcm99e3k7mf0v9cxj0m385csm4ezqk"),
        Ok("https://service.com/api?q=1".to_string())
    );
    assert_eq!(lnurl_config_url("lnurl1lllq95yn5p"), Err(LnurlError::NotUtf8));
    assert_eq!(
        lnurl_config_url("lnurl1dp68gurn8ghj7um9wfmxjcm99e3k7mf0v9cxj0m385csm4ezqq"),
        Err(LnurlError::Bech32)
    );
    assert_eq!(lnurl_config_url("not bech32"), Err(LnurlError::Bech32));
}
