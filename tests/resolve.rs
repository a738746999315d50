use payany::gateway::Paycmd;
use payany::json::{Json, Params};
use payany::resolve::{
    apply_invoice, as_u64, classify, lnaddress_failure_message, lnurlp_well_known_url,
    normalize_identifier, plan_resolution, split_lnaddress, strip_uri_scheme, IdentifierKind,
    ResolveError,
};

fn params(pairs: Vec<(&str, Json)>) -> Params {
    let mut p = Params::new();
    for (k, v) in pairs {
        p.insert(k.to_string(), v);
    }
    p
}

fn s(t: &str) -> Json {
    Json::Str(t.to_string())
}

#[test]
fn identifiers_are_normalized() {
    assert_eq!(normalize_identifier("LIGHTNING:LNO1ABC"), "lno1abc");
    assert_eq!(normalize_identifier("lno:lno1xyz"), "lno1xyz");
    assert_eq!(normalize_identifier("LNURL:LNURL1DP"), "lnurl1dp");
    assert_eq!(normalize_identifier("Bob@Example.COM"), "bob@example.com");
    assert_eq!(normalize_identifier("ÄLICE@X"), "älice@x");
    assert_eq!(strip_uri_scheme("lightning:lnurl:x"), "lnurl:x");
}

#[test]
fn identifiers_are_classified() {
    assert_eq!(classify("lnurl1dp68"), IdentifierKind::Lnurl);
    assert_eq!(classify("lnurl@weird"), IdentifierKind::Lnurl);
    assert_eq!(classify("bob@example.com"), IdentifierKind::LightningAddress);
    assert_eq!(classify("lno1qcp4"), IdentifierKind::Bolt12Offer);
    assert_eq!(classify("lnbc10u1p"), IdentifierKind::Invoice);
}

#[test]
fn resolution_plan_reads_parameters() {
    let p = params(vec![
        ("bolt11", s("LIGHTNING:bob@example.com")),
        ("amount_msat", Json::Number("21000".to_string())),
        ("message", Json::Number("42".to_string())),
    ]);
    let r = plan_resolution(&p, Paycmd::Pay).unwrap();
    assert_eq!(r.kind, IdentifierKind::LightningAddress);
    assert_eq!(r.identifier, "bob@example.com");
    assert_eq!(r.amount_msat, Some(21000));
    assert_eq!(r.message, Some("42".to_string()));
    let p = params(vec![("invstring", s("lno1abc"))]);
    let r = plan_resolution(&p, Paycmd::Xpay).unwrap();
    assert_eq!(r.kind, IdentifierKind::Bolt12Offer);
    assert_eq!(r.amount_msat, None);
    assert_eq!(r.message, None);
}

#[test]
fn resolution_plan_errors() {
    let p = params(vec![("invstring", s("lno1abc"))]);
    assert_eq!(
        plan_resolution(&p, Paycmd::Pay),
        Err(ResolveError::MissingParameter("bolt11".to_string()))
    );
    let p = params(vec![("invstring", Json::Bool(true))]);
    assert_eq!(plan_resolution(&p, Paycmd::Renepay), Err(ResolveError::InvstringNotString));
    let p = params(vec![("invstring", s("lnurl1x")), ("amount_msat", s("5"))]);
    assert_eq!(plan_resolution(&p, Paycmd::Xpay), Err(ResolveError::AmountNotInteger));
    let p = params(vec![("invstring", s("lnurl1x")), ("message", Json::Null)]);
    assert_eq!(plan_resolution(&p, Paycmd::Xpay), Err(ResolveError::MessageNotString));
    let p = params(vec![("invstring", s("lnurl1x"))]);
    assert_eq!(
        plan_resolution(&p, Paycmd::Xpay),
        Err(ResolveError::MissingAmount(IdentifierKind::Lnurl))
    );
    let p = params(vec![("invstring", s("a@b"))]);
    assert_eq!(
        plan_resolution(&p, Paycmd::Xpay),
        Err(ResolveError::MissingAmount(IdentifierKind::LightningAddress))
    );
}

#[test]
fn lightning_addresses() {
    assert_eq!(split_lnaddress("bob@example.com"), Ok(("bob".to_string(), "example.com".to_string())));
    assert_eq!(
        split_lnaddress("a@b@c"),
        Err(ResolveError::InvalidAddress("a@b@c".to_string()))
    );
    assert_eq!(
        lnurlp_well_known_url("bob", "example.com"),
        "https://example.com/.well-known/lnurlp/bob"
    );
    assert_eq!(
        lnurlp_well_known_url("bob", "localhost:8080"),
        "http://localhost:8080/.well-known/lnurlp/bob"
    );
    assert_eq!(
        lnurlp_well_known_url("bob", "127.0.0.1:3000"),
        "http://127.0.0.1:3000/.well-known/lnurlp/bob"
    );
}

#[test]
fn lightning_address_failure_names_both_causes() {
    let m = lnaddress_failure_message("no TXT record", "bad status 404");
    assert!(m.contains("no TXT record"));
    assert!(m.contains("bad status 404"));
    assert_eq!(
        m,
        "Error fetching invoice from bip353:no TXT record and error fetching invoice from lnurl: bad status 404"
    );
}

#[test]
fn resolved_invoice_replaces_identifier() {
    let mut p = params(vec![
        ("invstring", s("lno1abc")),
        ("amount_msat", Json::Number("1000".to_string())),
        ("maxfee", Json::Number("5".to_string())),
    ]);
    apply_invoice(&mut p, "invstring", "lni1resolved".to_string());
    assert_eq!(p.get("invstring"), Some(&s("lni1resolved")));
    assert_eq!(p.get("amount_msat"), None);
    assert_eq!(p.get("maxfee"), Some(&Json::Number("5".to_string())));
}

#[test]
fn json_unsigned_numbers() {
    assert_eq!(as_u64(&Json::Number("18446744073709551615".to_string())), Some(u64::MAX));
    assert_eq!(as_u64(&Json::Number("18446744073709551616".to_string())), None);
    assert_eq!(as_u64(&Json::Number("-1".to_string())), None);
    assert_eq!(as_u64(&Json::Number("1.0".to_string())), None);
    assert_eq!(as_u64(&s("1")), None);
}
