use payany::offer::{
    bip353_on_cname, bip353_on_txt, bip353_query_name, bip353_start, bolt12_request_amount,
    check_bolt12_invoice, offer_from_bip21, resolver_order, secure_cname, select_bip21, Bip353Action,
    Bip353Error, Bip353Walk, DecodedOffer, DnsData, DnsRecord, DnsServer, OfferError, MAX_CNAME_HOPS,
};

fn txt(secure: bool, t: &str) -> DnsRecord {
    DnsRecord { secure, data: DnsData::Txt(t.to_string()) }
}

fn cname(secure: bool, t: &str) -> DnsRecord {
    DnsRecord { secure, data: DnsData::Cname(t.to_string()) }
}

fn walk(resolver: usize, hops: u32) -> Bip353Walk {
    Bip353Walk {
        resolver,
        name: "alice.user._bitcoin-payment.example.com".to_string(),
        base: "alice.user._bitcoin-payment.example.com".to_string(),
        hops,
    }
}

#[test]
fn bolt12_fixed_amount_mismatch_rejected() {
    let offer = DecodedOffer { currency: None, amount_msat: Some(1000) };
    assert_eq!(
        bolt12_request_amount(&offer, Some(2000)),
        Err(OfferError::AmountMismatch { offer_msat: 1000, stated_msat: 2000 })
    );
    assert_eq!(bolt12_request_amount(&offer, Some(1000)), Ok(None));
    assert_eq!(bolt12_request_amount(&offer, None), Ok(None));
}

#[test]
fn bolt12_any_amount() {
    let offer = DecodedOffer { currency: None, amount_msat: None };
    assert_eq!(bolt12_request_amount(&offer, Some(5)), Ok(Some(5)));
    assert_eq!(bolt12_request_amount(&offer, None), Err(OfferError::AmountRequired));
    let foreign = DecodedOffer { currency: Some("USD".to_string()), amount_msat: Some(1) };
    assert_eq!(bolt12_request_amount(&foreign, Some(1)), Err(OfferError::ForeignCurrency));
}

#[test]
fn bolt12_invoice_amounts() {
    assert_eq!(check_bolt12_invoice(Some(10), Some(10), Some(10)), Ok(()));
    assert_eq!(check_bolt12_invoice(None, Some(10), Some(10)), Ok(()));
    assert_eq!(
        check_bolt12_invoice(Some(10), None, Some(11)),
        Err(OfferError::InvoiceDiffersFromOffer { invoice_msat: 11, offer_msat: 10 })
    );
    assert_eq!(
        check_bolt12_invoice(None, Some(10), Some(12)),
        Err(OfferError::InvoiceDiffersFromStated { invoice_msat: 12, stated_msat: 10 })
    );
    assert_eq!(check_bolt12_invoice(None, Some(10), None), Err(OfferError::InvoiceAmountMissing));
}

#[test]
fn bip353_two_bitcoin_records_ambiguous() {
    let records = vec![txt(true, "bitcoin:?lno=lno1aaa"), txt(true, "bitcoin:?lno=lno1bbb")];
    assert!(matches!(select_bip21(&records), Err(Bip353Error::Ambiguous)));
    assert_eq!(bip353_on_txt(walk(0, 0), &records), Bip353Action::Fail(Bip353Error::Ambiguous));
    let odd = vec![txt(true, "bitcoin:x"), txt(false, "other"), txt(true, "bitcoin:")];
    assert!(matches!(select_bip21(&odd), Err(Bip353Error::Ambiguous)));
}

#[test]
fn bip353_insecure_records_ignored() {
    let records = vec![txt(false, "bitcoin:?lno=lno1evil"), txt(true, "bitcoin:?lno=lno1good")];
    assert_eq!(bip353_on_txt(walk(0, 0), &records), Bip353Action::FetchOffer("lno1good".to_string()));
    let none = vec![txt(false, "bitcoin:?lno=lno1evil"), txt(true, "v=spf1")];
    assert_eq!(select_bip21(&none), Ok(None));
    assert_eq!(bip353_on_txt(walk(1, 2), &none), Bip353Action::LookupCname(walk(1, 2)));
}

#[test]
fn bip21_offer_parameter() {
    let uri: Vec<char> = "bc1qexample?amount=0.1&lno=lno1xyz&sp=sp1q".chars().collect();
    assert_eq!(offer_from_bip21(&uri), Some("lno1xyz".to_string()));
    let uri: Vec<char> = "?lno=lno1only".chars().collect();
    assert_eq!(offer_from_bip21(&uri), Some("lno1only".to_string()));
    let uri: Vec<char> = "bc1qexample?amount=1".chars().collect();
    assert_eq!(offer_from_bip21(&uri), None);
    let uri: Vec<char> = "lno=lno1noquery".chars().collect();
    assert_eq!(offer_from_bip21(&uri), None);
    let records = vec![txt(true, "bitcoin:bc1q?amount=1")];
    assert_eq!(bip353_on_txt(walk(0, 0), &records), Bip353Action::Fail(Bip353Error::NoOffer));
}

#[test]
fn bip353_cname_steps() {
    let records = vec![cname(false, "evil.example."), cname(true, "alias.example.")];
    assert_eq!(secure_cname(&records), Some("alias.example.".to_string()));
    match bip353_on_cname(walk(0, 0), &records, 4) {
        Bip353Action::LookupTxt(w) => {
            assert_eq!(w.resolver, 0);
            assert_eq!(w.name, "alias.example.");
            assert_eq!(w.hops, 1);
        }
        other => panic!("unexpected step {:?}", other),
    }
    assert_eq!(
        bip353_on_cname(walk(0, MAX_CNAME_HOPS), &records, 4),
        Bip353Action::Fail(Bip353Error::TooManyRedirects)
    );
    match bip353_on_cname(walk(2, 3), &vec![], 4) {
        Bip353Action::LookupTxt(w) => {
            assert_eq!(w.resolver, 3);
            assert_eq!(w.name, "alice.user._bitcoin-payment.example.com");
            assert_eq!(w.hops, 0);
        }
        other => panic!("unexpected step {:?}", other),
    }
    assert_eq!(bip353_on_cname(walk(3, 0), &vec![], 4), Bip353Action::Fail(Bip353Error::NotFound));
}

#[test]
fn bip353_start_and_names() {
    assert_eq!(bip353_query_name("bob", "pay.example"), "bob.user._bitcoin-payment.pay.example");
    assert_eq!(bip353_start("bob", "pay.example", 0), Bip353Action::Fail(Bip353Error::NotFound));
    match bip353_start("bob", "pay.example", 3) {
        Bip353Action::LookupTxt(w) => {
            assert_eq!(w.resolver, 0);
            assert_eq!(w.name, "bob.user._bitcoin-payment.pay.example");
            assert_eq!(w.base, w.name);
        }
        other => panic!("unexpected step {:?}", other),
    }
}

#[test]
fn resolver_lists() {
    assert_eq!(
        resolver_order(DnsServer::Google, false),
        vec![DnsServer::Google, DnsServer::Cloudflare, DnsServer::Quad9, DnsServer::System]
    );
    assert_eq!(
        resolver_order(DnsServer::Google, true),
        vec![DnsServer::Google, DnsServer::Cloudflare, DnsServer::Quad9]
    );
    assert_eq!(
        resolver_order(DnsServer::Quad9, false),
        vec![DnsServer::Quad9, DnsServer::Google, DnsServer::Cloudflare, DnsServer::System]
    );
    assert_eq!(
        resolver_order(DnsServer::System, false),
        vec![DnsServer::System, DnsServer::Google, DnsServer::Cloudflare, DnsServer::Quad9]
    );
    assert_eq!(
        resolver_order(DnsServer::System, true),
        vec![DnsServer::Google, DnsServer::Cloudflare, DnsServer::Quad9]
    );
    assert_eq!(
        resolver_order(DnsServer::Cloudflare, true),
        vec![DnsServer::Cloudflare, DnsServer::Google, DnsServer::Quad9]
    );
}

#[test]
fn bolt12_invoice_mismatch_order() {
    assert_eq!(
        check_bolt12_invoice(Some(10), Some(10), Some(9)),
        Err(OfferError::InvoiceDiffersFromOffer { invoice_msat: 9, offer_msat: 10 })
    );
}
