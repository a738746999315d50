//! BOLT12 offer amount reconciliation and BIP353 DNS record handling.
use vstd::prelude::*;
use crate::text::{
    chars_of, find_char, first_index, has_prefix, split_chars, split_seq, starts_with, string_of, suffix,
};

verus! {

/// What the daemon's decoder reports about an offer.
#[derive(Debug, PartialEq, Eq)]
pub struct DecodedOffer {
    /// The offer's currency code, when it is not denominated in bitcoin.
    pub currency: Option<String>,
    /// The offer's fixed amount in msat, when it has one.
    pub amount_msat: Option<u64>,
}

/// Why an offer could not be turned into an invoice.
#[derive(Debug, PartialEq, Eq)]
pub enum OfferError {
    /// The offer is denominated in another currency.
    ForeignCurrency,
    /// The offer accepts any amount and the caller gave none.
    AmountRequired,
    /// The caller's amount differs from the offer's fixed amount.
    AmountMismatch { offer_msat: u64, stated_msat: u64 },
    /// The returned invoice carries no amount.
    InvoiceAmountMissing,
    /// The returned invoice's amount differs from the offer's fixed amount.
    InvoiceDiffersFromOffer { invoice_msat: u64, offer_msat: u64 },
    /// The returned invoice's amount differs from the caller's amount.
    InvoiceDiffersFromStated { invoice_msat: u64, stated_msat: u64 },
}

/// The amount to put in the invoice request for `offer`, given the caller's
/// optional amount: `None` where the offer fixes the amount itself.
///
/// Every check here runs before any invoice is requested.
pub fn bolt12_request_amount(offer: &DecodedOffer, amount_msat: Option<u64>) -> (r: Result<
    Option<u64>,
    OfferError,
>)
    ensures
        offer.currency is Some ==> r matches Err(OfferError::ForeignCurrency),
        offer.currency is None && offer.amount_msat is None && amount_msat is None ==> r matches Err(
            OfferError::AmountRequired,
        ),
        offer.currency is None && offer.amount_msat is Some && amount_msat is Some
            && offer.amount_msat != amount_msat ==> r == Err::<Option<u64>, OfferError>(
            OfferError::AmountMismatch {
                offer_msat: offer.amount_msat->0,
                stated_msat: amount_msat->0,
            },
        ),
        r is Ok <==> (offer.currency is None && (offer.amount_msat is Some || amount_msat is Some)
            && (offer.amount_msat is Some && amount_msat is Some ==> offer.amount_msat
            == amount_msat)),
        r is Ok ==> r->Ok_0 == (if offer.amount_msat is Some {
            None
        } else {
            amount_msat
        }),
{
    if offer.currency.is_some() {
        return Err(OfferError::ForeignCurrency);
    }
    match (offer.amount_msat, amount_msat) {
        (None, None) => Err(OfferError::AmountRequired),
        (Some(o), Some(a)) => if o != a {
            Err(OfferError::AmountMismatch { offer_msat: o, stated_msat: a })
        } else {
            Ok(None)
        },
        (Some(_), None) => Ok(None),
        (None, Some(a)) => Ok(Some(a)),
    }
}

/// Checks the amount of the invoice returned for an offer against the offer's fixed
/// amount and the caller's amount, whichever are present.
pub fn check_bolt12_invoice(
    offer_amount_msat: Option<u64>,
    amount_msat: Option<u64>,
    invoice_amount_msat: Option<u64>,
) -> (r: Result<(), OfferError>)
    ensures
        r is Ok <==> (invoice_amount_msat is Some && (offer_amount_msat is Some
            ==> offer_amount_msat == invoice_amount_msat) && (amount_msat is Some ==> amount_msat
            == invoice_amount_msat)),
        invoice_amount_msat is None ==> r matches Err(OfferError::InvoiceAmountMissing),
        invoice_amount_msat is Some && offer_amount_msat is Some && offer_amount_msat
            != invoice_amount_msat ==> r == Err::<(), OfferError>(
            OfferError::InvoiceDiffersFromOffer {
                invoice_msat: invoice_amount_msat->0,
                offer_msat: offer_amount_msat->0,
            },
        ),
        invoice_amount_msat is Some && (offer_amount_msat is None || offer_amount_msat
            == invoice_amount_msat) && amount_msat is Some && amount_msat != invoice_amount_msat
            ==> r == Err::<(), OfferError>(
            OfferError::InvoiceDiffersFromStated {
                invoice_msat: invoice_amount_msat->0,
                stated_msat: amount_msat->0,
            },
        ),
{
    let inv = match invoice_amount_msat {
        Some(i) => i,
        None => return Err(OfferError::InvoiceAmountMissing),
    };
    if let Some(o) = offer_amount_msat {
        if inv != o {
            return Err(OfferError::InvoiceDiffersFromOffer { invoice_msat: inv, offer_msat: o });
        }
    }
    if let Some(a) = amount_msat {
        if inv != a {
            return Err(OfferError::InvoiceDiffersFromStated { invoice_msat: inv, stated_msat: a });
        }
    }
    Ok(())
}

/// Most CNAME redirects followed for one resolver before giving up.
pub const MAX_CNAME_HOPS: u32 = 8;

/// The DNS servers that BIP353 lookups can go through.
#[derive(Debug, PartialEq, Eq, Structural, Clone, Copy)]
pub enum DnsServer {
    System,
    Google,
    Cloudflare,
    Quad9,
}

/// The resolvers to try, in order: the preferred one first, then the public
/// DNS-over-HTTPS services, and the system resolver last. Behind a proxy the system
/// resolver, which would bypass it, is left out.
pub open spec fn resolver_list(preferred: DnsServer, proxied: bool) -> Seq<DnsServer> {
    let tail = if proxied {
        Seq::<DnsServer>::empty()
    } else {
        seq![DnsServer::System]
    };
    match preferred {
        DnsServer::Google => seq![DnsServer::Google, DnsServer::Cloudflare, DnsServer::Quad9] + tail,
        DnsServer::Cloudflare => seq![DnsServer::Cloudflare, DnsServer::Google, DnsServer::Quad9]
            + tail,
        DnsServer::Quad9 => seq![DnsServer::Quad9, DnsServer::Google, DnsServer::Cloudflare] + tail,
        DnsServer::System => if proxied {
            seq![DnsServer::Google, DnsServer::Cloudflare, DnsServer::Quad9]
        } else {
            seq![DnsServer::System, DnsServer::Google, DnsServer::Cloudflare, DnsServer::Quad9]
        },
    }
}

pub fn resolver_order(preferred: DnsServer, proxied: bool) -> (r: Vec<DnsServer>)
    ensures
        r@ == resolver_list(preferred, proxied),
{
    let mut r = match preferred {
        DnsServer::Google => vec![DnsServer::Google, DnsServer::Cloudflare, DnsServer::Quad9],
        DnsServer::Cloudflare => vec![DnsServer::Cloudflare, DnsServer::Google, DnsServer::Quad9],
        DnsServer::Quad9 => vec![DnsServer::Quad9, DnsServer::Google, DnsServer::Cloudflare],
        DnsServer::System => if proxied {
            vec![DnsServer::Google, DnsServer::Cloudflare, DnsServer::Quad9]
        } else {
            vec![DnsServer::System, DnsServer::Google, DnsServer::Cloudflare, DnsServer::Quad9]
        },
    };
    if !proxied && preferred != DnsServer::System {
        r.push(DnsServer::System);
    }
    assert(r@ =~= resolver_list(preferred, proxied));
    r
}

/// The DNS name under which `user`'s payment instructions at `domain` are published.
pub open spec fn bip353_name(user: Seq<char>, domain: Seq<char>) -> Seq<char> {
    user + ".user._bitcoin-payment."@ + domain
}

pub fn bip353_query_name(user: &str, domain: &str) -> (r: String)
    ensures
        r@ == bip353_name(user@, domain@),
{
    let mut r = String::from_str(user);
    r.append(".user._bitcoin-payment.");
    r.append(domain);
    r
}

/// The payload of one DNS answer record.
#[derive(Debug, PartialEq, Eq)]
pub enum DnsData {
    /// A TXT record, its character strings joined.
    Txt(String),
    /// A CNAME record's target name.
    Cname(String),
    /// Any other record type.
    Other,
}

/// One DNS answer record with the outcome of its DNSSEC validation.
#[derive(Debug, PartialEq, Eq)]
pub struct DnsRecord {
    pub secure: bool,
    pub data: DnsData,
}

/// A secure TXT record holding a BIP21 URI.
pub open spec fn is_bip21_record(r: DnsRecord) -> bool {
    r.secure && match r.data {
        DnsData::Txt(t) => has_prefix(t@, "bitcoin:"@),
        _ => false,
    }
}

/// How many records of `rs` are secure BIP21 TXT records.
pub open spec fn bip21_count(rs: Seq<DnsRecord>) -> nat
    decreases rs.len(),
{
    if rs.len() == 0 {
        0
    } else {
        bip21_count(rs.drop_last()) + if is_bip21_record(rs.last()) { 1nat } else { 0 }
    }
}

/// The text of the first secure BIP21 record.
pub open spec fn first_bip21(rs: Seq<DnsRecord>) -> Seq<char>
    decreases rs.len(),
{
    if rs.len() == 0 {
        Seq::empty()
    } else if bip21_count(rs.drop_last()) > 0 {
        first_bip21(rs.drop_last())
    } else {
        match rs.last().data {
            DnsData::Txt(t) => t@,
            _ => Seq::empty(),
        }
    }
}

/// Why BIP353 resolution failed.
#[derive(Debug, PartialEq, Eq)]
pub enum Bip353Error {
    /// More than one secure TXT record holds a BIP21 URI.
    Ambiguous,
    /// The BIP21 URI carries no `lno` parameter.
    NoOffer,
    /// No resolver produced a secure answer.
    NotFound,
    /// A chain of CNAME redirects was longer than [`MAX_CNAME_HOPS`].
    TooManyRedirects,
    /// A DNS lookup failed, with the resolver's message.
    Lookup(String),
}

/// Picks the BIP21 URI out of a TXT answer: `Ok(None)` when no secure record holds
/// one, and an error when more than one does, whatever they hold. The URI is
/// returned without its `bitcoin:` scheme.
pub fn select_bip21(records: &Vec<DnsRecord>) -> (r: Result<Option<Vec<char>>, Bip353Error>)
    ensures
        r is Err <==> bip21_count(records@) >= 2,
        r is Err ==> r matches Err(Bip353Error::Ambiguous),
        r == Ok::<Option<Vec<char>>, Bip353Error>(None) <==> bip21_count(records@) == 0,
        r matches Ok(Some(u)) ==> u@ == first_bip21(records@).subrange(8, first_bip21(records@).len() as int),
{
    let mut found: Option<Vec<char>> = None;
    let mut i: usize = 0;
    while i < records.len()
        invariant
            i <= records.len(),
            bip21_count(records@.subrange(0, i as int)) <= 1,
            found is None <==> bip21_count(records@.subrange(0, i as int)) == 0,
            found is Some ==> found->0@ == first_bip21(records@.subrange(0, i as int)).subrange(
                8,
                first_bip21(records@.subrange(0, i as int)).len() as int,
            ),
            found is Some ==> has_prefix(first_bip21(records@.subrange(0, i as int)), "bitcoin:"@),
        decreases records.len() - i,
    {
        proof {
            reveal_strlit("bitcoin:");
            assert(records@.subrange(0, i as int + 1).drop_last() =~= records@.subrange(0, i as int));
        }
        let rec = &records[i];
        if rec.secure {
            if let DnsData::Txt(t) = &rec.data {
                let cs = chars_of(t.as_str());
                if starts_with(&cs, "bitcoin:") {
                    if found.is_some() {
                        proof {
                            assert(bip21_count(records@.subrange(0, i as int + 1)) == 2);
                            lemma_bip21_count_prefix(records@, i as int + 1);
                        }
                        return Err(Bip353Error::Ambiguous);
                    }
                    found = Some(suffix(&cs, 8));
                }
            }
        }
        i = i + 1;
    }
    assert(records@.subrange(0, records.len() as int) =~= records@);
    Ok(found)
}

proof fn lemma_bip21_count_prefix(rs: Seq<DnsRecord>, n: int)
    requires
        0 <= n <= rs.len(),
    ensures
        bip21_count(rs.subrange(0, n)) <= bip21_count(rs),
    decreases rs.len() - n,
{
    if n < rs.len() {
        lemma_bip21_count_prefix(rs, n + 1);
        let longer = rs.subrange(0, n + 1);
        assert(longer.drop_last() =~= rs.subrange(0, n));
        assert(bip21_count(longer) >= bip21_count(longer.drop_last()));
    } else {
        assert(rs.subrange(0, n) =~= rs);
    }
}

/// The value of the first `lno=` parameter among `params`.
pub open spec fn first_lno(params: Seq<Seq<char>>) -> Option<Seq<char>>
    decreases params.len(),
{
    if params.len() == 0 {
        None
    } else if has_prefix(params[0], "lno="@) {
        Some(params[0].subrange(4, params[0].len() as int))
    } else {
        first_lno(params.drop_first())
    }
}

/// The offer embedded in a BIP21 URI (given without its scheme): the value of its
/// `lno` query parameter, where the query is everything after the first `?` and
/// its parameters are separated by `&`.
pub open spec fn bip21_offer(uri: Seq<char>) -> Option<Seq<char>> {
    match first_index(uri, '?') {
        None => None,
        Some(q) => first_lno(split_seq(uri.subrange(q + 1, uri.len() as int), '&')),
    }
}

proof fn lemma_first_lno_skip(ps: Seq<Seq<char>>, k: int)
    requires
        0 <= k <= ps.len(),
        forall|j: int| 0 <= j < k ==> !has_prefix(#[trigger] ps[j], "lno="@),
    ensures
        first_lno(ps) == first_lno(ps.subrange(k, ps.len() as int)),
    decreases k,
{
    if k > 0 {
        let rest = ps.drop_first();
        assert forall|j: int| 0 <= j < k - 1 implies !has_prefix(#[trigger] rest[j], "lno="@) by {
            assert(rest[j] == ps[j + 1]);
        }
        lemma_first_lno_skip(rest, k - 1);
        assert(rest.subrange(k - 1, rest.len() as int) =~= ps.subrange(k, ps.len() as int));
    } else {
        assert(ps.subrange(0, ps.len() as int) =~= ps);
    }
}

/// Extracts the offer from a BIP21 URI given without its scheme.
pub fn offer_from_bip21(uri: &Vec<char>) -> (r: Option<String>)
    ensures
        match r {
            Some(o) => bip21_offer(uri@) == Some(o@),
            None => bip21_offer(uri@) is None,
        },
{
    let q = match find_char(uri, '?') {
        Some(q) => q,
        None => {
            assert(first_index(uri@, '?') is None);
            return None;
        },
    };
    assert(first_index(uri@, '?') == Some(q as int));
    let query = suffix(uri, q + 1);
    let params = split_chars(&query, '&');
    let ghost ps = split_seq(query@, '&');
    assert(uri@.subrange(q + 1, uri@.len() as int) == query@);
    assert(bip21_offer(uri@) == first_lno(ps));
    let mut k: usize = 0;
    while k < params.len()
        invariant
            k <= params.len(),
            params@.len() == ps.len(),
            forall|i: int| 0 <= i < params@.len() ==> #[trigger] params@[i]@ == ps[i],
            forall|j: int| 0 <= j < k ==> !has_prefix(#[trigger] ps[j], "lno="@),
            bip21_offer(uri@) == first_lno(ps),
        decreases params.len() - k,
    {
        assert(params@[k as int]@ == ps[k as int]);
        if starts_with(&params[k], "lno=") {
            proof {
                reveal_strlit("lno=");
                lemma_first_lno_skip(ps, k as int);
                assert(ps.subrange(k as int, ps.len() as int)[0] == ps[k as int]);
            }
            let v = suffix(&params[k], 4);
            proof {
                let tail = ps.subrange(k as int, ps.len() as int);
                assert(has_prefix(tail[0], "lno="@));
                assert(first_lno(tail) == Some(tail[0].subrange(4, tail[0].len() as int)));
                assert(v@ == ps[k as int].subrange(4, ps[k as int].len() as int));
            }
            return Some(string_of(&v));
        }
        k = k + 1;
    }
    proof {
        lemma_first_lno_skip(ps, k as int);
        assert(ps.subrange(k as int, ps.len() as int).len() == 0);
        assert(bip21_offer(uri@) == first_lno(ps));
    }
    None
}

/// The target of the first secure CNAME record of `rs`.
pub open spec fn first_cname(rs: Seq<DnsRecord>) -> Option<Seq<char>>
    decreases rs.len(),
{
    if rs.len() == 0 {
        None
    } else {
        match first_cname(rs.drop_last()) {
            Some(t) => Some(t),
            None => if rs.last().secure {
                match rs.last().data {
                    DnsData::Cname(t) => Some(t@),
                    _ => None,
                }
            } else {
                None
            },
        }
    }
}

/// The target of the first secure CNAME record of a CNAME answer.
pub fn secure_cname(records: &Vec<DnsRecord>) -> (r: Option<String>)
    ensures
        match r {
            Some(t) => first_cname(records@) == Some(t@),
            None => first_cname(records@) is None,
        },
{
    let mut i: usize = 0;
    while i < records.len()
        invariant
            i <= records.len(),
            first_cname(records@.subrange(0, i as int)) is None,
        decreases records.len() - i,
    {
        proof {
            assert(records@.subrange(0, i as int + 1).drop_last() =~= records@.subrange(0, i as int));
        }
        let rec = &records[i];
        if rec.secure {
            if let DnsData::Cname(t) = &rec.data {
                proof {
                    lemma_first_cname_prefix(records@, i as int + 1);
                }
                return Some(t.clone());
            }
        }
        i = i + 1;
    }
    assert(records@.subrange(0, records.len() as int) =~= records@);
    None
}

proof fn lemma_first_cname_prefix(rs: Seq<DnsRecord>, n: int)
    requires
        0 <= n <= rs.len(),
        first_cname(rs.subrange(0, n)) is Some,
    ensures
        first_cname(rs) == first_cname(rs.subrange(0, n)),
    decreases rs.len() - n,
{
    if n < rs.len() {
        let longer = rs.subrange(0, n + 1);
        assert(longer.drop_last() =~= rs.subrange(0, n));
        lemma_first_cname_prefix(rs, n + 1);
    } else {
        assert(rs.subrange(0, n) =~= rs);
    }
}

/// Where a BIP353 resolution stands: the resolver being asked (an index into the
/// resolver list), the name being looked up, the name the walk started from, and
/// how many CNAME redirects were followed on this resolver.
#[derive(Debug, PartialEq, Eq)]
pub struct Bip353Walk {
    pub resolver: usize,
    pub name: String,
    pub base: String,
    pub hops: u32,
}

/// What the caller does next in a BIP353 resolution.
#[derive(Debug, PartialEq, Eq)]
pub enum Bip353Action {
    /// Look up the TXT records of `name` at resolver `resolver`, then call [`bip353_on_txt`].
    LookupTxt(Bip353Walk),
    /// Look up the CNAME records of `name` at resolver `resolver`, then call [`bip353_on_cname`].
    LookupCname(Bip353Walk),
    /// Resolution is done: fetch an invoice for this offer.
    FetchOffer(String),
    /// Resolution failed.
    Fail(Bip353Error),
}

/// The first step of resolving `user`@`domain` over `n_resolvers` resolvers.
pub fn bip353_start(user: &str, domain: &str, n_resolvers: usize) -> (r: Bip353Action)
    ensures
        n_resolvers == 0 ==> r matches Bip353Action::Fail(Bip353Error::NotFound),
        n_resolvers > 0 ==> (r matches Bip353Action::LookupTxt(w) && w.resolver == 0 && w.hops == 0
            && w.name@ == bip353_name(user@, domain@) && w.base@ == w.name@),
{
    if n_resolvers == 0 {
        return Bip353Action::Fail(Bip353Error::NotFound);
    }
    let name = bip353_query_name(user, domain);
    let base = name.clone();
    Bip353Action::LookupTxt(Bip353Walk { resolver: 0, name, base, hops: 0 })
}

/// The step after a TXT answer: an ambiguous answer fails, a single BIP21 URI ends
/// the walk with its offer (or fails when it has none), and an answer without a
/// secure BIP21 record turns to the CNAME records of the same name.
pub fn bip353_on_txt(walk: Bip353Walk, records: &Vec<DnsRecord>) -> (r: Bip353Action)
    ensures
        bip21_count(records@) >= 2 ==> r matches Bip353Action::Fail(Bip353Error::Ambiguous),
        bip21_count(records@) == 1 ==> match bip21_offer(
            first_bip21(records@).subrange(8, first_bip21(records@).len() as int),
        ) {
            Some(o) => (r matches Bip353Action::FetchOffer(f) && f@ == o),
            None => r matches Bip353Action::Fail(Bip353Error::NoOffer),
        },
        bip21_count(records@) == 0 ==> r == Bip353Action::LookupCname(walk),
{
    match select_bip21(records) {
        Err(e) => Bip353Action::Fail(e),
        Ok(None) => Bip353Action::LookupCname(walk),
        Ok(Some(uri)) => match offer_from_bip21(&uri) {
            Some(o) => Bip353Action::FetchOffer(o),
            None => Bip353Action::Fail(Bip353Error::NoOffer),
        },
    }
}

/// The step after a CNAME answer: a secure redirect restarts the TXT lookup at its
/// target (at most [`MAX_CNAME_HOPS`] times per resolver); without one the next
/// resolver is asked about the starting name, and after the last resolver the
/// resolution fails.
pub fn bip353_on_cname(walk: Bip353Walk, records: &Vec<DnsRecord>, n_resolvers: usize) -> (r:
    Bip353Action)
    ensures
        match first_cname(records@) {
            Some(t) => if walk.hops < MAX_CNAME_HOPS {
                (r matches Bip353Action::LookupTxt(w) && w.resolver == walk.resolver && w.name@ == t
                    && w.base == walk.base && w.hops == walk.hops + 1)
            } else {
                r matches Bip353Action::Fail(Bip353Error::TooManyRedirects)
            },
            None => if walk.resolver + 1 < n_resolvers {
                (r matches Bip353Action::LookupTxt(w) && w.resolver == walk.resolver + 1 && w.name@
                    == walk.base@ && w.base == walk.base && w.hops == 0)
            } else {
                r matches Bip353Action::Fail(Bip353Error::NotFound)
            },
        },
{
    match secure_cname(records) {
        Some(t) => if walk.hops < MAX_CNAME_HOPS {
            Bip353Action::LookupTxt(
                Bip353Walk { resolver: walk.resolver, name: t, base: walk.base, hops: walk.hops + 1 },
            )
        } else {
            Bip353Action::Fail(Bip353Error::TooManyRedirects)
        },
        None => if walk.resolver < n_resolvers && walk.resolver + 1 < n_resolvers {
            let name = walk.base.clone();
            Bip353Action::LookupTxt(
                Bip353Walk { resolver: walk.resolver + 1, name, base: walk.base, hops: 0 },
            )
        } else {
            Bip353Action::Fail(Bip353Error::NotFound)
        },
    }
}

} // verus!
