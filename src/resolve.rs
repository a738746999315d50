//! Classification of payment identifiers and the bookkeeping around resolving them.
use vstd::prelude::*;
use crate::gateway::Paycmd;
use crate::json::{Json, Params};
use crate::text::{
    all_digits, chars_of, contains_text, digits_value, find_char, has_prefix, occurs_in,
    parse_u64, split_chars, split_seq, starts_with, string_of, suffix,
};

verus! {

/// What an identifier turned out to be.
#[derive(Debug, PartialEq, Eq, Structural, Clone, Copy)]
pub enum IdentifierKind {
    /// A bech32-encoded LNURL.
    Lnurl,
    /// A `user@domain` lightning address.
    LightningAddress,
    /// A BOLT12 offer.
    Bolt12Offer,
    /// Anything else: an invoice to pass through as it is.
    Invoice,
}

/// Lower-casing as `str::to_lowercase` does it (full Unicode case mapping).
pub uninterp spec fn lowercase_of(s: Seq<char>) -> Seq<char>;

/// Relies on `str::to_lowercase`: the result depends on the text alone.
#[verifier::external_body]
fn lowercase(s: &str) -> (r: String)
    ensures
        r@ == lowercase_of(s@),
{
    s.to_lowercase()
}

/// The identifier without its URI scheme, where it starts with one of
/// `lightning:`, `lno:` or `lnurl:` (tried in that order; one is removed at most).
pub open spec fn strip_scheme(s: Seq<char>) -> Seq<char> {
    if has_prefix(s, "lightning:"@) {
        s.subrange(10, s.len() as int)
    } else if has_prefix(s, "lno:"@) {
        s.subrange(4, s.len() as int)
    } else if has_prefix(s, "lnurl:"@) {
        s.subrange(6, s.len() as int)
    } else {
        s
    }
}

/// The kind of a normalized identifier, by the first rule that applies.
pub open spec fn kind_of(s: Seq<char>) -> IdentifierKind {
    if has_prefix(s, "lnurl"@) {
        IdentifierKind::Lnurl
    } else if s.contains('@') {
        IdentifierKind::LightningAddress
    } else if has_prefix(s, "lno"@) {
        IdentifierKind::Bolt12Offer
    } else {
        IdentifierKind::Invoice
    }
}

/// Removes a known URI scheme from an already lower-cased identifier.
pub fn strip_uri_scheme(s: &str) -> (r: String)
    ensures
        r@ == strip_scheme(s@),
{
    proof {
        reveal_strlit("lightning:");
        reveal_strlit("lno:");
        reveal_strlit("lnurl:");
    }
    let cs = chars_of(s);
    if starts_with(&cs, "lightning:") {
        string_of(&suffix(&cs, 10))
    } else if starts_with(&cs, "lno:") {
        string_of(&suffix(&cs, 4))
    } else if starts_with(&cs, "lnurl:") {
        string_of(&suffix(&cs, 6))
    } else {
        string_of(&cs)
    }
}

/// The identifier as it is classified: lower-cased, then without its URI scheme.
pub fn normalize_identifier(raw: &str) -> (r: String)
    ensures
        r@ == strip_scheme(lowercase_of(raw@)),
{
    let lower = lowercase(raw);
    strip_uri_scheme(lower.as_str())
}

/// Classifies a normalized identifier.
pub fn classify(s: &str) -> (r: IdentifierKind)
    ensures
        r == kind_of(s@),
{
    let cs = chars_of(s);
    if starts_with(&cs, "lnurl") {
        IdentifierKind::Lnurl
    } else if find_char(&cs, '@').is_some() {
        IdentifierKind::LightningAddress
    } else if starts_with(&cs, "lno") {
        IdentifierKind::Bolt12Offer
    } else {
        IdentifierKind::Invoice
    }
}

/// Why an identifier could not be resolved.
#[derive(Debug, PartialEq, Eq)]
pub enum ResolveError {
    /// The identifier parameter is absent; it carries the parameter's name.
    MissingParameter(String),
    /// The identifier parameter is not a string.
    InvstringNotString,
    /// `amount_msat` is not an unsigned integer.
    AmountNotInteger,
    /// `message` is neither a string nor a number.
    MessageNotString,
    /// The identifier's kind needs an amount and none was given.
    MissingAmount(IdentifierKind),
    /// A lightning address that is not exactly `user@domain`.
    InvalidAddress(String),
}

/// The name of the parameter that holds the identifier for each payment command.
pub open spec fn invstring_param(cmd: Paycmd) -> Seq<char> {
    match cmd {
        Paycmd::Pay => "bolt11"@,
        _ => "invstring"@,
    }
}

pub fn invstring_name(cmd: Paycmd) -> (r: &'static str)
    ensures
        r@ == invstring_param(cmd),
{
    match cmd {
        Paycmd::Pay => "bolt11",
        _ => "invstring",
    }
}

/// The unsigned integer held by a JSON value, where it is one.
pub open spec fn json_u64(v: Json) -> Option<u64> {
    match v {
        Json::Number(t) => if all_digits(t@) && digits_value(t@) <= u64::MAX {
            Some(digits_value(t@) as u64)
        } else {
            None
        },
        _ => None,
    }
}

/// The unsigned integer held by `v`, where it is one.
pub fn as_u64(v: &Json) -> (r: Option<u64>)
    ensures
        r == json_u64(*v),
{
    match v {
        Json::Number(t) => parse_u64(&chars_of(t.as_str())),
        _ => None,
    }
}

/// A request to resolve an identifier, read from a command's parameters.
#[derive(Debug, PartialEq, Eq)]
pub struct Resolution {
    pub kind: IdentifierKind,
    /// The normalized identifier.
    pub identifier: String,
    pub amount_msat: Option<u64>,
    /// The payment comment, where one was given.
    pub message: Option<String>,
}

/// What resolving the parameters `params` of `cmd` asks for, or why it cannot start.
pub open spec fn resolution_spec(params: Params, cmd: Paycmd) -> Result<
    (Seq<char>, IdentifierKind, Option<u64>, Option<Seq<char>>),
    ResolveError,
> {
    match params.get_spec(invstring_param(cmd)) {
        None => Err(ResolveError::MissingParameter(arbitrary())),
        Some(Json::Str(raw)) => {
            let id = strip_scheme(lowercase_of(raw@));
            let amount = params.get_spec("amount_msat"@);
            let message = params.get_spec("message"@);
            if amount is Some && json_u64(amount->0) is None {
                Err(ResolveError::AmountNotInteger)
            } else if message is Some && !(message->0 is Number || message->0 is Str) {
                Err(ResolveError::MessageNotString)
            } else {
                let amt = match amount {
                    Some(a) => json_u64(a),
                    None => None,
                };
                let msg = match message {
                    Some(Json::Number(t)) => Some(t@),
                    Some(Json::Str(t)) => Some(t@),
                    _ => None,
                };
                let kind = kind_of(id);
                if amt is None && (kind == IdentifierKind::Lnurl || kind
                    == IdentifierKind::LightningAddress) {
                    Err(ResolveError::MissingAmount(kind))
                } else {
                    Ok((id, kind, amt, msg))
                }
            }
        },
        Some(_) => Err(ResolveError::InvstringNotString),
    }
}

/// Reads the identifier, the amount and the comment out of the parameters of a
/// payment command and classifies the identifier. LNURLs and lightning addresses
/// need an amount.
pub fn plan_resolution(params: &Params, cmd: Paycmd) -> (r: Result<Resolution, ResolveError>)
    ensures
        match resolution_spec(*params, cmd) {
            Ok((id, kind, amt, msg)) => r matches Ok(res) && res.identifier@ == id && res.kind == kind
                && res.amount_msat == amt && match res.message {
                Some(m) => msg == Some(m@),
                None => msg is None,
            },
            Err(ResolveError::MissingParameter(_)) => r matches Err(ResolveError::MissingParameter(n))
                && n@ == invstring_param(cmd),
            Err(e) => r == Err::<Resolution, ResolveError>(e),
        },
{
    let name = invstring_name(cmd);
    let raw = match params.get(name) {
        None => return Err(ResolveError::MissingParameter(String::from_str(name))),
        Some(Json::Str(raw)) => raw,
        Some(_) => return Err(ResolveError::InvstringNotString),
    };
    let identifier = normalize_identifier(raw.as_str());
    let amount_msat = match params.get("amount_msat") {
        Some(a) => match as_u64(a) {
            Some(n) => Some(n),
            None => return Err(ResolveError::AmountNotInteger),
        },
        None => None,
    };
    let message = match params.get("message") {
        Some(Json::Number(t)) => Some(t.clone()),
        Some(Json::Str(t)) => Some(t.clone()),
        Some(_) => return Err(ResolveError::MessageNotString),
        None => None,
    };
    let kind = classify(identifier.as_str());
    if amount_msat.is_none() && (kind == IdentifierKind::Lnurl || kind
        == IdentifierKind::LightningAddress) {
        return Err(ResolveError::MissingAmount(kind));
    }
    Ok(Resolution { kind, identifier, amount_msat, message })
}

/// The user and domain parts of a lightning address, where it has exactly one `@`.
pub fn split_lnaddress(address: &str) -> (r: Result<(String, String), ResolveError>)
    ensures
        split_seq(address@, '@').len() == 2 ==> (r matches Ok((user, domain)) && user@ == split_seq(
            address@,
            '@',
        )[0] && domain@ == split_seq(address@, '@')[1]),
        split_seq(address@, '@').len() != 2 ==> (r matches Err(ResolveError::InvalidAddress(a))
            && a@ == address@),
{
    let parts = split_chars(&chars_of(address), '@');
    if parts.len() != 2 {
        return Err(ResolveError::InvalidAddress(String::from_str(address)));
    }
    let user = string_of(&parts[0]);
    let domain = string_of(&parts[1]);
    Ok((user, domain))
}

/// The LNURL endpoint of a lightning address: plain HTTP for a local domain, HTTPS
/// otherwise.
pub open spec fn well_known_url(user: Seq<char>, domain: Seq<char>) -> Seq<char> {
    (if occurs_in(domain, "localhost"@) || occurs_in(domain, "127.0.0.1"@) {
        "http://"@
    } else {
        "https://"@
    }) + domain + "/.well-known/lnurlp/"@ + user
}

pub fn lnurlp_well_known_url(user: &str, domain: &str) -> (r: String)
    ensures
        r@ == well_known_url(user@, domain@),
{
    let d = chars_of(domain);
    let mut url = if contains_text(&d, "localhost") || contains_text(&d, "127.0.0.1") {
        String::from_str("http://")
    } else {
        String::from_str("https://")
    };
    url.append(domain);
    url.append("/.well-known/lnurlp/");
    url.append(user);
    url
}

/// The error reported when both ways of resolving a lightning address failed.
pub open spec fn lnaddress_failure(bip353_error: Seq<char>, lnurl_error: Seq<char>) -> Seq<char> {
    "Error fetching invoice from bip353:"@ + bip353_error + " and error fetching invoice from lnurl: "@
        + lnurl_error
}

pub fn lnaddress_failure_message(bip353_error: &str, lnurl_error: &str) -> (r: String)
    ensures
        r@ == lnaddress_failure(bip353_error@, lnurl_error@),
{
    let mut m = String::from_str("Error fetching invoice from bip353:");
    m.append(bip353_error);
    m.append(" and error fetching invoice from lnurl: ");
    m.append(lnurl_error);
    m
}

/// The failure of a lightning-address lookup names both underlying failures: its
/// text contains the BIP353 error and the LNURL error.
pub proof fn lnaddress_failure_names_both(bip353_error: Seq<char>, lnurl_error: Seq<char>)
    ensures
        occurs_in(lnaddress_failure(bip353_error, lnurl_error), bip353_error),
        occurs_in(lnaddress_failure(bip353_error, lnurl_error), lnurl_error),
{
    let t = lnaddress_failure(bip353_error, lnurl_error);
    let a = "Error fetching invoice from bip353:"@;
    let b = " and error fetching invoice from lnurl: "@;
    let i = a.len() as int;
    assert(t.subrange(i, i + bip353_error.len()) =~= bip353_error);
    let j = (a.len() + bip353_error.len() + b.len()) as int;
    assert(t.subrange(j, j + lnurl_error.len()) =~= lnurl_error);
}

/// Puts a resolved invoice in place of the identifier parameter `name` and drops
/// the amount, which the invoice now carries.
pub fn apply_invoice(params: &mut Params, name: &str, invoice: String)
    ensures
        final(params).get_spec(name@) == Some(Json::Str(invoice)),
        name@ != "amount_msat"@ ==> final(params).get_spec("amount_msat"@) is None,
        forall|k: Seq<char>| k != name@ && k != "amount_msat"@ ==> final(params).get_spec(k)
            == old(params).get_spec(k),
{
    params.remove("amount_msat");
    params.insert(String::from_str(name), Json::Str(invoice));
}

} // verus!
