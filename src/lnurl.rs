//! LNURL-pay (LUD-06 / LUD-16) validation.
use vstd::prelude::*;
use vstd::string::StringSliceAdditionalSpecFns;
use vstd::utf8::{decode_utf8, valid_utf8};
use crate::json::Json;
use crate::text::{decimal, decimal_string, eq_ignore_ascii_case, eq_ignore_case};

verus! {

/// The pay-request configuration served at an LNURL endpoint.
#[derive(Debug, PartialEq, Eq)]
pub struct LnurlpConfig {
    pub callback: String,
    pub max_sendable: u64,
    pub min_sendable: u64,
    /// JSON-encoded array of `[type, value]` pairs.
    pub metadata: String,
    pub tag: String,
    pub comment_allowed: Option<u64>,
}

/// The callback's answer: the invoice and its routing hints.
#[derive(Debug, PartialEq, Eq)]
pub struct LnurlpCallback {
    pub pr: String,
    pub routes: Vec<String>,
}

/// Why an LNURL pay request was refused.
#[derive(Debug, PartialEq, Eq)]
pub enum LnurlError {
    /// The identifier is not valid bech32.
    Bech32,
    /// The decoded identifier is not UTF-8 text.
    NotUtf8,
    /// The configuration's tag is not `payRequest`.
    NotPayRequest,
    /// The amount is below the minimum sendable.
    BelowMinimum { amount_msat: u64, min_sendable: u64 },
    /// The amount is above the maximum sendable.
    AboveMaximum { amount_msat: u64, max_sendable: u64 },
    /// The metadata is not an array of `[type, value]` pairs.
    MetadataMalformed,
    /// Strict mode: the lightning address is not declared in the metadata.
    AddressNotInMetadata,
    /// A comment was given and the service accepts none.
    CommentNotSupported,
    /// The comment is longer (in bytes) than the service accepts.
    CommentTooLong { length: u64, allowed: u64 },
    /// The invoice's amount is missing or differs from the requested one.
    WrongAmount { invoice_msat: u64, amount_msat: u64 },
    /// Strict mode: the invoice carries no description hash.
    MissingDescriptionHash,
    /// The invoice's description hash is not the digest of the metadata.
    DescriptionHashMismatch,
}

/// A metadata type under which a lightning address is declared.
pub open spec fn is_identifier_type(t: Seq<char>) -> bool {
    eq_ignore_case(t, "text/identifier"@) || eq_ignore_case(t, "text/email"@)
}

/// A well-formed metadata entry: a pair whose type is a string, and whose value is
/// a string too where the type declares an identifier.
pub open spec fn entry_ok(e: Json) -> bool {
    match e {
        Json::Array(p) => p@.len() == 2 && match p@[0] {
            Json::Str(t) => is_identifier_type(t@) ==> p@[1] is Str,
            _ => false,
        },
        _ => false,
    }
}

/// A metadata entry that declares `addr` (up to ASCII case).
pub open spec fn entry_declares(e: Json, addr: Seq<char>) -> bool {
    entry_ok(e) && match e {
        Json::Array(p) => match (p@[0], p@[1]) {
            (Json::Str(t), Json::Str(v)) => is_identifier_type(t@) && eq_ignore_case(v@, addr),
            _ => false,
        },
        _ => false,
    }
}

/// The outcome of checking parsed metadata (`None` when it is not JSON) for `addr`.
pub open spec fn metadata_check(metadata: Option<Json>, addr: Seq<char>, strict: bool) -> Result<
    (),
    LnurlError,
> {
    match metadata {
        Some(Json::Array(es)) => if exists|i: int| 0 <= i < es@.len() && !entry_ok(#[trigger] es@[i]) {
            Err(LnurlError::MetadataMalformed)
        } else if strict && !exists|i: int| 0 <= i < es@.len() && entry_declares(
            #[trigger] es@[i],
            addr,
        ) {
            Err(LnurlError::AddressNotInMetadata)
        } else {
            Ok(())
        },
        _ => Err(LnurlError::MetadataMalformed),
    }
}

/// Whether entry `e` is well formed, and whether it declares `addr`.
fn check_entry(e: &Json, addr: &str) -> (r: (bool, bool))
    ensures
        r.0 == entry_ok(*e),
        r.1 == entry_declares(*e, addr@),
{
    match e {
        Json::Array(p) => {
            if p.len() != 2 {
                return (false, false);
            }
            match &p[0] {
                Json::Str(t) => {
                    let id_type = eq_ignore_ascii_case(t.as_str(), "text/identifier")
                        || eq_ignore_ascii_case(t.as_str(), "text/email");
                    if !id_type {
                        return (true, false);
                    }
                    match &p[1] {
                        Json::Str(v) => (true, eq_ignore_ascii_case(v.as_str(), addr)),
                        _ => (false, false),
                    }
                },
                _ => (false, false),
            }
        },
        _ => (false, false),
    }
}

/// Checks the metadata of a configuration for the lightning address it was fetched
/// for. `metadata` is the parsed metadata text, `None` when it is not JSON.
pub fn check_metadata(metadata: &Option<Json>, addr: &str, strict: bool) -> (r: Result<(), LnurlError>)
    ensures
        r == metadata_check(*metadata, addr@, strict),
{
    let es: &Vec<Json> = match metadata {
        Some(j) => match j {
            Json::Array(es) => es,
            _ => return Err(LnurlError::MetadataMalformed),
        },
        None => return Err(LnurlError::MetadataMalformed),
    };
    let ghost v: Vec<Json> = *es;
    assert(*metadata == Some(Json::Array(v)));
    let mut found = false;
    let mut i: usize = 0;
    while i < es.len()
        invariant
            i <= es.len(),
            v == *es,
            *metadata == Some(Json::Array(v)),
            forall|j: int| 0 <= j < i ==> entry_ok(#[trigger] v@[j]),
            found <==> exists|j: int| 0 <= j < i && entry_declares(#[trigger] v@[j], addr@),
        decreases es.len() - i,
    {
        let (ok, declares) = check_entry(&es[i], addr);
        if !ok {
            assert(!entry_ok(v@[i as int]));
            assert(exists|j: int| 0 <= j < v@.len() && !entry_ok(#[trigger] v@[j]));
            assert(*metadata matches Some(Json::Array(x)) && x == v);
            assert(metadata_check(*metadata, addr@, strict) is Err);
            return Err(LnurlError::MetadataMalformed);
        }
        if declares {
            found = true;
        }
        i = i + 1;
    }
    if !found && strict {
        return Err(LnurlError::AddressNotInMetadata);
    }
    Ok(())
}

/// The outcome of validating a pay-request configuration for an amount and,
/// where the request came from a lightning address, that address.
pub open spec fn config_check(
    config: LnurlpConfig,
    amount_msat: u64,
    lnaddress: Option<Seq<char>>,
    metadata: Option<Json>,
    strict: bool,
) -> Result<(), LnurlError> {
    if !eq_ignore_case(config.tag@, "payRequest"@) {
        Err(LnurlError::NotPayRequest)
    } else if amount_msat < config.min_sendable {
        Err(LnurlError::BelowMinimum { amount_msat, min_sendable: config.min_sendable })
    } else if amount_msat > config.max_sendable {
        Err(LnurlError::AboveMaximum { amount_msat, max_sendable: config.max_sendable })
    } else {
        match lnaddress {
            Some(a) => metadata_check(metadata, a, strict),
            None => Ok(()),
        }
    }
}

/// Validates a pay-request configuration: the tag, the amount against the sendable
/// range (both ends included), and for a lightning address its declaration in the
/// metadata (`metadata` is `config.metadata` parsed, `None` when it is not JSON). A
/// missing declaration fails only in strict mode.
pub fn validate_lnurl_config(
    config: &LnurlpConfig,
    amount_msat: u64,
    lnaddress: Option<&str>,
    metadata: &Option<Json>,
    strict: bool,
) -> (r: Result<(), LnurlError>)
    ensures
        r == config_check(
            *config,
            amount_msat,
            match lnaddress {
                Some(a) => Some(a@),
                None => None,
            },
            *metadata,
            strict,
        ),
{
    if !eq_ignore_ascii_case(config.tag.as_str(), "payRequest") {
        return Err(LnurlError::NotPayRequest);
    }
    if amount_msat < config.min_sendable {
        return Err(LnurlError::BelowMinimum { amount_msat, min_sendable: config.min_sendable });
    }
    if amount_msat > config.max_sendable {
        return Err(LnurlError::AboveMaximum { amount_msat, max_sendable: config.max_sendable });
    }
    match lnaddress {
        Some(a) => check_metadata(metadata, a, strict),
        None => Ok(()),
    }
}

/// An amount outside the sendable range is refused whatever else the configuration
/// holds, and one at either end of the range passes the range check.
pub proof fn amount_range_is_inclusive(
    config: LnurlpConfig,
    amount_msat: u64,
    lnaddress: Option<Seq<char>>,
    metadata: Option<Json>,
    strict: bool,
)
    ensures
        (amount_msat < config.min_sendable || amount_msat > config.max_sendable) ==> config_check(
            config,
            amount_msat,
            lnaddress,
            metadata,
            strict,
        ) is Err,
        (config.min_sendable <= amount_msat <= config.max_sendable && eq_ignore_case(
            config.tag@,
            "payRequest"@,
        ) && lnaddress is None) ==> config_check(config, amount_msat, lnaddress, metadata, strict)
            is Ok,
{
}

/// A configuration whose tag is not `payRequest` is refused whatever else it holds.
pub proof fn wrong_tag_always_rejected(
    config: LnurlpConfig,
    amount_msat: u64,
    lnaddress: Option<Seq<char>>,
    metadata: Option<Json>,
    strict: bool,
)
    requires
        !eq_ignore_case(config.tag@, "payRequest"@),
    ensures
        config_check(config, amount_msat, lnaddress, metadata, strict) == Err::<(), LnurlError>(
            LnurlError::NotPayRequest,
        ),
{
}

/// The callback request for `amount_msat` and an optional comment.
pub open spec fn callback_url(callback: Seq<char>, amount_msat: u64, comment: Option<Seq<char>>) -> Seq<
    char,
> {
    callback + "?amount="@ + decimal(amount_msat as nat) + match comment {
        Some(c) => "&comment="@ + c,
        None => Seq::empty(),
    }
}

/// The URL that asks the service for an invoice of `amount_msat`, carrying
/// `message` as the payment comment. A comment needs the service to accept
/// comments at least as long (in bytes) as it.
pub fn lnurl_callback_url(config: &LnurlpConfig, amount_msat: u64, message: Option<&str>) -> (r:
    Result<String, LnurlError>)
    ensures
        message is None ==> (r matches Ok(u) && u@ == callback_url(config.callback@, amount_msat, None)),
        message matches Some(m) ==> match config.comment_allowed {
            None => r matches Err(LnurlError::CommentNotSupported),
            Some(c) => if m.len() <= c {
                (r matches Ok(u) && u@ == callback_url(config.callback@, amount_msat, Some(m@)))
            } else {
                r == Err::<String, LnurlError>(
                    LnurlError::CommentTooLong { length: m.len() as u64, allowed: c },
                )
            },
        },
{
    let mut url = config.callback.clone();
    url.append("?amount=");
    let digits = decimal_string(amount_msat);
    url.append(digits.as_str());
    match message {
        None => {
            assert(url@ =~= callback_url(config.callback@, amount_msat, None));
            Ok(url)
        },
        Some(m) => {
            let allowed = match config.comment_allowed {
                Some(c) => c,
                None => return Err(LnurlError::CommentNotSupported),
            };
            let length = m.len() as u64;
            if length <= allowed {
                url.append("&comment=");
                url.append(m);
                assert(url@ =~= callback_url(config.callback@, amount_msat, Some(m@)));
                Ok(url)
            } else {
                Err(LnurlError::CommentTooLong { length, allowed })
            }
        },
    }
}

/// The SHA-256 digest of some bytes.
pub uninterp spec fn sha256_of(data: Seq<u8>) -> Seq<u8>;

/// Relies on `cln_rpc::primitives::Sha256::const_hash` (bitcoin_hashes' SHA-256):
/// the digest depends on the bytes alone and has 32 bytes.
#[verifier::external_body]
fn sha256_digest(data: &[u8]) -> (r: Vec<u8>)
    ensures
        r@ == sha256_of(data@),
        r@.len() == 32,
{
    cln_rpc::primitives::Sha256::const_hash(data)[..].to_vec()
}

/// The outcome of checking the invoice an LNURL service returned.
pub open spec fn invoice_check(
    invoice_amount_msat: Option<u64>,
    amount_msat: u64,
    description_hash: Option<Seq<u8>>,
    metadata_digest: Seq<u8>,
    strict: bool,
) -> Result<(), LnurlError> {
    if invoice_amount_msat != Some(amount_msat) {
        Err(
            LnurlError::WrongAmount {
                invoice_msat: match invoice_amount_msat {
                    Some(a) => a,
                    None => 0,
                },
                amount_msat,
            },
        )
    } else {
        match description_hash {
            None => if strict {
                Err(LnurlError::MissingDescriptionHash)
            } else {
                Ok(())
            },
            Some(h) => if h == metadata_digest {
                Ok(())
            } else {
                Err(LnurlError::DescriptionHashMismatch)
            },
        }
    }
}

/// Checks an invoice returned by an LNURL service: its amount must be the requested
/// one, and its description hash, where present, must be `metadata_digest` (the
/// SHA-256 digest of the configuration's metadata text). A missing hash fails only
/// in strict mode.
pub fn check_lnurl_invoice(
    invoice_amount_msat: Option<u64>,
    amount_msat: u64,
    description_hash: &Option<Vec<u8>>,
    metadata_digest: &Vec<u8>,
    strict: bool,
) -> (r: Result<(), LnurlError>)
    ensures
        r == invoice_check(
            invoice_amount_msat,
            amount_msat,
            match description_hash {
                Some(h) => Some(h@),
                None => None,
            },
            metadata_digest@,
            strict,
        ),
{
    match invoice_amount_msat {
        Some(a) => if a != amount_msat {
            return Err(LnurlError::WrongAmount { invoice_msat: a, amount_msat });
        },
        None => return Err(LnurlError::WrongAmount { invoice_msat: 0, amount_msat }),
    }
    match description_hash {
        None => if strict {
            Err(LnurlError::MissingDescriptionHash)
        } else {
            Ok(())
        },
        Some(h) => {
            if h.len() != metadata_digest.len() {
                return Err(LnurlError::DescriptionHashMismatch);
            }
            let mut i: usize = 0;
            while i < h.len()
                invariant
                    i <= h.len(),
                    h.len() == metadata_digest.len(),
                    forall|j: int| 0 <= j < i ==> h@[j] == metadata_digest@[j],
                    invoice_amount_msat == Some(amount_msat),
                    *description_hash == Some(*h),
                decreases h.len() - i,
            {
                if h[i] != metadata_digest[i] {
                    assert(h@[i as int] != metadata_digest@[i as int]);
                    return Err(LnurlError::DescriptionHashMismatch);
                }
                i = i + 1;
            }
            assert(h@ =~= metadata_digest@);
            Ok(())
        },
    }
}

/// Checks an invoice returned by an LNURL service against the configuration's
/// `metadata` text, whose digest it computes.
pub fn verify_lnurl_invoice(
    invoice_amount_msat: Option<u64>,
    amount_msat: u64,
    description_hash: &Option<Vec<u8>>,
    metadata: &str,
    strict: bool,
) -> (r: Result<(), LnurlError>)
    ensures
        r == invoice_check(
            invoice_amount_msat,
            amount_msat,
            match description_hash {
                Some(h) => Some(h@),
                None => None,
            },
            sha256_of(metadata.spec_bytes()),
            strict,
        ),
{
    let digest = sha256_digest(metadata.as_bytes());
    check_lnurl_invoice(invoice_amount_msat, amount_msat, description_hash, &digest, strict)
}

/// The data part of a checksummed bech32 (or bech32m) string, as bytes.
pub uninterp spec fn bech32_payload(s: Seq<char>) -> Option<Seq<u8>>;

/// Relies on `bech32::decode`: the data of a string with a valid bech32 or bech32m
/// checksum, and an error for any other input; the outcome depends on the text alone.
#[verifier::external_body]
fn bech32_data(s: &str) -> (r: Option<Vec<u8>>)
    ensures
        match r {
            Some(d) => bech32_payload(s@) == Some(d@),
            None => bech32_payload(s@) is None,
        },
{
    match bech32::decode(s) {
        Ok((_, data)) => Some(data),
        Err(_) => None,
    }
}

/// Relies on `String::from_utf8`: it succeeds exactly on valid UTF-8 and then holds
/// the text those bytes encode.
#[verifier::external_body]
fn utf8_string(bytes: Vec<u8>) -> (r: Option<String>)
    ensures
        r is Some <==> valid_utf8(bytes@),
        r matches Some(s) ==> s@ == decode_utf8(bytes@),
{
    String::from_utf8(bytes).ok()
}

/// The service URL that a bech32-encoded LNURL stands for.
pub fn lnurl_config_url(lnurl: &str) -> (r: Result<String, LnurlError>)
    ensures
        match bech32_payload(lnurl@) {
            None => r matches Err(LnurlError::Bech32),
            Some(d) => if valid_utf8(d) {
                (r matches Ok(u) && u@ == decode_utf8(d))
            } else {
                r matches Err(LnurlError::NotUtf8)
            },
        },
{
    let data = match bech32_data(lnurl) {
        Some(d) => d,
        None => return Err(LnurlError::Bech32),
    };
    match utf8_string(data) {
        Some(u) => Ok(u),
        None => Err(LnurlError::NotUtf8),
    }
}

} // verus!
