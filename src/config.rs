//! Runtime configuration and the validation of option values.
use vstd::prelude::*;
use crate::budget::BudgetConfig;
use crate::json::Json;
use crate::offer::DnsServer;
use crate::period::{parse_time_period, period_seconds, PeriodError};
use crate::text::{
    all_digits, chars_of, digits_value, eq_ignore_ascii_case, eq_ignore_case, has_prefix, parse_u64,
    split_chars, split_seq, starts_with, string_of, suffix,
};

verus! {

pub const OPT_BUDGET_PER: &'static str = "payany-budget-per";
pub const OPT_BUDGET_AMOUNT_MSAT: &'static str = "payany-budget-amount-msat";
pub const OPT_HANDLE_PAY: &'static str = "payany-xpay-handle-pay";
pub const OPT_STRICT_LNURL: &'static str = "payany-strict-lnurl";
pub const OPT_DNS: &'static str = "payany-dns";

/// The settings every stage reads.
#[derive(Debug, PartialEq, Eq, Clone)]
pub struct Config {
    /// Budget period in seconds.
    pub budget_per: Option<u64>,
    /// Budget allowance in msat.
    pub budget_amount_msat: Option<u64>,
    /// Whether `pay` commands are converted to `xpay`.
    pub xpay_handle_pay: bool,
    /// Argument names of `pay`, `xpay` and `renepay`, in positional order.
    pub payargs: Vec<String>,
    pub xpayargs: Vec<String>,
    pub renepayargs: Vec<String>,
    /// Whether LUD-06/LUD-16 are enforced strictly.
    pub strict_lnurl: bool,
    /// The daemon's version string.
    pub version: String,
    /// The SOCKS5 proxy all traffic goes through, if any.
    pub tor_proxy: Option<String>,
    /// The preferred DNS resolver.
    pub dns_server: DnsServer,
}

impl Config {
    /// A configuration with no budget, no argument lists and every switch off.
    pub fn new() -> (r: Config)
        ensures
            r.budget_per is None,
            r.budget_amount_msat is None,
            !r.xpay_handle_pay,
            r.payargs@.len() == 0,
            r.xpayargs@.len() == 0,
            r.renepayargs@.len() == 0,
            !r.strict_lnurl,
            r.version@.len() == 0,
            r.tor_proxy is None,
            r.dns_server == DnsServer::System,
    {
        Config {
            budget_per: None,
            budget_amount_msat: None,
            xpay_handle_pay: false,
            payargs: Vec::new(),
            xpayargs: Vec::new(),
            renepayargs: Vec::new(),
            strict_lnurl: false,
            version: String::new(),
            tor_proxy: None,
            dns_server: DnsServer::System,
        }
    }
}

/// A typed option value.
#[derive(Debug, PartialEq, Eq)]
pub enum OptionValue {
    Integer(i64),
    Boolean(bool),
    Text(String),
}

/// Why an option value was refused.
#[derive(Debug, PartialEq, Eq)]
pub enum OptionError {
    /// The value is negative; carries the option's name and the value.
    Negative(String, i64),
    /// The value is below the option's minimum.
    TooSmall(String, u64),
    /// The value is not an integer.
    NotInteger(String),
    /// The value is not a boolean.
    NotBoolean(String),
    /// The value is not a string.
    NotString(String),
    /// The value has the wrong type for the option.
    WrongType(String),
    /// The budget period is not a duration.
    BadPeriod(PeriodError),
    /// The DNS server is not one of `system`, `google`, `cloudflare`, `quad9`.
    BadDnsServer(String),
    /// No such option.
    Unknown(String),
    /// Only one of the two budget options is set.
    IncompleteBudget,
}

/// `n`, where it reaches the minimum `gteq`.
pub fn validate_u64_input(n: u64, var_name: &str, gteq: u64) -> (r: Result<u64, OptionError>)
    ensures
        n >= gteq ==> r == Ok::<u64, OptionError>(n),
        n < gteq ==> (r matches Err(OptionError::TooSmall(name, min)) && name@ == var_name@ && min
            == gteq),
{
    if n < gteq {
        return Err(OptionError::TooSmall(<String as vstd::string::StringExecFns>::from_str(var_name), gteq));
    }
    Ok(n)
}

/// An integer option value as a `u64` of at least `gteq`.
pub fn options_value_to_u64(name: &str, value: i64, gteq: u64) -> (r: Result<u64, OptionError>)
    ensures
        value < 0 ==> (r matches Err(OptionError::Negative(n, v)) && n@ == name@ && v == value),
        value >= 0 && value >= gteq ==> r == Ok::<u64, OptionError>(value as u64),
        value >= 0 && value < gteq ==> (r matches Err(OptionError::TooSmall(n, min)) && n@ == name@
            && min == gteq),
{
    if value >= 0 {
        validate_u64_input(value as u64, name, gteq)
    } else {
        Err(OptionError::Negative(<String as vstd::string::StringExecFns>::from_str(name), value))
    }
}

/// The `i64` written by `t` in decimal, with an optional leading `+` or `-`.
pub open spec fn i64_text(t: Seq<char>) -> Option<i64> {
    if has_prefix(t, "+"@) {
        let d = t.subrange(1, t.len() as int);
        if all_digits(d) && digits_value(d) <= i64::MAX {
            Some(digits_value(d) as i64)
        } else {
            None
        }
    } else if has_prefix(t, "-"@) {
        let d = t.subrange(1, t.len() as int);
        if all_digits(d) && digits_value(d) <= 0x8000000000000000 {
            Some((-digits_value(d)) as i64)
        } else {
            None
        }
    } else if all_digits(t) && digits_value(t) <= i64::MAX {
        Some(digits_value(t) as i64)
    } else {
        None
    }
}

fn parse_i64(t: &str) -> (r: Option<i64>)
    ensures
        r == i64_text(t@),
{
    proof {
        reveal_strlit("-");
        reveal_strlit("+");
    }
    let cs = chars_of(t);
    if starts_with(&cs, "+") {
        let d = suffix(&cs, 1);
        match parse_u64(&d) {
            Some(v) => if v <= i64::MAX as u64 {
                Some(v as i64)
            } else {
                None
            },
            None => None,
        }
    } else if starts_with(&cs, "-") {
        let d = suffix(&cs, 1);
        match parse_u64(&d) {
            Some(v) => if v <= 0x8000000000000000u64 {
                if v == 0x8000000000000000u64 {
                    Some(i64::MIN)
                } else {
                    Some(-(v as i64))
                }
            } else {
                None
            },
            None => None,
        }
    } else {
        match parse_u64(&cs) {
            Some(v) => if v <= i64::MAX as u64 {
                Some(v as i64)
            } else {
                None
            },
            None => None,
        }
    }
}

/// A boolean written as `true` or `false`.
pub open spec fn bool_text(t: Seq<char>) -> Option<bool> {
    if t == "true"@ {
        Some(true)
    } else if t == "false"@ {
        Some(false)
    } else {
        None
    }
}

fn parse_bool(t: &str) -> (r: Option<bool>)
    ensures
        r == bool_text(t@),
{
    let a = <String as vstd::string::StringExecFns>::from_str(t);
    let yes = <String as vstd::string::StringExecFns>::from_str("true");
    let no = <String as vstd::string::StringExecFns>::from_str("false");
    if a == yes {
        Some(true)
    } else if a == no {
        Some(false)
    } else {
        None
    }
}

/// Whether two texts are equal, as `String`s.
fn same(a: &str, b: &str) -> (r: bool)
    ensures
        r == (a@ == b@),
{
    let x = <String as vstd::string::StringExecFns>::from_str(a);
    let y = <String as vstd::string::StringExecFns>::from_str(b);
    x == y
}

/// The typed value of option `name` given as the JSON value `value`.
pub open spec fn option_value_spec(name: Seq<char>, value: Json) -> Option<OptionValue> {
    if name == OPT_BUDGET_AMOUNT_MSAT@ {
        match value {
            Json::Number(t) => match i64_text(t@) {
                Some(n) => Some(OptionValue::Integer(n)),
                None => None,
            },
            Json::Str(t) => match i64_text(t@) {
                Some(n) => Some(OptionValue::Integer(n)),
                None => None,
            },
            _ => None,
        }
    } else if name == OPT_HANDLE_PAY@ || name == OPT_STRICT_LNURL@ {
        match value {
            Json::Bool(b) => Some(OptionValue::Boolean(b)),
            Json::Str(t) => match bool_text(t@) {
                Some(b) => Some(OptionValue::Boolean(b)),
                None => None,
            },
            _ => None,
        }
    } else {
        match value {
            Json::Str(t) => Some(OptionValue::Text(t)),
            _ => None,
        }
    }
}

/// Reads the JSON value of a configuration change as the option's type: an integer
/// (or its text) for the budget amount, a boolean (or `"true"`/`"false"`) for the
/// switches, a string for the rest.
pub fn parse_option(name: &str, value: &Json) -> (r: Result<OptionValue, OptionError>)
    ensures
        match option_value_spec(name@, *value) {
            Some(OptionValue::Text(t)) => (r matches Ok(OptionValue::Text(u)) && u@ == t@),
            Some(v) => r == Ok::<OptionValue, OptionError>(v),
            None => r is Err,
        },
{
    if same(name, OPT_BUDGET_AMOUNT_MSAT) {
        let n = match value {
            Json::Number(t) => parse_i64(t.as_str()),
            Json::Str(t) => parse_i64(t.as_str()),
            _ => None,
        };
        match n {
            Some(n) => Ok(OptionValue::Integer(n)),
            None => Err(OptionError::NotInteger(<String as vstd::string::StringExecFns>::from_str(name))),
        }
    } else if same(name, OPT_HANDLE_PAY) || same(name, OPT_STRICT_LNURL) {
        let b = match value {
            Json::Bool(b) => Some(*b),
            Json::Str(t) => parse_bool(t.as_str()),
            _ => None,
        };
        match b {
            Some(b) => Ok(OptionValue::Boolean(b)),
            None => Err(OptionError::NotBoolean(<String as vstd::string::StringExecFns>::from_str(name))),
        }
    } else {
        match value {
            Json::Str(t) => Ok(OptionValue::Text(t.clone())),
            _ => Err(OptionError::NotString(<String as vstd::string::StringExecFns>::from_str(name))),
        }
    }
}

/// The DNS server a name stands for, compared without regard to case.
pub open spec fn dns_server_named(t: Seq<char>) -> Option<DnsServer> {
    if eq_ignore_case(t, "system"@) {
        Some(DnsServer::System)
    } else if eq_ignore_case(t, "google"@) {
        Some(DnsServer::Google)
    } else if eq_ignore_case(t, "cloudflare"@) {
        Some(DnsServer::Cloudflare)
    } else if eq_ignore_case(t, "quad9"@) {
        Some(DnsServer::Quad9)
    } else {
        None
    }
}

pub fn parse_dns_server(t: &str) -> (r: Option<DnsServer>)
    ensures
        r == dns_server_named(t@),
{
    if eq_ignore_ascii_case(t, "system") {
        Some(DnsServer::System)
    } else if eq_ignore_ascii_case(t, "google") {
        Some(DnsServer::Google)
    } else if eq_ignore_ascii_case(t, "cloudflare") {
        Some(DnsServer::Cloudflare)
    } else if eq_ignore_ascii_case(t, "quad9") {
        Some(DnsServer::Quad9)
    } else {
        None
    }
}

proof fn lemma_option_names_differ()
    ensures
        OPT_BUDGET_AMOUNT_MSAT@ != OPT_BUDGET_PER@,
        OPT_BUDGET_AMOUNT_MSAT@ != OPT_HANDLE_PAY@,
        OPT_BUDGET_AMOUNT_MSAT@ != OPT_STRICT_LNURL@,
        OPT_BUDGET_AMOUNT_MSAT@ != OPT_DNS@,
        OPT_BUDGET_PER@ != OPT_HANDLE_PAY@,
        OPT_BUDGET_PER@ != OPT_STRICT_LNURL@,
        OPT_BUDGET_PER@ != OPT_DNS@,
        OPT_HANDLE_PAY@ != OPT_STRICT_LNURL@,
        OPT_HANDLE_PAY@ != OPT_DNS@,
        OPT_STRICT_LNURL@ != OPT_DNS@,
{
    reveal_strlit("payany-budget-per");
    reveal_strlit("payany-budget-amount-msat");
    reveal_strlit("payany-xpay-handle-pay");
    reveal_strlit("payany-strict-lnurl");
    reveal_strlit("payany-dns");
    assert(OPT_BUDGET_AMOUNT_MSAT@.len() != OPT_BUDGET_PER@.len());
    assert(OPT_BUDGET_AMOUNT_MSAT@.len() != OPT_HANDLE_PAY@.len());
    assert(OPT_BUDGET_AMOUNT_MSAT@.len() != OPT_STRICT_LNURL@.len());
    assert(OPT_BUDGET_AMOUNT_MSAT@.len() != OPT_DNS@.len());
    assert(OPT_BUDGET_PER@.len() != OPT_HANDLE_PAY@.len());
    assert(OPT_BUDGET_PER@[7] != OPT_STRICT_LNURL@[7]);
    assert(OPT_BUDGET_PER@.len() != OPT_DNS@.len());
    assert(OPT_HANDLE_PAY@.len() != OPT_STRICT_LNURL@.len());
    assert(OPT_HANDLE_PAY@.len() != OPT_DNS@.len());
    assert(OPT_STRICT_LNURL@.len() != OPT_DNS@.len());
}

/// Applies a typed option value to the configuration. Turning on the `pay` to `xpay`
/// conversion has no effect while `xpay`'s argument list is unknown.
pub fn check_option(config: &mut Config, name: &str, value: &OptionValue) -> (r: Result<(), OptionError>)
    ensures
        name@ == OPT_BUDGET_AMOUNT_MSAT@ ==> match *value {
            OptionValue::Integer(n) => if n >= 0 {
                r is Ok && *final(config) == (Config { budget_amount_msat: Some(n as u64), ..*old(config) })
            } else {
                r is Err && *final(config) == *old(config)
            },
            _ => r is Err && *final(config) == *old(config),
        },
        name@ == OPT_BUDGET_PER@ ==> match *value {
            OptionValue::Text(t) => match period_seconds(t@) {
                Ok(n) => r is Ok && *final(config) == (Config { budget_per: Some(n as u64), ..*old(config) }),
                Err(_) => r is Err && *final(config) == *old(config),
            },
            _ => r is Err && *final(config) == *old(config),
        },
        name@ == OPT_HANDLE_PAY@ ==> match *value {
            OptionValue::Boolean(b) => r is Ok && *final(config) == (Config {
                xpay_handle_pay: b && old(config).xpayargs@.len() > 0,
                ..*old(config)
            }),
            _ => r is Err && *final(config) == *old(config),
        },
        name@ == OPT_STRICT_LNURL@ ==> match *value {
            OptionValue::Boolean(b) => r is Ok && *final(config) == (Config { strict_lnurl: b, ..*old(config) }),
            _ => r is Err && *final(config) == *old(config),
        },
        name@ == OPT_DNS@ ==> match *value {
            OptionValue::Text(t) => match dns_server_named(t@) {
                Some(d) => r is Ok && *final(config) == (Config { dns_server: d, ..*old(config) }),
                None => r is Err && *final(config) == *old(config),
            },
            _ => r is Err && *final(config) == *old(config),
        },
        name@ != OPT_BUDGET_AMOUNT_MSAT@ && name@ != OPT_BUDGET_PER@ && name@ != OPT_HANDLE_PAY@
            && name@ != OPT_STRICT_LNURL@ && name@ != OPT_DNS@ ==> (r is Err && *final(config) == *old(
            config,
        )),
{
    proof {
        lemma_option_names_differ();
    }
    let owned = <String as vstd::string::StringExecFns>::from_str(name);
    if same(name, OPT_BUDGET_AMOUNT_MSAT) {
        match value {
            OptionValue::Integer(n) => match options_value_to_u64(OPT_BUDGET_AMOUNT_MSAT, *n, 0) {
                Ok(v) => {
                    config.budget_amount_msat = Some(v);
                    Ok(())
                },
                Err(e) => Err(e),
            },
            _ => Err(OptionError::WrongType(owned)),
        }
    } else if same(name, OPT_BUDGET_PER) {
        match value {
            OptionValue::Text(t) => match parse_time_period(t.as_str()) {
                Ok(n) => {
                    config.budget_per = Some(n);
                    Ok(())
                },
                Err(e) => Err(OptionError::BadPeriod(e)),
            },
            _ => Err(OptionError::WrongType(owned)),
        }
    } else if same(name, OPT_HANDLE_PAY) {
        match value {
            OptionValue::Boolean(b) => {
                config.xpay_handle_pay = *b && config.xpayargs.len() > 0;
                Ok(())
            },
            _ => Err(OptionError::WrongType(owned)),
        }
    } else if same(name, OPT_STRICT_LNURL) {
        match value {
            OptionValue::Boolean(b) => {
                config.strict_lnurl = *b;
                Ok(())
            },
            _ => Err(OptionError::WrongType(owned)),
        }
    } else if same(name, OPT_DNS) {
        match value {
            OptionValue::Text(t) => match parse_dns_server(t.as_str()) {
                Some(d) => {
                    config.dns_server = d;
                    Ok(())
                },
                None => Err(OptionError::BadDnsServer(t.clone())),
            },
            _ => Err(OptionError::WrongType(owned)),
        }
    } else {
        Err(OptionError::Unknown(owned))
    }
}

/// The budget to enforce: both budget options together, or none at all (budget
/// enforcement is off unless both are set).
pub fn budget_of(config: &Config) -> (r: Option<BudgetConfig>)
    ensures
        (config.budget_amount_msat is Some && config.budget_per is Some) ==> (r matches Some(b)
            && b.amount_msat == config.budget_amount_msat->0 && b.period_seconds
            == config.budget_per->0),
        !(config.budget_amount_msat is Some && config.budget_per is Some) ==> r is None,
{
    match (config.budget_amount_msat, config.budget_per) {
        (Some(amount_msat), Some(period_seconds)) => Some(BudgetConfig { amount_msat, period_seconds }),
        _ => None,
    }
}

/// Whether the startup options describe a budget consistently: either both budget
/// options or neither.
pub fn check_budget_options(config: &Config) -> (r: Result<(), OptionError>)
    ensures
        (config.budget_amount_msat is Some == config.budget_per is Some) ==> r is Ok,
        (config.budget_amount_msat is Some != config.budget_per is Some) ==> r matches Err(
            OptionError::IncompleteBudget,
        ),
{
    if config.budget_amount_msat.is_some() == config.budget_per.is_some() {
        Ok(())
    } else {
        Err(OptionError::IncompleteBudget)
    }
}

/// An argument name as a command's usage line writes it, without the brackets that
/// mark an optional argument.
pub open spec fn bare_arg(a: Seq<char>) -> Seq<char> {
    if has_prefix(a, "["@) && a.len() >= 2 {
        a.subrange(1, a.len() - 1)
    } else {
        a
    }
}

/// The argument names in a usage line such as `"pay bolt11 [amount_msat]"`: the
/// words other than the command's own name, brackets removed, in order.
pub open spec fn usage_args(words: Seq<Seq<char>>, cmd: Seq<char>) -> Seq<Seq<char>>
    decreases words.len(),
{
    if words.len() == 0 {
        Seq::empty()
    } else if words.last() == cmd {
        usage_args(words.drop_last(), cmd)
    } else {
        usage_args(words.drop_last(), cmd).push(bare_arg(words.last()))
    }
}

/// The positional argument names of command `cmd` read from its usage line, with
/// `message` appended (the comment this layer accepts on every payment command).
pub fn args_from_usage(usage: &str, cmd: &str) -> (r: Vec<String>)
    ensures
        r@.len() == usage_args(split_seq(usage@, ' '), cmd@).len() + 1,
        forall|i: int| 0 <= i < r@.len() - 1 ==> #[trigger] r@[i]@ == usage_args(
            split_seq(usage@, ' '),
            cmd@,
        )[i],
        r@[r@.len() - 1]@ == "message"@,
{
    proof {
        reveal_strlit("[");
    }
    let words = split_chars(&chars_of(usage), ' ');
    let ghost ws = split_seq(usage@, ' ');
    let cmd_chars = chars_of(cmd);
    let mut r: Vec<String> = Vec::new();
    let mut i: usize = 0;
    while i < words.len()
        invariant
            i <= words.len(),
            words@.len() == ws.len(),
            forall|j: int| 0 <= j < ws.len() ==> #[trigger] words@[j]@ == ws[j],
            cmd_chars@ == cmd@,
            r@.len() == usage_args(ws.subrange(0, i as int), cmd@).len(),
            forall|j: int| 0 <= j < r@.len() ==> #[trigger] r@[j]@ == usage_args(ws.subrange(0, i as int), cmd@)[j],
        decreases words.len() - i,
    {
        let ghost pre = ws.subrange(0, i as int + 1);
        assert(pre.drop_last() =~= ws.subrange(0, i as int));
        assert(words@[i as int]@ == ws[i as int]);
        let w = &words[i];
        let is_cmd = same(string_of(w).as_str(), cmd);
        if !is_cmd {
            let bare = if starts_with(w, "[") && w.len() >= 2 {
                let inner = suffix(w, 1);
                let mut t: Vec<char> = Vec::new();
                let mut k: usize = 0;
                while k + 1 < inner.len()
                    invariant
                        k + 1 <= inner.len() || k == 0,
                        t@ == inner@.subrange(0, k as int),
                    decreases inner.len() - k,
                {
                    t.push(inner[k]);
                    k = k + 1;
                    assert(t@ =~= inner@.subrange(0, k as int));
                }
                assert(t@ =~= w@.subrange(1, w@.len() - 1));
                t
            } else {
                suffix(w, 0)
            };
            assert(bare@ =~= bare_arg(ws[i as int]));
            r.push(string_of(&bare));
        }
        i = i + 1;
    }
    assert(ws.subrange(0, words.len() as int) =~= ws);
    r.push(<String as vstd::string::StringExecFns>::from_str("message"));
    r
}

} // verus!
