//! The command gateway: which commands are intercepted and how their parameters
//! are shaped on the way in and out.
use vstd::prelude::*;
use crate::config::Config;
use crate::fee::{get_maxfee, max_fee_spec, FeeError};
use crate::json::{named, Json, Params};
use crate::text::{
    all_digits, decimal, decimal_string, digits_value, eq_ignore_ascii_case, eq_ignore_case, has_prefix,
    same_text, split_seq,
};

verus! {

/// The error code of a rejected command (invalid parameters).
pub const REJECT_CODE: i64 = -32602;

/// Longest time, in seconds, that resolving and admitting one command may take
/// before the command is rejected.
pub const ADMISSION_DEADLINE_SECONDS: u64 = 120;

/// The payment commands that are intercepted.
#[derive(Debug, PartialEq, Eq, Structural, Clone, Copy)]
pub enum Paycmd {
    Pay,
    Xpay,
    Renepay,
}

/// What an intercepted command is.
#[derive(Debug, PartialEq, Eq, Structural, Clone, Copy)]
pub enum Method {
    Pay(Paycmd),
    Setconfig,
    Other,
}

pub open spec fn method_spec(name: Seq<char>) -> Method {
    if name == "xpay"@ {
        Method::Pay(Paycmd::Xpay)
    } else if name == "pay"@ {
        Method::Pay(Paycmd::Pay)
    } else if name == "renepay"@ {
        Method::Pay(Paycmd::Renepay)
    } else if name == "setconfig"@ {
        Method::Setconfig
    } else {
        Method::Other
    }
}

/// Classifies an intercepted command by its method name.
pub fn method_of(name: &str) -> (r: Method)
    ensures
        r == method_spec(name@),
{
    if same_text(name, "xpay") {
        Method::Pay(Paycmd::Xpay)
    } else if same_text(name, "pay") {
        Method::Pay(Paycmd::Pay)
    } else if same_text(name, "renepay") {
        Method::Pay(Paycmd::Renepay)
    } else if same_text(name, "setconfig") {
        Method::Setconfig
    } else {
        Method::Other
    }
}

/// The method name of a payment command.
pub fn method_name(cmd: Paycmd) -> (r: &'static str)
    ensures
        r@ == match cmd {
            Paycmd::Pay => "pay"@,
            Paycmd::Xpay => "xpay"@,
            Paycmd::Renepay => "renepay"@,
        },
{
    match cmd {
        Paycmd::Pay => "pay",
        Paycmd::Xpay => "xpay",
        Paycmd::Renepay => "renepay",
    }
}

/// The command actually sent on: `pay` becomes `xpay` where the conversion is on.
pub fn forwarded_command(cmd: Paycmd, config: &Config) -> (r: Paycmd)
    ensures
        r == if cmd == Paycmd::Pay && config.xpay_handle_pay {
            Paycmd::Xpay
        } else {
            cmd
        },
{
    if cmd == Paycmd::Pay && config.xpay_handle_pay {
        Paycmd::Xpay
    } else {
        cmd
    }
}

/// Why the gateway refused a command.
#[derive(Debug, PartialEq, Eq)]
pub enum GatewayError {
    /// More positional arguments than the command has names for.
    TooManyArguments(Paycmd),
    /// An attempt to turn on the daemon's own `pay` to `xpay` conversion.
    SetconfigBlocked,
    /// `exclude` is not an array.
    ExcludeNotArray,
    /// An `exclude` entry is neither a channel direction nor a node id.
    BadExclude,
}

/// A command's parameters as they arrive: positional, named, or one bare string.
#[derive(Debug, PartialEq, Eq)]
pub enum ParamValue {
    Array(Vec<Json>),
    Object(Params),
    String(String),
}

/// The argument names of a payment command, in positional order.
pub open spec fn arg_names(config: Config, cmd: Paycmd) -> Seq<String> {
    match cmd {
        Paycmd::Pay => config.payargs@,
        Paycmd::Xpay => config.xpayargs@,
        Paycmd::Renepay => config.renepayargs@,
    }
}

/// `members` pairs the first `vals.len()` names with the values, in order.
pub open spec fn zipped(members: Seq<(String, Json)>, names: Seq<String>, vals: Seq<Json>) -> bool {
    &&& members.len() == vals.len()
    &&& forall|i: int| 0 <= i < vals.len() ==> (#[trigger] members[i]).0@ == names[i]@ && members[i].1
        == vals[i]
}

/// Names positional values after `names`, or `None` when there are more values
/// than names.
pub fn positional(vals: Vec<Json>, names: &Vec<String>) -> (r: Option<Params>)
    ensures
        vals@.len() > names@.len() ==> r is None,
        vals@.len() <= names@.len() ==> (r matches Some(p) && zipped(p.members@, names@, vals@)),
{
    if vals.len() > names.len() {
        return None;
    }
    let ghost orig = vals@;
    let n = vals.len();
    let mut vals = vals;
    let mut members: Vec<(String, Json)> = Vec::new();
    let mut i: usize = 0;
    while vals.len() > 0
        invariant
            orig.len() <= names@.len(),
            orig.len() == n,
            i + vals@.len() == orig.len(),
            vals@ == orig.subrange(i as int, orig.len() as int),
            members@.len() == i,
            forall|j: int| 0 <= j < i ==> (#[trigger] members@[j]).0@ == names@[j]@ && members@[j].1
                == orig[j],
        decreases vals.len(),
    {
        let v = vals.remove(0);
        members.push((names[i].clone(), v));
        i = i + 1;
        assert(vals@ =~= orig.subrange(i as int, orig.len() as int));
    }
    Some(Params { members })
}

impl ParamValue {
    /// The parameters by name: positional values are named after the command's
    /// argument list, a bare string is its first argument, and named parameters
    /// stay as they are.
    pub fn to_object(self, paycmd: Paycmd, config: &Config) -> (r: Result<Params, GatewayError>)
        ensures
            match self {
                ParamValue::Array(vals) => if vals@.len() > arg_names(*config, paycmd).len() {
                    r == Err::<Params, GatewayError>(GatewayError::TooManyArguments(paycmd))
                } else {
                    r matches Ok(p) && zipped(p.members@, arg_names(*config, paycmd), vals@)
                },
                ParamValue::Object(p) => r == Ok::<Params, GatewayError>(p),
                ParamValue::String(s) => if arg_names(*config, paycmd).len() == 0 {
                    r == Err::<Params, GatewayError>(GatewayError::TooManyArguments(paycmd))
                } else {
                    r matches Ok(p) && zipped(p.members@, arg_names(*config, paycmd), seq![Json::Str(s)])
                },
            },
    {
        let names = match paycmd {
            Paycmd::Pay => &config.payargs,
            Paycmd::Xpay => &config.xpayargs,
            Paycmd::Renepay => &config.renepayargs,
        };
        match self {
            ParamValue::Array(vals) => match positional(vals, names) {
                Some(p) => Ok(p),
                None => Err(GatewayError::TooManyArguments(paycmd)),
            },
            ParamValue::Object(p) => Ok(p),
            ParamValue::String(s) => {
                let vals = vec![Json::Str(s)];
                assert(vals@ =~= seq![Json::Str(s)]);
                match positional(vals, names) {
                    Some(p) => Ok(p),
                    None => Err(GatewayError::TooManyArguments(paycmd)),
                }
            },
        }
    }
}

/// Whether a configuration value turns a switch on: a missing value counts as on,
/// as do `true` and the texts `"true"` and `"1"` in any case.
pub open spec fn turns_on(val: Option<Json>) -> bool {
    match val {
        None => true,
        Some(Json::Bool(b)) => b,
        Some(Json::Str(s)) => eq_ignore_case(s@, "true"@) || eq_ignore_case(s@, "1"@),
        Some(_) => false,
    }
}

/// Whether a `setconfig` call tries to turn on the daemon's `xpay-handle-pay`,
/// which would compete with this layer's own conversion.
pub open spec fn blocked_setconfig(p: ParamValue) -> bool {
    match p {
        ParamValue::Array(vs) => vs@.len() >= 2 && match vs@[0] {
            Json::Str(c) => eq_ignore_case(c@, "xpay-handle-pay"@) && turns_on(Some(vs@[1])),
            _ => false,
        },
        ParamValue::Object(m) => match m.get_spec("config"@) {
            Some(Json::Str(c)) => eq_ignore_case(c@, "xpay-handle-pay"@) && turns_on(m.get_spec("val"@)),
            _ => false,
        },
        ParamValue::String(c) => eq_ignore_case(c@, "xpay-handle-pay"@),
    }
}

fn turns_on_exec(val: Option<&Json>) -> (r: bool)
    ensures
        r == turns_on(
            match val {
                Some(v) => Some(*v),
                None => None,
            },
        ),
{
    match val {
        None => true,
        Some(Json::Bool(b)) => *b,
        Some(Json::Str(s)) => eq_ignore_ascii_case(s.as_str(), "true") || eq_ignore_ascii_case(s.as_str(), "1"),
        Some(_) => false,
    }
}

/// Refuses a `setconfig` call that turns on `xpay-handle-pay`; lets any other through.
pub fn check_setconfig(param: &ParamValue) -> (r: Result<(), GatewayError>)
    ensures
        blocked_setconfig(*param) ==> r matches Err(GatewayError::SetconfigBlocked),
        !blocked_setconfig(*param) ==> r is Ok,
{
    let blocked = match param {
        ParamValue::Array(vs) => {
            if vs.len() < 2 {
                false
            } else {
                match &vs[0] {
                    Json::Str(c) => eq_ignore_ascii_case(c.as_str(), "xpay-handle-pay") && turns_on_exec(Some(&vs[1])),
                    _ => false,
                }
            }
        },
        ParamValue::Object(m) => match m.get("config") {
            Some(Json::Str(c)) => eq_ignore_ascii_case(c.as_str(), "xpay-handle-pay") && turns_on_exec(m.get("val")),
            _ => false,
        },
        ParamValue::String(c) => eq_ignore_ascii_case(c.as_str(), "xpay-handle-pay"),
    };
    if blocked {
        Err(GatewayError::SetconfigBlocked)
    } else {
        Ok(())
    }
}

/// What the gateway does with an intercepted command before any resolution.
#[derive(Debug, PartialEq, Eq)]
pub enum HookStart {
    /// Not a command this layer handles: let it through unchanged.
    Continue,
    /// Refuse the command.
    Reject(GatewayError),
    /// A payment command with its parameters by name.
    Process(Paycmd, Params),
}

/// The first decision on an intercepted command `method` with parameters `params`.
pub fn start_hook(method: &str, params: ParamValue, config: &Config) -> (r: HookStart)
    ensures
        method_spec(method@) == Method::Other ==> r is Continue,
        method_spec(method@) == Method::Setconfig ==> if blocked_setconfig(params) {
            r matches HookStart::Reject(GatewayError::SetconfigBlocked)
        } else {
            r is Continue
        },
        method_spec(method@) matches Method::Pay(cmd) ==> match params {
            ParamValue::Array(vals) => if vals@.len() > arg_names(*config, cmd).len() {
                r matches HookStart::Reject(GatewayError::TooManyArguments(c)) && c == cmd
            } else {
                r matches HookStart::Process(c, p) && c == cmd && zipped(p.members@, arg_names(*config, cmd), vals@)
            },
            ParamValue::Object(p) => r == HookStart::Process(cmd, p),
            ParamValue::String(s) => if arg_names(*config, cmd).len() == 0 {
                r matches HookStart::Reject(GatewayError::TooManyArguments(c)) && c == cmd
            } else {
                r matches HookStart::Process(c, p) && c == cmd && zipped(p.members@, arg_names(*config, cmd), seq![Json::Str(s)])
            },
        },
{
    match method_of(method) {
        Method::Other => HookStart::Continue,
        Method::Setconfig => match check_setconfig(&params) {
            Ok(()) => HookStart::Continue,
            Err(e) => HookStart::Reject(e),
        },
        Method::Pay(cmd) => match params.to_object(cmd, config) {
            Ok(p) => HookStart::Process(cmd, p),
            Err(e) => HookStart::Reject(e),
        },
    }
}

/// Removes the payment comment, which must never reach the payment engine.
pub fn strip_message(params: &mut Params)
    ensures
        final(params).get_spec("message"@) is None,
        forall|k: Seq<char>| k != "message"@ ==> final(params).get_spec(k) == old(params).get_spec(k),
{
    params.remove("message");
}

/// `pay` parameters reshaped for `xpay`, with the fee and exclusion parameters
/// taken out for separate handling.
#[derive(Debug, PartialEq, Eq)]
pub struct XpayConversion {
    pub params: Params,
    pub maxfee: Option<Json>,
    pub maxfeepercent: Option<Json>,
    pub exemptfee: Option<Json>,
    pub exclude: Option<Json>,
}

proof fn lemma_param_names_differ()
    ensures
        "bolt11"@ != "invstring"@,
        "bolt11"@ != "maxfee"@,
        "bolt11"@ != "maxfeepercent"@,
        "bolt11"@ != "exemptfee"@,
        "bolt11"@ != "exclude"@,
        "invstring"@ != "maxfee"@,
        "invstring"@ != "maxfeepercent"@,
        "invstring"@ != "exemptfee"@,
        "invstring"@ != "exclude"@,
        "maxfee"@ != "maxfeepercent"@,
        "maxfee"@ != "exemptfee"@,
        "maxfee"@ != "exclude"@,
        "maxfeepercent"@ != "exemptfee"@,
        "maxfeepercent"@ != "exclude"@,
        "exemptfee"@ != "exclude"@,
        "maxfee"@ != "layers"@,
{
    reveal_strlit("invstring");
    reveal_strlit("bolt11");
    reveal_strlit("maxfee");
    reveal_strlit("maxfeepercent");
    reveal_strlit("exemptfee");
    reveal_strlit("exclude");
    reveal_strlit("layers");
    assert("maxfeepercent"@.len() == 13);
    assert("maxfee"@.len() == 6);
    assert("exclude"@.len() == 7);
    assert("bolt11"@[0] != "maxfee"@[0]);
    assert("invstring"@[0] != "exemptfee"@[0]);
    assert("maxfee"@[0] != "layers"@[0]);
}

/// The parameters taken out of a `pay` call before it is handed to `xpay`.
pub open spec fn taken_out(k: Seq<char>) -> bool {
    k == "bolt11"@ || k == "maxfee"@ || k == "maxfeepercent"@ || k == "exemptfee"@ || k == "exclude"@
}

/// Reshapes `pay` parameters for `xpay`: `bolt11` becomes `invstring`, the fee and
/// exclusion parameters are taken out, and whatever `xpay` does not accept (per
/// `xpayargs`) is dropped.
pub fn pay_params_for_xpay(params: Params, xpayargs: &Vec<String>) -> (r: XpayConversion)
    ensures
        r.maxfee == params.get_spec("maxfee"@),
        r.maxfeepercent == params.get_spec("maxfeepercent"@),
        r.exemptfee == params.get_spec("exemptfee"@),
        r.exclude == params.get_spec("exclude"@),
        forall|k: Seq<char>| #[trigger] r.params.get_spec(k) == if !named(xpayargs@, k) || taken_out(k) {
            None
        } else if k == "invstring"@ && params.get_spec("bolt11"@) is Some {
            params.get_spec("bolt11"@)
        } else {
            params.get_spec(k)
        },
{
    proof {
        lemma_param_names_differ();
    }
    let ghost given = params;
    let mut p = params;
    let invstring = p.remove("bolt11");
    let ghost without_bolt11 = p;
    match invstring {
        Some(v) => p.insert(<String as vstd::string::StringExecFns>::from_str("invstring"), v),
        None => {},
    }
    let ghost renamed = p;
    let maxfeepercent = p.remove("maxfeepercent");
    let exemptfee = p.remove("exemptfee");
    let exclude = p.remove("exclude");
    let maxfee = p.remove("maxfee");
    let ghost trimmed = p;
    assert forall|k: Seq<char>| #[trigger] trimmed.get_spec(k) == if taken_out(k) {
        None
    } else if k == "invstring"@ && given.get_spec("bolt11"@) is Some {
        given.get_spec("bolt11"@)
    } else {
        given.get_spec(k)
    } by {
        if k != "bolt11"@ {
            assert(without_bolt11.get_spec(k) == given.get_spec(k));
        }
        if k == "invstring"@ && invstring is Some {
            assert(renamed.get_spec(k) == invstring);
        } else if k != "invstring"@ {
            assert(renamed.get_spec(k) == without_bolt11.get_spec(k));
        }
    }
    p.retain_named(xpayargs);
    XpayConversion { params: p, maxfee, maxfeepercent, exemptfee, exclude }
}

/// The fee bound to pass to `xpay` for an invoice of `amount_msat`: none where no
/// fee parameter was given.
pub fn xpay_maxfee(conv: &XpayConversion, amount_msat: u64) -> (r: Result<Option<u64>, FeeError>)
    ensures
        (conv.maxfee is None && conv.maxfeepercent is None && conv.exemptfee is None) ==> r
            == Ok::<Option<u64>, FeeError>(None),
        !(conv.maxfee is None && conv.maxfeepercent is None && conv.exemptfee is None) ==> match max_fee_spec(
            conv.maxfee,
            conv.maxfeepercent,
            conv.exemptfee,
            amount_msat as nat,
        ) {
            Ok(v) => r == Ok::<Option<u64>, FeeError>(Some(v as u64)),
            Err(e) => r == Err::<Option<u64>, FeeError>(e),
        },
{
    if conv.maxfee.is_none() && conv.maxfeepercent.is_none() && conv.exemptfee.is_none() {
        return Ok(None);
    }
    let maxfee = match &conv.maxfee {
        Some(v) => Some(v),
        None => None,
    };
    let maxfeepercent = match &conv.maxfeepercent {
        Some(v) => Some(v),
        None => None,
    };
    let exemptfee = match &conv.exemptfee {
        Some(v) => Some(v),
        None => None,
    };
    match get_maxfee(maxfee, maxfeepercent, exemptfee, amount_msat) {
        Ok(v) => Ok(Some(v)),
        Err(e) => Err(e),
    }
}

/// Completes `xpay` parameters with the fee bound and the routing layer that holds
/// the exclusions.
pub fn finish_xpay_params(params: &mut Params, maxfee: Option<u64>, layer: Option<String>)
    ensures
        match maxfee {
            Some(f) => final(params).get_spec("maxfee"@) matches Some(Json::Number(t)) && t@ == decimal(f as nat),
            None => final(params).get_spec("maxfee"@) == old(params).get_spec("maxfee"@),
        },
        match layer {
            Some(l) => final(params).get_spec("layers"@) matches Some(Json::Array(ls)) && ls@.len() == 1
                && ls@[0] == Json::Str(l),
            None => final(params).get_spec("layers"@) == old(params).get_spec("layers"@),
        },
        forall|k: Seq<char>| k != "maxfee"@ && k != "layers"@ ==> final(params).get_spec(k) == old(params).get_spec(k),
{
    proof {
        lemma_param_names_differ();
    }
    if let Some(f) = maxfee {
        let digits = decimal_string(f);
        params.insert(<String as vstd::string::StringExecFns>::from_str("maxfee"), Json::Number(digits));
    }
    let ghost mid = *params;
    if let Some(l) = layer {
        let ls = vec![Json::Str(l)];
        assert(ls@.len() == 1 && ls@[0] == Json::Str(l));
        params.insert(<String as vstd::string::StringExecFns>::from_str("layers"), Json::Array(ls));
        assert(params.get_spec("maxfee"@) == mid.get_spec("maxfee"@));
    }
}

/// A `u64` as Rust's `str::parse` reads it: decimal digits, optionally after `+`.
pub open spec fn u64_text(t: Seq<char>) -> bool {
    let d = if has_prefix(t, "+"@) {
        t.subrange(1, t.len() as int)
    } else {
        t
    };
    all_digits(d) && digits_value(d) <= u64::MAX
}

/// A `u32` as Rust's `str::parse` reads it.
pub open spec fn u32_text(t: Seq<char>) -> bool {
    let d = if has_prefix(t, "+"@) {
        t.subrange(1, t.len() as int)
    } else {
        t
    };
    all_digits(d) && digits_value(d) <= u32::MAX
}

/// A channel direction as `<block>x<tx>x<output>/<direction>`.
pub open spec fn is_scid_dir(t: Seq<char>) -> bool {
    let halves = split_seq(t, '/');
    let parts = split_seq(halves[0], 'x');
    &&& halves.len() == 2
    &&& parts.len() == 3
    &&& forall|i: int| 0 <= i < 3 ==> u64_text(#[trigger] parts[i])
    &&& u32_text(halves[1])
}

/// Relies on `cln_rpc::primitives::ShortChannelIdDir::from_str` (which its serde
/// deserializer calls on a string): it succeeds exactly when the text splits at `/`
/// into two pieces, the first splits at `x` into three `u64`s and the second is a `u32`.
#[verifier::external_body]
fn reads_as_scid_dir(t: &str) -> (r: bool)
    ensures
        r == is_scid_dir(t@),
{
    <cln_rpc::primitives::ShortChannelIdDir as std::str::FromStr>::from_str(t).is_ok()
}

/// Whether the text is a node id: the hex encoding of a valid secp256k1 point.
pub uninterp spec fn is_public_key(t: Seq<char>) -> bool;

/// Relies on `cln_rpc::primitives::PublicKey::from_str` (secp256k1's hex parser,
/// which its serde deserializer calls on a string): the answer depends on the text
/// alone.
#[verifier::external_body]
fn reads_as_public_key(t: &str) -> (r: bool)
    ensures
        r == is_public_key(t@),
{
    <cln_rpc::primitives::PublicKey as std::str::FromStr>::from_str(t).is_ok()
}

/// The channel directions and node ids among `exclude` entries, each in order,
/// where every entry is one or the other (a channel direction first).
pub open spec fn exclude_split(es: Seq<Json>) -> Option<(Seq<Seq<char>>, Seq<Seq<char>>)>
    decreases es.len(),
{
    if es.len() == 0 {
        Some((Seq::empty(), Seq::empty()))
    } else {
        match exclude_split(es.drop_last()) {
            None => None,
            Some((chans, nodes)) => match es.last() {
                Json::Str(t) => if is_scid_dir(t@) {
                    Some((chans.push(t@), nodes))
                } else if is_public_key(t@) {
                    Some((chans, nodes.push(t@)))
                } else {
                    None
                },
                _ => None,
            },
        }
    }
}

/// Sorts the entries of `exclude` into channel directions and node ids.
pub fn classify_excludes(exclude: &Json) -> (r: Result<(Vec<String>, Vec<String>), GatewayError>)
    ensures
        match *exclude {
            Json::Array(es) => match exclude_split(es@) {
                Some((chans, nodes)) => r matches Ok((c, n)) && c@.len() == chans.len() && n@.len()
                    == nodes.len() && (forall|i: int| 0 <= i < chans.len() ==> #[trigger] c@[i]@ == chans[i])
                    && (forall|i: int| 0 <= i < nodes.len() ==> #[trigger] n@[i]@ == nodes[i]),
                None => r matches Err(GatewayError::BadExclude),
            },
            _ => r matches Err(GatewayError::ExcludeNotArray),
        },
{
    let es: &Vec<Json> = match exclude {
        Json::Array(es) => es,
        _ => return Err(GatewayError::ExcludeNotArray),
    };
    let ghost v: Vec<Json> = *es;
    let mut chans: Vec<String> = Vec::new();
    let mut nodes: Vec<String> = Vec::new();
    let mut i: usize = 0;
    while i < es.len()
        invariant
            v == *es,
            *exclude == Json::Array(v),
            i <= es.len(),
            exclude_split(v@.subrange(0, i as int)) matches Some((cs, ns)) && chans@.len() == cs.len()
                && nodes@.len() == ns.len() && (forall|j: int| 0 <= j < cs.len() ==> #[trigger] chans@[j]@ == cs[j])
                && (forall|j: int| 0 <= j < ns.len() ==> #[trigger] nodes@[j]@ == ns[j]),
        decreases es.len() - i,
    {
        let ghost pre = v@.subrange(0, i as int + 1);
        assert(pre.drop_last() =~= v@.subrange(0, i as int));
        assert(pre.last() == v@[i as int]);
        match &es[i] {
            Json::Str(t) => {
                if reads_as_scid_dir(t.as_str()) {
                    chans.push(t.clone());
                } else if reads_as_public_key(t.as_str()) {
                    nodes.push(t.clone());
                } else {
                    proof {
                        lemma_exclude_split_prefix(v@, i as int + 1);
                    }
                    return Err(GatewayError::BadExclude);
                }
            },
            _ => {
                proof {
                    lemma_exclude_split_prefix(v@, i as int + 1);
                }
                return Err(GatewayError::BadExclude);
            },
        }
        i = i + 1;
    }
    assert(v@.subrange(0, es.len() as int) =~= v@);
    Ok((chans, nodes))
}

proof fn lemma_exclude_split_prefix(es: Seq<Json>, n: int)
    requires
        0 <= n <= es.len(),
        exclude_split(es.subrange(0, n)) is None,
    ensures
        exclude_split(es) is None,
    decreases es.len() - n,
{
    if n < es.len() {
        let longer = es.subrange(0, n + 1);
        assert(longer.drop_last() =~= es.subrange(0, n));
        lemma_exclude_split_prefix(es, n + 1);
    } else {
        assert(es.subrange(0, n) =~= es);
    }
}

/// The argument names of the `payany` method.
pub open spec fn payany_names() -> Seq<Seq<char>> {
    seq!["invstring"@, "amount_msat"@, "message"@]
}

/// The parameters of a `payany` call by name: an object as it is, an array named
/// after `invstring`, `amount_msat`, `message`, anything else as no parameters.
pub fn payany_params(args: Json) -> (r: Result<Params, GatewayError>)
    ensures
        match args {
            Json::Object(ms) => r matches Ok(p) && p.members == ms,
            Json::Array(vals) => if vals@.len() > 3 {
                r matches Err(GatewayError::TooManyArguments(Paycmd::Xpay))
            } else {
                r matches Ok(p) && p.members@.len() == vals@.len() && forall|i: int| 0 <= i < vals@.len()
                    ==> (#[trigger] p.members@[i]).0@ == payany_names()[i] && p.members@[i].1 == vals@[i]
            },
            _ => r matches Ok(p) && p.members@.len() == 0,
        },
{
    let names = vec![
        <String as vstd::string::StringExecFns>::from_str("invstring"),
        <String as vstd::string::StringExecFns>::from_str("amount_msat"),
        <String as vstd::string::StringExecFns>::from_str("message"),
    ];
    assert(names@[0]@ == payany_names()[0]);
    assert(names@[1]@ == payany_names()[1]);
    assert(names@[2]@ == payany_names()[2]);
    match args {
        Json::Object(ms) => Ok(Params { members: ms }),
        Json::Array(vals) => match positional(vals, &names) {
            Some(p) => Ok(p),
            None => Err(GatewayError::TooManyArguments(Paycmd::Xpay)),
        },
        _ => Ok(Params::new()),
    }
}

} // verus!
