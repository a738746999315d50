use payany::config::Config;
use payany::fee::FeeError;
use payany::gateway::{
    check_setconfig, classify_excludes, finish_xpay_params, forwarded_command, method_name, method_of,
    pay_params_for_xpay, payany_params, start_hook, strip_message, xpay_maxfee, GatewayError, HookStart,
    Method, ParamValue, Paycmd,
};
use payany::json::{Json, Params};

fn s(t: &str) -> Json {
    Json::Str(t.to_string())
}

fn n(t: &str) -> Json {
    Json::Number(t.to_string())
}

fn names(v: &[&str]) -> Vec<String> {
    v.iter().map(|x| x.to_string()).collect()
}

fn config() -> Config {
    let mut c = Config::new();
    c.payargs = names(&["bolt11", "amount_msat", "label", "message"]);
    c.xpayargs = names(&["invstring", "amount_msat", "maxfee", "layers", "message"]);
    c.renepayargs = names(&["invstring", "message"]);
    c
}

fn object(pairs: Vec<(&str, Json)>) -> Params {
    let mut p = Params::new();
    for (k, v) in pairs {
        p.insert(k.to_string(), v);
    }
    p
}

#[test]
fn methods_are_recognized() {
    assert_eq!(method_of("pay"), Method::Pay(Paycmd::Pay));
    assert_eq!(method_of("xpay"), Method::Pay(Paycmd::Xpay));
    assert_eq!(method_of("renepay"), Method::Pay(Paycmd::Renepay));
    assert_eq!(method_of("setconfig"), Method::Setconfig);
    assert_eq!(method_of("getinfo"), Method::Other);
    assert_eq!(method_name(Paycmd::Renepay), "renepay");
    let mut c = config();
    assert_eq!(forwarded_command(Paycmd::Pay, &c), Paycmd::Pay);
    c.xpay_handle_pay = true;
    assert_eq!(forwarded_command(Paycmd::Pay, &c), Paycmd::Xpay);
    assert_eq!(forwarded_command(Paycmd::Renepay, &c), Paycmd::Renepay);
}

#[test]
fn positional_parameters_are_named() {
    let c = config();
    let p = ParamValue::Array(vec![s("lnbc1"), n("1000")]).to_object(Paycmd::Pay, &c).unwrap();
    assert_eq!(p.get("bolt11"), Some(&s("lnbc1")));
    assert_eq!(p.get("amount_msat"), Some(&n("1000")));
    assert_eq!(p.get("label"), None);
    let p = ParamValue::String("lno1x".to_string()).to_object(Paycmd::Renepay, &c).unwrap();
    assert_eq!(p.get("invstring"), Some(&s("lno1x")));
    let obj = object(vec![("whatever", Json::Null)]);
    let p = ParamValue::Object(object(vec![("whatever", Json::Null)])).to_object(Paycmd::Xpay, &c).unwrap();
    assert_eq!(p, obj);
}

#[test]
fn too_many_positional_parameters() {
    let c = config();
    let r = ParamValue::Array(vec![s("a"), s("b"), s("c")]).to_object(Paycmd::Renepay, &c);
    assert_eq!(r, Err(GatewayError::TooManyArguments(Paycmd::Renepay)));
    let r = ParamValue::String("x".to_string()).to_object(Paycmd::Xpay, &Config::new());
    assert_eq!(r, Err(GatewayError::TooManyArguments(Paycmd::Xpay)));
}

#[test]
fn setconfig_enabling_handle_pay_blocked() {
    let blocked = ParamValue::Array(vec![s("xpay-handle-pay"), Json::Bool(true)]);
    assert_eq!(check_setconfig(&blocked), Err(GatewayError::SetconfigBlocked));
    let blocked = ParamValue::Object(object(vec![("config", s("XPAY-HANDLE-PAY")), ("val", s("1"))]));
    assert_eq!(check_setconfig(&blocked), Err(GatewayError::SetconfigBlocked));
    let blocked = ParamValue::String("xpay-handle-pay".to_string());
    assert_eq!(check_setconfig(&blocked), Err(GatewayError::SetconfigBlocked));
    let off = ParamValue::Array(vec![s("xpay-handle-pay"), Json::Bool(false)]);
    assert_eq!(check_setconfig(&off), Ok(()));
    let off = ParamValue::Object(object(vec![("config", s("xpay-handle-pay")), ("val", s("no"))]));
    assert_eq!(check_setconfig(&off), Ok(()));
    let other = ParamValue::Array(vec![s("autoclean"), Json::Bool(true)]);
    assert_eq!(check_setconfig(&other), Ok(()));
    let short = ParamValue::Array(vec![s("xpay-handle-pay")]);
    assert_eq!(check_setconfig(&short), Ok(()));
}

#[test]
fn hook_first_decision() {
    let c = config();
    assert_eq!(start_hook("listpeers", ParamValue::Array(vec![]), &c), HookStart::Continue);
    assert_eq!(
        start_hook("setconfig", ParamValue::String("xpay-handle-pay".to_string()), &c),
        HookStart::Reject(GatewayError::SetconfigBlocked)
    );
    assert_eq!(
        start_hook("setconfig", ParamValue::String("other".to_string()), &c),
        HookStart::Continue
    );
    match start_hook("xpay", ParamValue::Array(vec![s("lno1")]), &c) {
        HookStart::Process(cmd, p) => {
            assert_eq!(cmd, Paycmd::Xpay);
            assert_eq!(p.get("invstring"), Some(&s("lno1")));
        }
        other => panic!("unexpected decision {:?}", other),
    }
}

#[test]
fn message_is_stripped() {
    let mut p = object(vec![("message", s("hi")), ("bolt11", s("lnbc1"))]);
    strip_message(&mut p);
    assert_eq!(p.get("message"), None);
    assert_eq!(p.get("bolt11"), Some(&s("lnbc1")));
}

#[test]
fn pay_converted_to_xpay() {
    let c = config();
    let p = object(vec![
        ("bolt11", s("lnbc1")),
        ("maxfeepercent", n("0.5")),
        ("exemptfee", n("100")),
        ("label", s("x")),
        ("exclude", Json::Array(vec![])),
    ]);
    let conv = pay_params_for_xpay(p, &c.xpayargs);
    assert_eq!(conv.params.get("invstring"), Some(&s("lnbc1")));
    assert_eq!(conv.params.get("bolt11"), None);
    assert_eq!(conv.params.get("label"), None);
    assert_eq!(conv.maxfeepercent, Some(n("0.5")));
    assert_eq!(conv.exemptfee, Some(n("100")));
    assert_eq!(conv.exclude, Some(Json::Array(vec![])));
    assert_eq!(conv.maxfee, None);
    assert_eq!(xpay_maxfee(&conv, 1_000_000), Ok(Some(5000)));
    let mut out = conv.params;
    finish_xpay_params(&mut out, Some(5000), Some("layer1".to_string()));
    assert_eq!(out.get("maxfee"), Some(&n("5000")));
    assert_eq!(out.get("layers"), Some(&Json::Array(vec![s("layer1")])));
}

#[test]
fn xpay_fee_only_when_asked() {
    let c = config();
    let conv = pay_params_for_xpay(object(vec![("bolt11", s("lnbc1"))]), &c.xpayargs);
    assert_eq!(xpay_maxfee(&conv, 1_000_000), Ok(None));
    let conv = pay_params_for_xpay(
        object(vec![("bolt11", s("lnbc1")), ("maxfee", n("9")), ("exemptfee", n("1"))]),
        &c.xpayargs,
    );
    assert_eq!(xpay_maxfee(&conv, 1_000_000), Err(FeeError::Conflict));
}

#[test]
fn excludes_are_sorted() {
    let node = "0279be667ef9dcbbac55a06295ce870b07029bfcdb2dce28d959f2815b16f81798";
    let ex = Json::Array(vec![s("103x1x0/1"), s(node), s("7x8x9/0")]);
    assert_eq!(
        classify_excludes(&ex),
        Ok((vec!["103x1x0/1".to_string(), "7x8x9/0".to_string()], vec![node.to_string()]))
    );
    assert_eq!(classify_excludes(&Json::Array(vec![s("nonsense")])), Err(GatewayError::BadExclude));
    assert_eq!(classify_excludes(&Json::Array(vec![n("5")])), Err(GatewayError::BadExclude));
    assert_eq!(classify_excludes(&s("103x1x0/1")), Err(GatewayError::ExcludeNotArray));
    assert_eq!(classify_excludes(&Json::Array(vec![s("1x2/0")])), Err(GatewayError::BadExclude));
}

#[test]
fn payany_arguments() {
    let p = payany_params(Json::Array(vec![s("lno1"), n("5"), s("hi")])).unwrap();
    assert_eq!(p.get("invstring"), Some(&s("lno1")));
    assert_eq!(p.get("amount_msat"), Some(&n("5")));
    assert_eq!(p.get("message"), Some(&s("hi")));
    assert_eq!(
        payany_params(Json::Array(vec![s("a"), s("b"), s("c"), s("d")])),
        Err(GatewayError::TooManyArguments(Paycmd::Xpay))
    );
    let p = payany_params(Json::Object(vec![("invstring".to_string(), s("x"))])).unwrap();
    assert_eq!(p.get("invstring"), Some(&s("x")));
    assert_eq!(payany_params(Json::Null).unwrap(), Params::new());
}
