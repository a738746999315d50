use payany::config::{
    args_from_usage, budget_of, check_budget_options, check_option, options_value_to_u64, parse_dns_server, parse_option,
    validate_u64_input, Config, OptionError, OptionValue, OPT_BUDGET_AMOUNT_MSAT, OPT_BUDGET_PER,
    OPT_DNS, OPT_HANDLE_PAY, OPT_STRICT_LNURL,
};
use payany::json::Json;
use payany::offer::DnsServer;
use payany::period::PeriodError;
use payany::version::{at_or_above_version, VersionError};

#[test]
fn u64_option_values() {
    assert_eq!(validate_u64_input(5, "x", 5), Ok(5));
    assert_eq!(validate_u64_input(4, "x", 5), Err(OptionError::TooSmall("x".to_string(), 5)));
    assert_eq!(options_value_to_u64("amt", 10, 0), Ok(10));
    assert_eq!(options_value_to_u64("amt", -1, 0), Err(OptionError::Negative("amt".to_string(), -1)));
    assert_eq!(options_value_to_u64("amt", 3, 4), Err(OptionError::TooSmall("amt".to_string(), 4)));
}

#[test]
fn option_values_are_typed() {
    let amt = OPT_BUDGET_AMOUNT_MSAT;
    assert_eq!(parse_option(amt, &Json::Number("100000".to_string())), Ok(OptionValue::Integer(100000)));
    assert_eq!(parse_option(amt, &Json::Str("-5".to_string())), Ok(OptionValue::Integer(-5)));
    assert_eq!(parse_option(amt, &Json::Str("+7".to_string())), Ok(OptionValue::Integer(7)));
    assert_eq!(parse_option(amt, &Json::Str("+".to_string())), Err(OptionError::NotInteger(amt.to_string())));
    assert_eq!(
        parse_option(amt, &Json::Str("-9223372036854775808".to_string())),
        Ok(OptionValue::Integer(i64::MIN))
    );
    assert_eq!(parse_option(amt, &Json::Bool(true)), Err(OptionError::NotInteger(amt.to_string())));
    assert_eq!(parse_option(OPT_HANDLE_PAY, &Json::Str("true".to_string())), Ok(OptionValue::Boolean(true)));
    assert_eq!(parse_option(OPT_STRICT_LNURL, &Json::Bool(false)), Ok(OptionValue::Boolean(false)));
    assert_eq!(
        parse_option(OPT_STRICT_LNURL, &Json::Str("yes".to_string())),
        Err(OptionError::NotBoolean(OPT_STRICT_LNURL.to_string()))
    );
    assert_eq!(parse_option(OPT_BUDGET_PER, &Json::Str("1d".to_string())), Ok(OptionValue::Text("1d".to_string())));
    assert_eq!(
        parse_option(OPT_BUDGET_PER, &Json::Number("1".to_string())),
        Err(OptionError::NotString(OPT_BUDGET_PER.to_string()))
    );
}

#[test]
fn options_update_config() {
    let mut c = Config::new();
    assert_eq!(check_option(&mut c, OPT_BUDGET_AMOUNT_MSAT, &OptionValue::Integer(100000)), Ok(()));
    assert_eq!(c.budget_amount_msat, Some(100000));
    assert_eq!(check_option(&mut c, OPT_BUDGET_PER, &OptionValue::Text("3 days".to_string())), Ok(()));
    assert_eq!(c.budget_per, Some(259200));
    assert_eq!(
        check_option(&mut c, OPT_BUDGET_PER, &OptionValue::Text("soon".to_string())),
        Err(OptionError::BadPeriod(PeriodError::InvalidFormat))
    );
    assert_eq!(c.budget_per, Some(259200));
    assert_eq!(check_option(&mut c, OPT_HANDLE_PAY, &OptionValue::Boolean(true)), Ok(()));
    assert!(!c.xpay_handle_pay);
    c.xpayargs = vec!["invstring".to_string()];
    assert_eq!(check_option(&mut c, OPT_HANDLE_PAY, &OptionValue::Boolean(true)), Ok(()));
    assert!(c.xpay_handle_pay);
    assert_eq!(check_option(&mut c, OPT_STRICT_LNURL, &OptionValue::Boolean(true)), Ok(()));
    assert!(c.strict_lnurl);
    assert_eq!(check_option(&mut c, OPT_DNS, &OptionValue::Text("Quad9".to_string())), Ok(()));
    assert_eq!(c.dns_server, DnsServer::Quad9);
    assert_eq!(
        check_option(&mut c, OPT_DNS, &OptionValue::Text("opendns".to_string())),
        Err(OptionError::BadDnsServer("opendns".to_string()))
    );
    assert_eq!(
        check_option(&mut c, "payany-nothing", &OptionValue::Boolean(true)),
        Err(OptionError::Unknown("payany-nothing".to_string()))
    );
    assert_eq!(
        check_option(&mut c, OPT_BUDGET_AMOUNT_MSAT, &OptionValue::Integer(-1)),
        Err(OptionError::Negative(OPT_BUDGET_AMOUNT_MSAT.to_string(), -1))
    );
    assert_eq!(
        check_option(&mut c, OPT_STRICT_LNURL, &OptionValue::Text("x".to_string())),
        Err(OptionError::WrongType(OPT_STRICT_LNURL.to_string()))
    );
}

#[test]
fn budget_needs_both_options() {
    let mut c = Config::new();
    assert!(budget_of(&c).is_none());
    assert_eq!(check_budget_options(&c), Ok(()));
    c.budget_amount_msat = Some(5);
    assert!(budget_of(&c).is_none());
    assert_eq!(check_budget_options(&c), Err(OptionError::IncompleteBudget));
    c.budget_amount_msat = None;
    c.budget_per = Some(60);
    assert!(budget_of(&c).is_none());
    assert_eq!(check_budget_options(&c), Err(OptionError::IncompleteBudget));
    c.budget_amount_msat = Some(5);
    let b = budget_of(&c).unwrap();
    assert_eq!((b.amount_msat, b.period_seconds), (5, 60));
    assert_eq!(check_budget_options(&c), Ok(()));
}

#[test]
fn dns_server_names() {
    assert_eq!(parse_dns_server("Google"), Some(DnsServer::Google));
    assert_eq!(parse_dns_server("cloudflare"), Some(DnsServer::Cloudflare));
    assert_eq!(parse_dns_server("SYSTEM"), Some(DnsServer::System));
    assert_eq!(parse_dns_server("other"), None);
}

#[test]
fn usage_lines_give_argument_names() {
    assert_eq!(
        args_from_usage("pay bolt11 [amount_msat] [label] [riskfactor]", "pay"),
        vec!["bolt11", "amount_msat", "label", "riskfactor", "message"]
    );
    assert_eq!(args_from_usage("xpay invstring", "xpay"), vec!["invstring", "message"]);
}

#[test]
fn versions_compare() {
    assert_eq!(at_or_above_version("v25.02", "25.02"), Ok(true));
    assert_eq!(at_or_above_version("v25.05.1-modded", "25.02"), Ok(true));
    assert_eq!(at_or_above_version("v24.11.2", "25.02"), Ok(false));
    assert_eq!(at_or_above_version("v25.02", "25.02.1"), Ok(false));
    assert_eq!(at_or_above_version("25.02", "25.02"), Err(VersionError::NoVersionMarker));
    assert_eq!(at_or_above_version("v25", "25.02"), Err(VersionError::Malformed("v25".to_string())));
    assert_eq!(at_or_above_version("v1.2.3.4", "1"), Err(VersionError::Malformed("v1.2.3.4".to_string())));
    assert_eq!(at_or_above_version("v25.02", "25.x"), Err(VersionError::BadNumber));
    assert_eq!(at_or_above_version("v99999999999.1", "1.1"), Err(VersionError::BadNumber));
}
