use payany::period::{parse_time_period, PeriodError, TimeUnit};

#[test]
fn test_time_parse() {
    let result = parse_time_period("1sec").unwrap();
    assert_eq!(result, 1);
    let result = parse_time_period("1 s").unwrap();
    assert_eq!(result, 1);
    let result = parse_time_period("3days").unwrap();
    assert_eq!(result, 259200);
    let result = parse_time_period("5h").unwrap();
    assert_eq!(result, 18000);
    let result = parse_time_period("2m").unwrap();
    assert_eq!(result, 120);
    let result = parse_time_period("5w").unwrap();
    assert_eq!(result, 3024000);
    let result = parse_time_period("3    hours").unwrap();
    assert_eq!(result, 10800);
}

#[test]
fn period_examples() {
    assert_eq!(parse_time_period("3 days"), Ok(259200));
    assert_eq!(parse_time_period("5h"), Ok(18000));
    assert_eq!(parse_time_period("2m"), Ok(120));
    assert_eq!(parse_time_period("1sec"), Ok(1));
}

#[test]
fn period_units_ignore_case() {
    assert_eq!(parse_time_period("1SEC"), Ok(1));
    assert_eq!(parse_time_period("2 Minutes"), Ok(120));
    assert_eq!(parse_time_period("1 Hour"), Ok(3600));
    assert_eq!(parse_time_period("2 WEEKS"), Ok(1209600));
    assert_eq!(parse_time_period("4 D"), Ok(345600));
    assert_eq!(parse_time_period("10 mins"), Ok(600));
}

#[test]
fn period_takes_first_number_with_unit() {
    assert_eq!(parse_time_period("every 12 34h"), Ok(34 * 3600));
    assert_eq!(parse_time_period("  7\tdays later"), Ok(7 * 86400));
}

#[test]
fn period_errors() {
    assert_eq!(parse_time_period("days"), Err(PeriodError::InvalidFormat));
    assert_eq!(parse_time_period("42"), Err(PeriodError::InvalidFormat));
    assert_eq!(parse_time_period(""), Err(PeriodError::InvalidFormat));
    assert_eq!(
        parse_time_period("3 fortnights"),
        Err(PeriodError::UnsupportedUnit("fortnights".to_string()))
    );
    assert_eq!(parse_time_period("99999999999999999999s"), Err(PeriodError::NumberTooLarge));
    assert_eq!(parse_time_period("18446744073709551615 minutes"), Err(PeriodError::Overflow));
    assert_eq!(parse_time_period("18446744073709551615 s"), Ok(u64::MAX));
}

#[test]
fn time_unit_names() {
    assert_eq!(TimeUnit::from_name("secs"), Some(TimeUnit::Second));
    assert_eq!(TimeUnit::from_name("min"), Some(TimeUnit::Minute));
    assert_eq!(TimeUnit::from_name("h"), Some(TimeUnit::Hour));
    assert_eq!(TimeUnit::from_name("day"), Some(TimeUnit::Day));
    assert_eq!(TimeUnit::from_name("w"), Some(TimeUnit::Week));
    assert_eq!(TimeUnit::from_name("Hours"), None);
    assert_eq!(TimeUnit::Week.seconds(), 604800);
    let parsed: Result<TimeUnit, String> = "mins".parse();
    assert_eq!(parsed, Ok(TimeUnit::Minute));
    let parsed: Result<TimeUnit, String> = "yr".parse();
    assert_eq!(parsed, Err("Unsupported time unit: yr".to_string()));
}
