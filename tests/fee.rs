use payany::fee::{get_maxfee, FeeError};
use payany::json::Json;

fn num(t: &str) -> Json {
    Json::Number(t.to_string())
}

#[test]
fn fee_percent_above_floor() {
    // 0.5 % of 10,000,000 msat is 50,000 msat
    assert_eq!(get_maxfee(None, Some(&num("0.5")), None, 10_000_000), Ok(50_000));
    // 2 % of 1,000,001 msat, rounded up
    assert_eq!(get_maxfee(None, Some(&num("2")), None, 1_000_001), Ok(20_001));
}

#[test]
fn fee_percent_below_floor() {
    assert_eq!(get_maxfee(None, Some(&num("1")), None, 100_000), Ok(5000));
    assert_eq!(get_maxfee(None, Some(&num("-3")), None, 100_000_000), Ok(5000));
}

#[test]
fn fee_default_one_percent() {
    assert_eq!(get_maxfee(None, None, None, 1_000_000), Ok(10_000));
    assert_eq!(get_maxfee(None, None, None, 1_000_050), Ok(10_001));
    assert_eq!(get_maxfee(None, None, None, 10_000), Ok(5000));
}

#[test]
fn fee_exponent_forms() {
    assert_eq!(get_maxfee(None, Some(&num("1e1")), Some(&num("0")), 1000), Ok(100));
    assert_eq!(get_maxfee(None, Some(&num("1e-7")), Some(&num("0")), 1000), Ok(1));
    assert_eq!(get_maxfee(None, Some(&num("1e300")), None, 1000), Ok(u64::MAX));
    assert_eq!(get_maxfee(None, Some(&num("2.5e-1")), Some(&num("0")), 1_000_000), Ok(2500));
}

#[test]
fn fee_exempt_floor() {
    assert_eq!(get_maxfee(None, Some(&num("1")), Some(&num("100")), 20_000), Ok(200));
    assert_eq!(get_maxfee(None, None, Some(&num("50000")), 20_000), Ok(50_000));
}

#[test]
fn fee_absolute() {
    assert_eq!(get_maxfee(Some(&num("1234")), None, None, 1_000_000_000), Ok(1234));
    assert_eq!(get_maxfee(Some(&num("1.5")), None, None, 1), Err(FeeError::MaxfeeNotAmount));
}

#[test]
fn fee_both_given_is_error() {
    assert_eq!(
        get_maxfee(Some(&num("1000")), Some(&num("1")), None, 1000),
        Err(FeeError::Conflict)
    );
    assert_eq!(
        get_maxfee(Some(&num("1000")), None, Some(&num("1")), 1000),
        Err(FeeError::Conflict)
    );
}

#[test]
fn fee_bad_parameters() {
    assert_eq!(
        get_maxfee(None, Some(&Json::Str("1".to_string())), None, 1000),
        Err(FeeError::PercentNotNumber)
    );
    assert_eq!(
        get_maxfee(None, None, Some(&Json::Bool(true)), 1000),
        Err(FeeError::ExemptfeeNotAmount)
    );
}
