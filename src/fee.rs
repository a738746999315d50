//! The fee bound that a payment may spend, from `maxfee` or
//! `maxfeepercent`/`exemptfee`.
use vstd::prelude::*;
use crate::json::Json;
use crate::resolve::{as_u64, json_u64};
use crate::text::{all_digits, chars_of, digits_value, find_char, first_index, is_digit, parse_u64, suffix};

verus! {

/// Default fee bound in percent of the amount when none is given.
pub const DEFAULT_FEE_PERCENT: u64 = 1;

/// Default floor of the fee bound, in msat.
pub const DEFAULT_EXEMPT_FEE_MSAT: u64 = 5000;

/// Exponents beyond this magnitude all give the same fee (a cap or the smallest
/// non-zero fee), so exponent digits are read up to it.
const EXPONENT_CLAMP: u128 = 0x40000000000000000;

/// `10^n`.
pub open spec fn pow10(n: nat) -> nat
    decreases n,
{
    if n == 0 {
        1
    } else {
        10 * pow10((n - 1) as nat)
    }
}

/// `x / y` rounded up, for `y > 0`.
pub open spec fn ceil_div(x: nat, y: nat) -> nat {
    if y == 0 {
        0
    } else {
        x / y + if x % y == 0 {
            0nat
        } else {
            1nat
        }
    }
}

/// `x`, or the largest `u64` where `x` is above it.
pub open spec fn cap_u64(x: nat) -> nat {
    if x > u64::MAX {
        u64::MAX as nat
    } else {
        x
    }
}

/// `ceil(m * 10^k / 100 * a)`, capped to a `u64`: the fee for `m * 10^k` percent of
/// `a` msat.
pub open spec fn scaled_percent_fee(m: nat, k: int, a: nat) -> nat {
    cap_u64(
        if k >= 0 {
            ceil_div(m * pow10(k as nat) * a, 100)
        } else {
            ceil_div(m * a, 100 * pow10((-k) as nat))
        },
    )
}

/// The text split at the first `c`: before it, and after it where it occurs.
pub open spec fn split_first(s: Seq<char>, c: char) -> (Seq<char>, Option<Seq<char>>) {
    match first_index(s, c) {
        Some(i) => (s.subrange(0, i), Some(s.subrange(i + 1, s.len() as int))),
        None => (s, None),
    }
}

/// The text without a leading sign character `c`, and whether it had one.
pub open spec fn strip_sign(s: Seq<char>, c: char) -> (bool, Seq<char>) {
    if s.len() > 0 && s[0] == c {
        (true, s.subrange(1, s.len() as int))
    } else {
        (false, s)
    }
}

/// The value of a JSON number's text as sign, mantissa and decimal exponent
/// (`-12.5e3` is `(true, 125, 2)`), where the mantissa's digits fit a `u64`.
pub open spec fn number_value(t: Seq<char>) -> Option<(bool, nat, int)> {
    let (neg, body) = strip_sign(t, '-');
    let (mant, exp) = split_first(body, 'e');
    let (int_part, frac) = split_first(mant, '.');
    let frac_digits = match frac {
        Some(f) => f,
        None => Seq::empty(),
    };
    let (exp_neg, exp_digits) = match exp {
        Some(e) => if e.len() > 0 && e[0] == '+' {
            (false, e.subrange(1, e.len() as int))
        } else {
            strip_sign(e, '-')
        },
        None => (false, seq!['0']),
    };
    if all_digits(int_part) && (frac is Some ==> all_digits(frac_digits)) && all_digits(exp_digits)
        && digits_value(int_part + frac_digits) <= u64::MAX {
        let e = digits_value(exp_digits) as int;
        Some(
            (
                neg,
                digits_value(int_part + frac_digits),
                (if exp_neg {
                    -e
                } else {
                    e
                }) - frac_digits.len(),
            ),
        )
    } else {
        None
    }
}

/// The fee for a percentage written as the JSON number text `t`, on `a` msat;
/// a negative percentage gives no fee.
pub open spec fn percent_fee(t: Seq<char>, a: nat) -> Option<nat> {
    match number_value(t) {
        None => None,
        Some((neg, m, k)) => Some(
            if neg {
                0
            } else {
                scaled_percent_fee(m, k, a)
            },
        ),
    }
}

proof fn lemma_pow10_mono(a: nat, b: nat)
    requires
        a <= b,
    ensures
        pow10(a) <= pow10(b),
        pow10(a) >= 1,
    decreases b,
{
    if b > a {
        lemma_pow10_mono(a, (b - 1) as nat);
    } else if a > 0 {
        lemma_pow10_mono((a - 1) as nat, (a - 1) as nat);
    }
}

/// Reads a run of digits as a number, stopping at `EXPONENT_CLAMP`.
fn parse_clamped(s: &Vec<char>) -> (r: Option<u128>)
    ensures
        match r {
            Some(v) => all_digits(s@) && v == if digits_value(s@) > EXPONENT_CLAMP {
                EXPONENT_CLAMP as nat
            } else {
                digits_value(s@)
            },
            None => !all_digits(s@),
        },
{
    if s.len() == 0 {
        return None;
    }
    let mut v: u128 = 0;
    let mut i: usize = 0;
    while i < s.len()
        invariant
            i <= s.len(),
            forall|j: int| 0 <= j < i ==> is_digit(#[trigger] s@[j]),
            v == if digits_value(s@.subrange(0, i as int)) > EXPONENT_CLAMP {
                EXPONENT_CLAMP as nat
            } else {
                digits_value(s@.subrange(0, i as int))
            },
        decreases s.len() - i,
    {
        let ghost pre = s@.subrange(0, i as int + 1);
        assert(pre.drop_last() =~= s@.subrange(0, i as int));
        let c = s[i];
        if !('0' <= c && c <= '9') {
            return None;
        }
        let d = (c as u32 - 48) as u128;
        let next = v * 10 + d;
        v = if next > EXPONENT_CLAMP { EXPONENT_CLAMP } else { next };
        i = i + 1;
    }
    assert(s@.subrange(0, s.len() as int) =~= s@);
    Some(v)
}

/// The first `n` characters of `s`.
fn take(s: &Vec<char>, n: usize) -> (r: Vec<char>)
    requires
        n <= s.len(),
    ensures
        r@ == s@.subrange(0, n as int),
{
    let mut r: Vec<char> = Vec::new();
    let mut i: usize = 0;
    while i < n
        invariant
            n <= s.len(),
            i <= n,
            r@ == s@.subrange(0, i as int),
        decreases n - i,
    {
        r.push(s[i]);
        i = i + 1;
        assert(r@ =~= s@.subrange(0, i as int));
    }
    r
}

/// `s` split at the first `c`.
fn split_at_first(s: &Vec<char>, c: char) -> (r: (Vec<char>, Option<Vec<char>>))
    ensures
        r.0@ == split_first(s@, c).0,
        match r.1 {
            Some(x) => split_first(s@, c).1 == Some(x@),
            None => split_first(s@, c).1 is None,
        },
{
    match find_char(s, c) {
        Some(i) => {
            assert(first_index(s@, c) == Some(i as int));
            (take(s, i), Some(suffix(s, i + 1)))
        },
        None => {
            assert(first_index(s@, c) is None);
            (take(s, s.len()), None)
        },
    }
}

/// The sign and digits of an exponent text (`"0"` where there is none).
fn exponent_part(exp: &Option<Vec<char>>) -> (r: (bool, Vec<char>))
    ensures
        r.0 == match *exp {
            Some(e) => if e@.len() > 0 && e@[0] == '+' {
                false
            } else {
                strip_sign(e@, '-').0
            },
            None => false,
        },
        r.1@ == match *exp {
            Some(e) => if e@.len() > 0 && e@[0] == '+' {
                e@.subrange(1, e@.len() as int)
            } else {
                strip_sign(e@, '-').1
            },
            None => seq!['0'],
        },
{
    match exp {
        Some(e) => if e.len() > 0 && e[0] == '+' {
            (false, suffix(e, 1))
        } else if e.len() > 0 && e[0] == '-' {
            (true, suffix(e, 1))
        } else {
            (false, take(e, e.len()))
        },
        None => {
            let r = (false, vec!['0']);
            assert(r.1@ =~= seq!['0']);
            r
        },
    }
}

/// `a` followed by `b`.
fn join(a: &Vec<char>, b: &Vec<char>) -> (r: Vec<char>)
    ensures
        r@ == a@ + b@,
{
    let mut r = take(a, a.len());
    let mut j: usize = 0;
    while j < b.len()
        invariant
            j <= b.len(),
            r@ == a@ + b@.subrange(0, j as int),
        decreases b.len() - j,
    {
        r.push(b[j]);
        j = j + 1;
        assert(r@ =~= a@ + b@.subrange(0, j as int));
    }
    assert(b@.subrange(0, b.len() as int) =~= b@);
    r
}

proof fn lemma_all_digits_join(x: Seq<char>, y: Seq<char>)
    requires
        x.len() > 0,
    ensures
        all_digits(x + y) <==> (all_digits(x) && (y.len() > 0 ==> all_digits(y))),
{
    let xy = x + y;
    if all_digits(xy) {
        assert forall|i: int| 0 <= i < x.len() implies is_digit(#[trigger] x[i]) by {
            assert(xy[i] == x[i]);
        }
        assert forall|i: int| 0 <= i < y.len() implies is_digit(#[trigger] y[i]) by {
            assert(xy[x.len() + i] == y[i]);
        }
    }
    if all_digits(x) && (y.len() > 0 ==> all_digits(y)) {
        assert forall|i: int| 0 <= i < xy.len() implies is_digit(#[trigger] xy[i]) by {
            if i < x.len() {
                assert(xy[i] == x[i]);
            } else {
                assert(xy[i] == y[i - x.len()]);
            }
        }
    }
}

/// Sign, mantissa and exponent of a JSON number's text, with the exponent read up
/// to a magnitude past which every fee is the same.
fn number_parts(t: &Vec<char>) -> (r: Option<(bool, u64, i128)>)
    ensures
        match number_value(t@) {
            None => r is None,
            Some((neg, m, k)) => (r matches Some((n2, m2, k2)) && n2 == neg && m2 == m && (k2 == k
                || (k > 38 && k2 > 38) || (k < -36 && k2 < -36))),
        },
{
    let (neg, body) = if t.len() > 0 && t[0] == '-' {
        (true, suffix(t, 1))
    } else {
        (false, take(t, t.len()))
    };
    assert(strip_sign(t@, '-') == (neg, body@));
    let (mant, exp) = split_at_first(&body, 'e');
    let (int_part, frac) = split_at_first(&mant, '.');
    let frac_digits = match &frac {
        Some(f) => take(f, f.len()),
        None => Vec::new(),
    };
    let (exp_neg, exp_digits) = exponent_part(&exp);
    proof {
        let (smant, sexp) = split_first(body@, 'e');
        assert(smant == mant@);
        let (sint, sfrac) = split_first(mant@, '.');
        assert(sint == int_part@);
        let sfd = match sfrac {
            Some(f) => f,
            None => Seq::<char>::empty(),
        };
        assert(sfd =~= frac_digits@);
        assert(sfrac is Some <==> frac is Some);
        let (sen, sed) = match sexp {
            Some(e) => if e.len() > 0 && e[0] == '+' {
                (false, e.subrange(1, e.len() as int))
            } else {
                strip_sign(e, '-')
            },
            None => (false, seq!['0']),
        };
        assert(sen == exp_neg);
        assert(sed =~= exp_digits@);
    }
    if int_part.len() == 0 {
        return None;
    }
    if frac.is_some() && frac_digits.len() == 0 {
        return None;
    }
    let all = join(&int_part, &frac_digits);
    proof {
        lemma_all_digits_join(int_part@, frac_digits@);
    }
    let m = match parse_u64(&all) {
        Some(m) => m,
        None => return None,
    };
    let e = match parse_clamped(&exp_digits) {
        Some(e) => e,
        None => return None,
    };
    let signed_e: i128 = if exp_neg { -(e as i128) } else { e as i128 };
    let k: i128 = signed_e - frac_digits.len() as i128;
    Some((neg, m, k))
}

/// `10^n` for `n <= 38`.
fn pow10_u128(n: u32) -> (r: u128)
    requires
        n <= 38,
    ensures
        r == pow10(n as nat),
{
    proof {
        reveal_with_fuel(pow10, 39);
        lemma_pow10_mono(n as nat, 38);
    }
    assert(pow10(38) == 100000000000000000000000000000000000000nat);
    let mut p: u128 = 1;
    let mut i: u32 = 0;
    while i < n
        invariant
            i <= n <= 38,
            p == pow10(i as nat),
            pow10(38) == 100000000000000000000000000000000000000nat,
        decreases n - i,
    {
        proof {
            lemma_pow10_mono((i + 1) as nat, 38);
        }
        p = p * 10;
        i = i + 1;
    }
    p
}

/// The fee for `m * 10^k` percent of `a` msat, capped to a `u64`.
fn scaled_fee(m: u64, k: i128, a: u64) -> (r: u64)
    ensures
        r == scaled_percent_fee(m as nat, k as int, a as nat),
{
    assert((m as int) * (a as int) <= 0xfffffffffffffffe0000000000000001) by (nonlinear_arith)
        requires m <= 0xffffffffffffffffu64, a <= 0xffffffffffffffffu64;
    let prod: u128 = m as u128 * a as u128;
    assert(prod == m * a);
    assert(prod <= 0xfffffffffffffffe0000000000000001) by (nonlinear_arith)
        requires prod == m * a, m <= 0xffffffffffffffffu64, a <= 0xffffffffffffffffu64;
    if prod == 0 {
        assert((m as nat) * pow10((k as int) as nat) * (a as nat) == 0) by (nonlinear_arith)
            requires m * a == 0;
        return 0;
    }
    if k > 38 {
        proof {
            let kk = k as nat;
            lemma_pow10_mono(39, kk);
            reveal_with_fuel(pow10, 40);
            assert(pow10(39) == 1000000000000000000000000000000000000000nat);
            let x = (m as nat) * pow10(kk) * (a as nat);
            assert(x >= pow10(kk)) by (nonlinear_arith)
                requires x == (m as nat) * pow10(kk) * (a as nat), m * a > 0, pow10(kk) >= 1;
            assert(x / 100 >= 10000000000000000000000000000000000000nat) by (nonlinear_arith)
                requires x >= 1000000000000000000000000000000000000000nat;
        }
        return u64::MAX;
    }
    if k >= 0 {
        let p = pow10_u128(k as u32);
        let q: u128 = match prod.checked_mul(p) {
            None => {
                proof {
                    let x = (m as nat) * pow10(k as nat) * (a as nat);
                    assert(x == prod * p) by (nonlinear_arith)
                        requires x == (m as nat) * pow10(k as nat) * (a as nat), prod == m * a, p == pow10(k as nat);
                    assert(x / 100 > u64::MAX) by (nonlinear_arith)
                        requires x > u128::MAX;
                }
                return u64::MAX;
            },
            Some(x) => {
                proof {
                    assert(x == (m as nat) * pow10(k as nat) * (a as nat)) by (nonlinear_arith)
                        requires x == prod * p, prod == m * a, p == pow10(k as nat);
                }
                x / 100 + if x % 100 == 0 { 0 } else { 1 }
            },
        };
        if q > u64::MAX as u128 { u64::MAX } else { q as u64 }
    } else if k >= -36 {
        let d = (-k) as u32;
        let p = pow10_u128(d);
        proof {
            lemma_pow10_mono(d as nat, 36);
            reveal_with_fuel(pow10, 37);
            assert(pow10(36) == 1000000000000000000000000000000000000nat);
        }
        let den: u128 = 100 * p;
        let q: u128 = prod / den + if prod % den == 0 { 0 } else { 1 };
        if q > u64::MAX as u128 { u64::MAX } else { q as u64 }
    } else {
        proof {
            let dd = (-k) as nat;
            lemma_pow10_mono(37, dd);
            reveal_with_fuel(pow10, 38);
            assert(pow10(37) == 10000000000000000000000000000000000000nat);
            let den = 100 * pow10(dd);
            let pn = prod as nat;
            assert(pn < den);
            assert(pn / den == 0) by (nonlinear_arith)
                requires pn < den, den > 0;
            assert(pn % den == pn) by (nonlinear_arith)
                requires pn < den, den > 0;
        }
        1
    }
}

/// Why no fee bound could be worked out.
#[derive(Debug, PartialEq, Eq)]
pub enum FeeError {
    /// `maxfee` was given together with `maxfeepercent` or `exemptfee`.
    Conflict,
    /// `maxfee` is not an msat amount.
    MaxfeeNotAmount,
    /// `maxfeepercent` is not a number (or its digits do not fit a `u64`).
    PercentNotNumber,
    /// `exemptfee` is not an msat amount.
    ExemptfeeNotAmount,
}

/// The fee bound for an invoice of `a` msat, from the optional parameters.
pub open spec fn max_fee_spec(
    maxfee: Option<Json>,
    maxfeepercent: Option<Json>,
    exemptfee: Option<Json>,
    a: nat,
) -> Result<nat, FeeError> {
    if maxfee is Some && (maxfeepercent is Some || exemptfee is Some) {
        Err(FeeError::Conflict)
    } else if maxfee is Some {
        match json_u64(maxfee->0) {
            Some(v) => Ok(v as nat),
            None => Err(FeeError::MaxfeeNotAmount),
        }
    } else {
        let pct = match maxfeepercent {
            None => Some(ceil_div(a, 100)),
            Some(Json::Number(t)) => percent_fee(t@, a),
            Some(_) => None,
        };
        let exempt = match exemptfee {
            None => Some(DEFAULT_EXEMPT_FEE_MSAT),
            Some(e) => json_u64(e),
        };
        match (pct, exempt) {
            (None, _) => Err(FeeError::PercentNotNumber),
            (_, None) => Err(FeeError::ExemptfeeNotAmount),
            (Some(p), Some(e)) => Ok(if p >= e { p } else { e as nat }),
        }
    }
}

/// The fee bound a payment of `invoice_amount_msat` may spend: `maxfee` as it is,
/// or else `max(exemptfee, ceil(maxfeepercent / 100 * amount))`, where the percentage
/// defaults to 1 and the floor to 5000 msat.
pub fn get_maxfee(
    maxfee: Option<&Json>,
    maxfeepercent: Option<&Json>,
    exemptfee: Option<&Json>,
    invoice_amount_msat: u64,
) -> (r: Result<u64, FeeError>)
    ensures
        match max_fee_spec(
            match maxfee { Some(v) => Some(*v), None => None },
            match maxfeepercent { Some(v) => Some(*v), None => None },
            match exemptfee { Some(v) => Some(*v), None => None },
            invoice_amount_msat as nat,
        ) {
            Ok(v) => r == Ok::<u64, FeeError>(v as u64),
            Err(e) => r == Err::<u64, FeeError>(e),
        },
{
    if maxfee.is_some() && (maxfeepercent.is_some() || exemptfee.is_some()) {
        return Err(FeeError::Conflict);
    }
    if let Some(v) = maxfee {
        return match as_u64(v) {
            Some(n) => Ok(n),
            None => Err(FeeError::MaxfeeNotAmount),
        };
    }
    let pct: u64 = match maxfeepercent {
        None => invoice_amount_msat / 100 + if invoice_amount_msat % 100 == 0 { 0 } else { 1 },
        Some(Json::Number(t)) => {
            match number_parts(&chars_of(t.as_str())) {
                None => return Err(FeeError::PercentNotNumber),
                Some((neg, m, k)) => {
                    if neg {
                        0
                    } else {
                        let f = scaled_fee(m, k, invoice_amount_msat);
                        proof {
                            let (_, _, k0) = number_value(t@)->0;
                            if k0 != k {
                                lemma_saturated_fee_agrees(m as nat, k0, k as int, invoice_amount_msat as nat);
                            }
                        }
                        f
                    }
                },
            }
        },
        Some(_) => return Err(FeeError::PercentNotNumber),
    };
    let exempt: u64 = match exemptfee {
        None => DEFAULT_EXEMPT_FEE_MSAT,
        Some(e) => match as_u64(e) {
            Some(n) => n,
            None => return Err(FeeError::ExemptfeeNotAmount),
        },
    };
    Ok(if pct >= exempt { pct } else { exempt })
}

/// Beyond the exponents that `number_parts` keeps apart, the fee no longer changes.
proof fn lemma_saturated_fee_agrees(m: nat, k1: int, k2: int, a: nat)
    requires
        m <= u64::MAX,
        a <= u64::MAX,
        (k1 > 38 && k2 > 38) || (k1 < -36 && k2 < -36),
    ensures
        scaled_percent_fee(m, k1, a) == scaled_percent_fee(m, k2, a),
{
    lemma_fee_extreme(m, k1, a);
    lemma_fee_extreme(m, k2, a);
}

proof fn lemma_fee_extreme(m: nat, k: int, a: nat)
    requires
        m <= u64::MAX,
        a <= u64::MAX,
        k > 38 || k < -36,
    ensures
        k > 38 ==> scaled_percent_fee(m, k, a) == (if m * a == 0 { 0nat } else { u64::MAX as nat }),
        k < -36 ==> scaled_percent_fee(m, k, a) == (if m * a == 0 { 0nat } else { 1nat }),
{
    assert(m * a <= 0xfffffffffffffffe0000000000000001) by (nonlinear_arith)
        requires m <= 0xffffffffffffffffu64, a <= 0xffffffffffffffffu64;
    if k > 38 {
        let kk = k as nat;
        lemma_pow10_mono(39, kk);
        reveal_with_fuel(pow10, 40);
        assert(pow10(39) == 1000000000000000000000000000000000000000nat);
        let x = m * pow10(kk) * a;
        if m * a == 0 {
            assert(x == 0) by (nonlinear_arith)
                requires x == m * pow10(kk) * a, m * a == 0;
        } else {
            assert(x >= pow10(kk)) by (nonlinear_arith)
                requires x == m * pow10(kk) * a, m * a > 0, pow10(kk) >= 1;
            assert(x / 100 >= 10000000000000000000000000000000000000nat) by (nonlinear_arith)
                requires x >= 1000000000000000000000000000000000000000nat;
        }
    } else {
        let dd = (-k) as nat;
        lemma_pow10_mono(37, dd);
        reveal_with_fuel(pow10, 38);
        assert(pow10(37) == 10000000000000000000000000000000000000nat);
        let den = 100 * pow10(dd);
        let prod = m * a;
        assert(prod < den);
        assert(prod / den == 0) by (nonlinear_arith)
            requires prod < den, prod >= 0, den > 0;
        assert(prod % den == prod) by (nonlinear_arith)
            requires prod < den, prod >= 0, den > 0;
    }
}

/// With only a percentage `p = m * 10^k` given (the exact value of its JSON text),
/// the bound [`get_maxfee`] returns for an invoice of `a` msat is the larger of the
/// 5000 msat floor and `ceil(p / 100 * a)`, the ceiling taken over the exact
/// rational and capped to a `u64` (no fee for a negative percentage). The mantissa's
/// digits must fit a `u64`, as those of every number JSON encoders print do.
pub proof fn percent_bound_has_floor(pct: Json, a: u64)
    requires
        pct is Number,
        number_value(pct->Number_0@) is Some,
    ensures
        ({
            let (neg, m, k) = number_value(pct->Number_0@)->0;
            let f = if neg {
                0nat
            } else {
                scaled_percent_fee(m, k, a as nat)
            };
            max_fee_spec(None, Some(pct), None, a as nat) == Ok::<nat, FeeError>(
                if f >= 5000 {
                    f
                } else {
                    5000nat
                },
            )
        }),
{
}

/// With no fee parameter at all, the bound is that of a 1 percent fee with the
/// 5000 msat floor.
pub proof fn default_bound_is_one_percent(a: u64)
    ensures
        ({
            let f = scaled_percent_fee(1, 0, a as nat);
            max_fee_spec(None, None, None, a as nat) == Ok::<nat, FeeError>(
                if f >= 5000 {
                    f
                } else {
                    5000nat
                },
            )
        }),
{
    assert(pow10(0) == 1);
    assert(1 * pow10(0) * (a as nat) == a as nat) by (nonlinear_arith)
        requires pow10(0) == 1;
    let an = a as nat;
    assert(an / 100 + 1 <= u64::MAX) by (nonlinear_arith)
        requires an <= 0xffffffffffffffffu64;
    assert(ceil_div(an, 100) <= u64::MAX);
}

/// Giving `maxfee` together with `maxfeepercent` is always an error.
pub proof fn maxfee_excludes_percent(maxfee: Json, maxfeepercent: Json, exemptfee: Option<Json>, a: nat)
    ensures
        max_fee_spec(Some(maxfee), Some(maxfeepercent), exemptfee, a) == Err::<nat, FeeError>(
            FeeError::Conflict,
        ),
{
}

} // verus!
