//! Durations written as `<number><unit>`, such as `"3 days"` or `"5h"`.
use vstd::prelude::*;
use crate::text::{
    all_digits, chars_of, decimal, digit_char, digit_value, digits_value, is_digit, lower_chars,
    lower_seq, parse_u64, string_of,
};

verus! {

/// A unit of time that a budget period can be written in.
#[derive(Debug, PartialEq, Eq, Structural, Clone, Copy)]
pub enum TimeUnit {
    Second,
    Minute,
    Hour,
    Day,
    Week,
}

/// The unit a (lower-case) name stands for.
pub open spec fn unit_named(s: Seq<char>) -> Option<TimeUnit> {
    if s == "second"@ || s == "seconds"@ || s == "sec"@ || s == "secs"@ || s == "s"@ {
        Some(TimeUnit::Second)
    } else if s == "minute"@ || s == "minutes"@ || s == "min"@ || s == "mins"@ || s == "m"@ {
        Some(TimeUnit::Minute)
    } else if s == "hour"@ || s == "hours"@ || s == "h"@ {
        Some(TimeUnit::Hour)
    } else if s == "day"@ || s == "days"@ || s == "d"@ {
        Some(TimeUnit::Day)
    } else if s == "week"@ || s == "weeks"@ || s == "w"@ {
        Some(TimeUnit::Week)
    } else {
        None
    }
}

/// Seconds in one unit.
pub open spec fn unit_seconds(u: TimeUnit) -> nat {
    match u {
        TimeUnit::Second => 1,
        TimeUnit::Minute => 60,
        TimeUnit::Hour => 3600,
        TimeUnit::Day => 86400,
        TimeUnit::Week => 604800,
    }
}

fn eq_text(v: &Vec<char>, lit: &str) -> (r: bool)
    ensures
        r == (v@ == lit@),
{
    let n = lit.unicode_len();
    if n != v.len() {
        return false;
    }
    let mut i: usize = 0;
    while i < n
        invariant
            n == lit@.len(),
            n == v@.len(),
            i <= n,
            forall|j: int| 0 <= j < i ==> v@[j] == lit@[j],
        decreases n - i,
    {
        if v[i] != lit.get_char(i) {
            return false;
        }
        i = i + 1;
    }
    assert(v@ =~= lit@);
    true
}

impl TimeUnit {
    /// The unit a lower-case name (`"s"`, `"min"`, `"hours"`, `"d"`, `"week"`, ...) stands for.
    pub fn from_name(s: &str) -> (r: Option<TimeUnit>)
        ensures
            r == unit_named(s@),
    {
        let v = chars_of(s);
        if eq_text(&v, "second") || eq_text(&v, "seconds") || eq_text(&v, "sec") || eq_text(&v, "secs")
            || eq_text(&v, "s") {
            Some(TimeUnit::Second)
        } else if eq_text(&v, "minute") || eq_text(&v, "minutes") || eq_text(&v, "min") || eq_text(
            &v,
            "mins",
        ) || eq_text(&v, "m") {
            Some(TimeUnit::Minute)
        } else if eq_text(&v, "hour") || eq_text(&v, "hours") || eq_text(&v, "h") {
            Some(TimeUnit::Hour)
        } else if eq_text(&v, "day") || eq_text(&v, "days") || eq_text(&v, "d") {
            Some(TimeUnit::Day)
        } else if eq_text(&v, "week") || eq_text(&v, "weeks") || eq_text(&v, "w") {
            Some(TimeUnit::Week)
        } else {
            None
        }
    }

    /// Seconds in one unit.
    pub fn seconds(&self) -> (r: u64)
        ensures
            r == unit_seconds(*self),
    {
        match self {
            TimeUnit::Second => 1,
            TimeUnit::Minute => 60,
            TimeUnit::Hour => 3600,
            TimeUnit::Day => 86400,
            TimeUnit::Week => 604800,
        }
    }
}

impl std::str::FromStr for TimeUnit {
    type Err = String;

    fn from_str(s: &str) -> Result<TimeUnit, String> {
        match TimeUnit::from_name(s) {
            Some(u) => Ok(u),
            None => {
                let mut m = <String as vstd::string::StringExecFns>::from_str("Unsupported time unit: ");
                m.append(s);
                Err(m)
            },
        }
    }
}

/// The character classes the duration grammar is made of.
pub open spec fn is_ascii_digit(c: char) -> bool {
    '0' <= c && c <= '9'
}

pub open spec fn is_space(c: char) -> bool {
    c == ' ' || c == '\t' || c == '\n' || c == '\r' || c == '\x0B' || c == '\x0C'
}

pub open spec fn is_letter(c: char) -> bool {
    ('a' <= c && c <= 'z') || ('A' <= c && c <= 'Z')
}

/// Whether `c` is in class `k`: 0 digits, 1 white space, 2 letters.
pub open spec fn in_class(c: char, k: u8) -> bool {
    if k == 0 {
        is_ascii_digit(c)
    } else if k == 1 {
        is_space(c)
    } else {
        is_letter(c)
    }
}

/// End of the run of class `k` characters that starts at `i`.
pub open spec fn run_end(s: Seq<char>, i: int, k: u8) -> int
    decreases s.len() - i,
{
    if 0 <= i < s.len() && in_class(s[i], k) {
        run_end(s, i + 1, k)
    } else {
        i
    }
}

/// A duration starts at `i`: digits, optional white space, then a letter.
pub open spec fn duration_at(s: Seq<char>, i: int) -> bool {
    let l = run_end(s, run_end(s, i, 0), 1);
    0 <= i < s.len() && is_ascii_digit(s[i]) && l < s.len() && is_letter(s[l])
}

/// The leftmost position from `i` on where a duration starts.
pub open spec fn first_duration(s: Seq<char>, i: int) -> Option<int>
    decreases s.len() - i,
{
    if i < 0 || i >= s.len() {
        None
    } else if duration_at(s, i) {
        Some(i)
    } else {
        first_duration(s, i + 1)
    }
}

/// Why a duration could not be read.
#[derive(Debug, PartialEq, Eq)]
pub enum PeriodError {
    /// No `<number><unit>` in the text.
    InvalidFormat,
    /// The number does not fit a `u64`.
    NumberTooLarge,
    /// The unit is not one of the known names; it carries the lower-cased name.
    UnsupportedUnit(String),
    /// The duration in seconds does not fit a `u64`.
    Overflow,
}

/// The duration in seconds written in `s`: the first `<digits><spaces><letters>` in
/// it, the unit compared without regard to case.
pub open spec fn period_seconds(s: Seq<char>) -> Result<nat, PeriodError> {
    match first_duration(s, 0) {
        None => Err(PeriodError::InvalidFormat),
        Some(i) => {
            let j = run_end(s, i, 0);
            let l = run_end(s, j, 1);
            let e = run_end(s, l, 2);
            let value = digits_value(s.subrange(i, j));
            if value > u64::MAX {
                Err(PeriodError::NumberTooLarge)
            } else {
                match unit_named(lower_seq(s.subrange(l, e))) {
                    None => Err(PeriodError::UnsupportedUnit(arbitrary())),
                    Some(u) => if value * unit_seconds(u) > u64::MAX {
                        Err(PeriodError::Overflow)
                    } else {
                        Ok(value * unit_seconds(u))
                    },
                }
            }
        },
    }
}

fn class_of(c: char, k: u8) -> (r: bool)
    ensures
        r == in_class(c, k),
{
    if k == 0 {
        '0' <= c && c <= '9'
    } else if k == 1 {
        c == ' ' || c == '\t' || c == '\n' || c == '\r' || c == '\x0B' || c == '\x0C'
    } else {
        ('a' <= c && c <= 'z') || ('A' <= c && c <= 'Z')
    }
}

proof fn lemma_run_end_bounds(s: Seq<char>, i: int, k: u8)
    requires
        0 <= i <= s.len(),
    ensures
        i <= run_end(s, i, k) <= s.len(),
        forall|m: int| i <= m < run_end(s, i, k) ==> in_class(#[trigger] s[m], k),
    decreases s.len() - i,
{
    if i < s.len() && in_class(s[i], k) {
        lemma_run_end_bounds(s, i + 1, k);
    }
}

/// End of the run of class `k` characters starting at `i`.
fn skip_class(s: &Vec<char>, i: usize, k: u8) -> (r: usize)
    requires
        i <= s.len(),
    ensures
        r == run_end(s@, i as int, k),
        i <= r <= s.len(),
{
    let mut j = i;
    while j < s.len() && class_of(s[j], k)
        invariant
            i <= j <= s.len(),
            run_end(s@, j as int, k) == run_end(s@, i as int, k),
        decreases s.len() - j,
    {
        j = j + 1;
    }
    j
}

/// The characters of `s` from `from` to `to`.
fn slice(s: &Vec<char>, from: usize, to: usize) -> (r: Vec<char>)
    requires
        from <= to <= s.len(),
    ensures
        r@ == s@.subrange(from as int, to as int),
{
    let mut r: Vec<char> = Vec::new();
    let mut i = from;
    while i < to
        invariant
            from <= i <= to <= s.len(),
            r@ == s@.subrange(from as int, i as int),
        decreases to - i,
    {
        r.push(s[i]);
        i = i + 1;
        assert(r@ =~= s@.subrange(from as int, i as int));
    }
    r
}

/// Reads a duration such as `"3 days"`, `"5h"`, `"2m"` or `"1sec"` as seconds.
pub fn parse_time_period(input: &str) -> (r: Result<u64, PeriodError>)
    ensures
        match period_seconds(input@) {
            Ok(n) => r == Ok::<u64, PeriodError>(n as u64),
            Err(PeriodError::UnsupportedUnit(_)) => r matches Err(PeriodError::UnsupportedUnit(_)),
            Err(e) => r == Err::<u64, PeriodError>(e),
        },
{
    let s = chars_of(input);
    let mut i: usize = 0;
    let mut found = false;
    while i < s.len() && !found
        invariant
            i <= s.len(),
            s@ == input@,
            found ==> i < s.len() && duration_at(s@, i as int),
            first_duration(s@, 0) == first_duration(s@, i as int),
        decreases s.len() - i + if found { 0int } else { 1int },
    {
        let mut here = false;
        if class_of(s[i], 0) {
            let j = skip_class(&s, i, 0);
            let l = skip_class(&s, j, 1);
            if l < s.len() && class_of(s[l], 2) {
                here = true;
            }
        }
        assert(here == duration_at(s@, i as int));
        if here {
            found = true;
        } else {
            i = i + 1;
        }
    }
    if !found {
        assert(first_duration(s@, i as int) is None);
        return Err(PeriodError::InvalidFormat);
    }
    assert(first_duration(s@, 0) == Some(i as int));
    let j = skip_class(&s, i, 0);
    let l = skip_class(&s, j, 1);
    let e = skip_class(&s, l, 2);
    proof {
        lemma_run_end_bounds(s@, i as int, 0);
        lemma_run_end_bounds(s@, j as int, 1);
        lemma_run_end_bounds(s@, l as int, 2);
    }
    let digits = slice(&s, i, j);
    let value = match parse_u64(&digits) {
        Some(v) => v,
        None => return Err(PeriodError::NumberTooLarge),
    };
    let unit_text = string_of(&lower_chars(&slice(&s, l, e)));
    let unit = match TimeUnit::from_name(unit_text.as_str()) {
        Some(u) => u,
        None => return Err(PeriodError::UnsupportedUnit(unit_text)),
    };
    match value.checked_mul(unit.seconds()) {
        Some(n) => Ok(n),
        None => Err(PeriodError::Overflow),
    }
}

proof fn lemma_digit_char(d: nat)
    requires
        d < 10,
    ensures
        is_ascii_digit(digit_char(d)),
        digit_value(digit_char(d)) == d,
{
    let b = (d + 48) as u8;
    assert(b as u32 == d + 48);
    assert((b as char) as u32 == b as u32);
}

proof fn lemma_decimal_digits(n: nat)
    ensures
        decimal(n).len() >= 1,
        forall|i: int| 0 <= i < decimal(n).len() ==> is_ascii_digit(#[trigger] decimal(n)[i]),
        digits_value(decimal(n)) == n,
    decreases n,
{
    if n < 10 {
        lemma_digit_char(n);
        assert(decimal(n).drop_last() =~= Seq::<char>::empty());
        assert(decimal(n) == seq![digit_char(n)]);
        assert(digits_value(decimal(n)) == digits_value(Seq::<char>::empty()) * 10 + digit_value(digit_char(n)));
        assert forall|i: int| 0 <= i < decimal(n).len() implies is_ascii_digit(#[trigger] decimal(n)[i]) by {
            assert(i == 0);
        }
    } else {
        lemma_decimal_digits(n / 10);
        lemma_digit_char(n % 10);
        let prev = decimal(n / 10);
        assert(decimal(n).drop_last() =~= prev);
        assert(decimal(n).last() == digit_char(n % 10));
        assert(digits_value(decimal(n)) == digits_value(prev) * 10 + digit_value(digit_char(n % 10)));
        assert((n / 10) * 10 + n % 10 == n);
        assert forall|i: int| 0 <= i < decimal(n).len() implies is_ascii_digit(#[trigger] decimal(n)[i]) by {
            if i < prev.len() {
                assert(decimal(n)[i] == prev[i]);
            } else {
                assert(decimal(n)[i] == digit_char(n % 10));
            }
        }
    }
}

proof fn lemma_run_end_at(s: Seq<char>, i: int, j: int, k: u8)
    requires
        0 <= i <= j <= s.len(),
        forall|m: int| i <= m < j ==> in_class(#[trigger] s[m], k),
        j == s.len() || !in_class(s[j], k),
    ensures
        run_end(s, i, k) == j,
    decreases j - i,
{
    if i < j {
        lemma_run_end_at(s, i + 1, j, k);
    }
}

/// A number followed by optional white space and a unit name, written in any mix of
/// cases, reads as that many of the unit's seconds, where the product fits a `u64`.
pub proof fn number_and_unit_read_as_seconds(n: u64, ws: Seq<char>, u: Seq<char>)
    requires
        forall|i: int| 0 <= i < ws.len() ==> is_space(#[trigger] ws[i]),
        u.len() > 0,
        forall|i: int| 0 <= i < u.len() ==> is_letter(#[trigger] u[i]),
        unit_named(lower_seq(u)) is Some,
        n * unit_seconds(unit_named(lower_seq(u))->0) <= u64::MAX,
    ensures
        period_seconds(decimal(n as nat) + ws + u) == Ok::<nat, PeriodError>(
            (n * unit_seconds(unit_named(lower_seq(u))->0)) as nat,
        ),
{
    let d = decimal(n as nat);
    lemma_decimal_digits(n as nat);
    let s = d + ws + u;
    let a = d.len() as int;
    let b = a + ws.len();
    assert forall|m: int| 0 <= m < a implies in_class(#[trigger] s[m], 0) by {
        assert(s[m] == d[m]);
    }
    assert forall|m: int| a <= m < b implies in_class(#[trigger] s[m], 1) by {
        assert(s[m] == ws[m - a]);
    }
    assert forall|m: int| b <= m < s.len() implies in_class(#[trigger] s[m], 2) by {
        assert(s[m] == u[m - b]);
    }
    if a < b {
        assert(s[a] == ws[0]);
    } else {
        assert(s[a] == u[0]);
    }
    assert(s[b] == u[0]);
    lemma_run_end_at(s, 0, a, 0);
    lemma_run_end_at(s, a, b, 1);
    lemma_run_end_at(s, b, s.len() as int, 2);
    assert(duration_at(s, 0));
    assert(first_duration(s, 0) == Some(0int));
    assert(s.subrange(0, a) =~= d);
    assert(s.subrange(b, s.len() as int) =~= u);
}

} // verus!
