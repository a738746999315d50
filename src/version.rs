//! Comparison of the daemon's version string against a minimum.
use vstd::prelude::*;
use crate::text::{all_digits, chars_of, digits_value, find_char, first_index, parse_u64, split_chars, split_seq, suffix};

verus! {

/// Why a version string could not be compared.
#[derive(Debug, PartialEq, Eq)]
pub enum VersionError {
    /// The version string has no `v`.
    NoVersionMarker,
    /// The version has fewer than two or more than three parts; it carries the string.
    Malformed(String),
    /// A part is not a number that fits a `u32`.
    BadNumber,
}

/// Length of the run of digits and dots that starts `s`.
pub open spec fn version_run(s: Seq<char>, i: int) -> int
    decreases s.len() - i,
{
    if 0 <= i < s.len() && (('0' <= s[i] && s[i] <= '9') || s[i] == '.') {
        version_run(s, i + 1)
    } else {
        i
    }
}

/// The numeric part of a version string: what follows its first `v`, up to the
/// first character that is neither a digit nor a dot.
pub open spec fn clean_version(s: Seq<char>) -> Option<Seq<char>> {
    match first_index(s, 'v') {
        None => None,
        Some(i) => {
            let after = s.subrange(i + 1, s.len() as int);
            Some(after.subrange(0, version_run(after, 0)))
        },
    }
}

/// A part that reads as a `u32`.
pub open spec fn u32_part(p: Seq<char>) -> bool {
    all_digits(p) && digits_value(p) <= u32::MAX
}

/// Compares version parts from index `i` on: the first differing part decides,
/// and where one list runs out the longer one counts as at or above.
pub open spec fn compare_parts(a: Seq<Seq<char>>, b: Seq<Seq<char>>, i: int) -> Result<bool, VersionError>
    decreases a.len() - i,
{
    if i < 0 || i >= a.len() || i >= b.len() {
        Ok(a.len() >= b.len())
    } else if !u32_part(a[i]) || !u32_part(b[i]) {
        Err(VersionError::BadNumber)
    } else if digits_value(a[i]) != digits_value(b[i]) {
        Ok(digits_value(a[i]) > digits_value(b[i]))
    } else {
        compare_parts(a, b, i + 1)
    }
}

/// Whether `my_version` (such as `"v25.02.1-modded"`) is at or above `min_version`
/// (such as `"25.02"`).
pub open spec fn version_check(my_version: Seq<char>, min_version: Seq<char>) -> Result<bool, VersionError> {
    match clean_version(my_version) {
        None => Err(VersionError::NoVersionMarker),
        Some(c) => {
            let mine = split_seq(c, '.');
            if mine.len() <= 1 || mine.len() > 3 {
                Err(VersionError::Malformed(arbitrary()))
            } else {
                compare_parts(mine, split_seq(min_version, '.'), 0)
            }
        },
    }
}

fn u32_of(p: &Vec<char>) -> (r: Option<u32>)
    ensures
        match r {
            Some(v) => u32_part(p@) && v == digits_value(p@),
            None => !u32_part(p@),
        },
{
    match parse_u64(p) {
        Some(v) => if v <= u32::MAX as u64 {
            Some(v as u32)
        } else {
            None
        },
        None => None,
    }
}

pub fn at_or_above_version(my_version: &str, min_version: &str) -> (r: Result<bool, VersionError>)
    ensures
        match version_check(my_version@, min_version@) {
            Ok(b) => r == Ok::<bool, VersionError>(b),
            Err(VersionError::Malformed(_)) => (r matches Err(VersionError::Malformed(s)) && s@
                == my_version@),
            Err(e) => r == Err::<bool, VersionError>(e),
        },
{
    let s = chars_of(my_version);
    let v = match find_char(&s, 'v') {
        Some(v) => v,
        None => {
            assert(first_index(s@, 'v') is None);
            return Err(VersionError::NoVersionMarker);
        },
    };
    assert(first_index(s@, 'v') == Some(v as int));
    let after = suffix(&s, v + 1);
    let mut clean: Vec<char> = Vec::new();
    let mut i: usize = 0;
    while i < after.len() && (('0' <= after[i] && after[i] <= '9') || after[i] == '.')
        invariant
            i <= after.len(),
            clean@ == after@.subrange(0, i as int),
            version_run(after@, 0) == version_run(after@, i as int),
        decreases after.len() - i,
    {
        clean.push(after[i]);
        i = i + 1;
        assert(clean@ =~= after@.subrange(0, i as int));
    }
    assert(version_run(after@, i as int) == i);
    assert(clean_version(s@) == Some(clean@));
    let mine = split_chars(&clean, '.');
    let min = split_chars(&chars_of(min_version), '.');
    let ghost a = split_seq(clean@, '.');
    let ghost b = split_seq(min_version@, '.');
    if mine.len() <= 1 || mine.len() > 3 {
        return Err(VersionError::Malformed(<String as vstd::string::StringExecFns>::from_str(my_version)));
    }
    assert(version_check(my_version@, min_version@) == compare_parts(a, b, 0));
    let mut k: usize = 0;
    while k < mine.len() && k < min.len()
        invariant
            version_check(my_version@, min_version@) == compare_parts(a, b, 0),
            mine@.len() == a.len(),
            min@.len() == b.len(),
            forall|j: int| 0 <= j < a.len() ==> #[trigger] mine@[j]@ == a[j],
            forall|j: int| 0 <= j < b.len() ==> #[trigger] min@[j]@ == b[j],
            k <= mine.len(),
            compare_parts(a, b, 0) == compare_parts(a, b, k as int),
        decreases mine.len() - k,
    {
        assert(mine@[k as int]@ == a[k as int]);
        assert(min@[k as int]@ == b[k as int]);
        let x = match u32_of(&mine[k]) {
            Some(x) => x,
            None => return Err(VersionError::BadNumber),
        };
        let y = match u32_of(&min[k]) {
            Some(y) => y,
            None => return Err(VersionError::BadNumber),
        };
        if x != y {
            return Ok(x > y);
        }
        k = k + 1;
    }
    Ok(mine.len() >= min.len())
}

} // verus!
