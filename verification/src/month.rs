//! Month parsing: a month given as a number or as an unambiguous prefix of
//! an English month name.

use vstd::prelude::*;

use crate::chars::{chars_of, lower_of, to_lowercase};
use crate::digits::{digits_ok, digits_val, parse_digits_u64};

verus! {

/// A rejected month string: either a number outside 1 through 12, or text
/// that names no month or more than one.  The offending input is kept
/// verbatim.
#[derive(Debug, Clone)]
pub enum MonthError {
    OutOfRange(String),
    Invalid(String),
}

impl MonthError {
    /// The diagnostic line for this error.
    pub fn message(&self) -> (r: String)
        ensures
            self matches MonthError::OutOfRange(t) ==> r@ == "month \""@ + t@
                + "\" not in the range 1 through 12"@,
            self matches MonthError::Invalid(t) ==> r@ == "Invalid month \""@ + t@ + "\""@,
    {
        let mut out = String::new();
        match self {
            MonthError::OutOfRange(t) => {
                out.append("month \"");
                out.append(t.as_str());
                out.append("\" not in the range 1 through 12");
            },
            MonthError::Invalid(t) => {
                out.append("Invalid month \"");
                out.append(t.as_str());
                out.append("\"");
            },
        }
        out
    }
}

/// The lower-case English name of month `m`.
pub open spec fn spec_month_name(m: int) -> Seq<char> {
    if m == 1 {
        "january"@
    } else if m == 2 {
        "february"@
    } else if m == 3 {
        "march"@
    } else if m == 4 {
        "april"@
    } else if m == 5 {
        "may"@
    } else if m == 6 {
        "june"@
    } else if m == 7 {
        "july"@
    } else if m == 8 {
        "august"@
    } else if m == 9 {
        "september"@
    } else if m == 10 {
        "october"@
    } else if m == 11 {
        "november"@
    } else if m == 12 {
        "december"@
    } else {
        Seq::empty()
    }
}

fn month_name_lower(m: u32) -> (r: &'static str)
    requires
        1 <= m <= 12,
    ensures
        r@ == spec_month_name(m as int),
{
    if m == 1 {
        "january"
    } else if m == 2 {
        "february"
    } else if m == 3 {
        "march"
    } else if m == 4 {
        "april"
    } else if m == 5 {
        "may"
    } else if m == 6 {
        "june"
    } else if m == 7 {
        "july"
    } else if m == 8 {
        "august"
    } else if m == 9 {
        "september"
    } else if m == 10 {
        "october"
    } else if m == 11 {
        "november"
    } else {
        "december"
    }
}

/// Whether `p` is a prefix of `w`.
pub open spec fn is_prefix(p: Seq<char>, w: Seq<char>) -> bool {
    p.len() <= w.len() && p == w.subrange(0, p.len() as int)
}

fn chars_prefix(p: &Vec<char>, w: &Vec<char>) -> (r: bool)
    ensures
        r == is_prefix(p@, w@),
{
    if p.len() > w.len() {
        return false;
    }
    let mut i: usize = 0;
    while i < p.len()
        invariant
            i <= p@.len() <= w@.len(),
            forall|j: int| 0 <= j < i ==> p@[j] == w@[j],
        decreases p@.len() - i,
    {
        if p[i] != w[i] {
            proof {
                assert(p@[i as int] != w@.subrange(0, p@.len() as int)[i as int]);
            }
            return false;
        }
        i = i + 1;
    }
    proof {
        assert(p@ =~= w@.subrange(0, p@.len() as int));
    }
    true
}

/// Whether the folded input `lower` names month `m`: it is a prefix of the
/// month's lower-case name.
pub open spec fn name_matches(lower: Seq<char>, m: int) -> bool {
    is_prefix(lower, spec_month_name(m))
}

/// How many of the months 1 through `m` the folded input names.
pub open spec fn month_match_count(lower: Seq<char>, m: int) -> int
    decreases m,
{
    if m <= 0 {
        0
    } else {
        month_match_count(lower, m - 1) + if name_matches(lower, m) {
            1int
        } else {
            0int
        }
    }
}

/// The first of the months 1 through `m` that the folded input names, or 0
/// if it names none.
pub open spec fn first_month_match(lower: Seq<char>, m: int) -> int
    decreases m,
{
    if m <= 0 {
        0
    } else if first_month_match(lower, m - 1) != 0 {
        first_month_match(lower, m - 1)
    } else if name_matches(lower, m) {
        m
    } else {
        0
    }
}

/// The non-negative number denoted by `s` under unsigned decimal parsing:
/// an optional plus sign, then digits, with the value inside the `u32`
/// range.
pub open spec fn spec_parse_u32(s: Seq<char>) -> Option<int> {
    let mag = if s.len() > 0 && s[0] == '+' {
        s.drop_first()
    } else {
        s
    };
    if digits_ok(mag) && digits_val(mag) <= u32::MAX {
        Some(digits_val(mag))
    } else {
        None
    }
}

/// Parses a month given as text.  A numeric input must lie in 1 through
/// 12, anything else is out of range; a non-numeric input must be a prefix
/// of exactly one month name, compared case-insensitively, and is invalid
/// when it names none or several.
pub fn parse_month(month: &str) -> (r: Result<u32, MonthError>)
    ensures
        spec_parse_u32(month@) matches Some(v) ==> {
            &&& 1 <= v <= 12 ==> (r matches Ok(m) && m == v)
            &&& !(1 <= v <= 12) ==> (r matches Err(e) && e matches MonthError::OutOfRange(t)
                && t@ == month@)
        },
        spec_parse_u32(month@) is None ==> {
            let lower = lower_of(month@);
            &&& month_match_count(lower, 12) == 1 ==> (r matches Ok(m) && m == first_month_match(
                lower,
                12,
            ))
            &&& month_match_count(lower, 12) != 1 ==> (r matches Err(e) && e matches
                MonthError::Invalid(t) && t@ == month@)
        },
{
    let v = chars_of(month);
    let start: usize = if v.len() > 0 && v[0] == '+' {
        1
    } else {
        0
    };
    let ghost mag = if month@.len() > 0 && month@[0] == '+' {
        month@.drop_first()
    } else {
        month@
    };
    proof {
        assert(mag =~= v@.subrange(start as int, v@.len() as int));
    }
    let numeric = parse_digits_u64(&v, start, v.len());
    match numeric {
        Some(n) if n <= 0xFFFF_FFFFu64 => {
            if 1 <= n && n <= 12 {
                Ok(n as u32)
            } else {
                Err(MonthError::OutOfRange(month.to_owned()))
            }
        },
        _ => {
            proof {
                if digits_ok(mag) {
                    crate::digits::lemma_digits_val_nonneg(mag);
                }
            }
            let lowered = to_lowercase(month);
            let lv = chars_of(lowered.as_str());
            let mut count: u32 = 0;
            let mut first: u32 = 0;
            let mut m: u32 = 1;
            while m <= 12
                invariant
                    1 <= m <= 13,
                    lv@ == lower_of(month@),
                    count <= m - 1,
                    first <= 12,
                    count == month_match_count(lv@, m - 1),
                    first == first_month_match(lv@, m - 1),
                decreases 13 - m,
            {
                let name = month_name_lower(m);
                let nv = chars_of(name);
                if chars_prefix(&lv, &nv) {
                    count = count + 1;
                    if first == 0 {
                        first = m;
                    }
                }
                m = m + 1;
            }
            if count == 1 {
                Ok(first)
            } else {
                Err(MonthError::Invalid(month.to_owned()))
            }
        },
    }
}

/// A month of the year, held as its number.  Construction does not
/// validate the number; parsing does.
#[derive(Debug, Clone, PartialEq, Eq, Structural)]
pub struct Month(u32);

impl Month {
    /// The month's number.
    pub closed spec fn spec_value(self) -> u32 {
        self.0
    }

    /// Wraps a month number.
    pub fn new(month: u32) -> (r: Self)
        ensures
            r.spec_value() == month,
    {
        Month(month)
    }

    /// The month's number, for callers outside the proof.
    pub fn value(&self) -> (r: u32)
        ensures
            r == self.spec_value(),
    {
        self.0
    }

    /// Parses a month exactly as [`parse_month`] does and wraps the
    /// result.
    pub fn parse(s: &str) -> (r: Result<Month, MonthError>)
        ensures
            spec_parse_u32(s@) matches Some(v) ==> {
                &&& 1 <= v <= 12 ==> (r matches Ok(m) && m.spec_value() == v)
                &&& !(1 <= v <= 12) ==> (r matches Err(e) && e matches MonthError::OutOfRange(t)
                    && t@ == s@)
            },
            spec_parse_u32(s@) is None ==> {
                let lower = lower_of(s@);
                &&& month_match_count(lower, 12) == 1 ==> (r matches Ok(m) && m.spec_value()
                    == first_month_match(lower, 12))
                &&& month_match_count(lower, 12) != 1 ==> (r matches Err(e) && e matches
                    MonthError::Invalid(t) && t@ == s@)
            },
    {
        match parse_month(s) {
            Ok(m) => Ok(Month(m)),
            Err(e) => Err(e),
        }
    }
}

} // verus!
