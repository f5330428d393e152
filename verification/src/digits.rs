//! Decimal digit strings and their values.
//!
//! Several of the utilities parse unsigned decimal numbers out of user
//! input.  This module gives the common model — a sequence of digit
//! characters and the number it denotes — and one verified parser over a
//! slice of a character vector.

use vstd::prelude::*;

verus! {

/// Whether `c` is a decimal digit.
pub open spec fn is_digit(c: char) -> bool {
    48 <= c as u32 <= 57
}

/// The value of a digit character.
pub open spec fn digit_val(c: char) -> int {
    c as u32 - 48
}

/// Whether `s` is a non-empty run of decimal digits.
pub open spec fn digits_ok(s: Seq<char>) -> bool {
    s.len() > 0 && forall|i: int| 0 <= i < s.len() ==> is_digit(#[trigger] s[i])
}

/// The number denoted by the digit string `s`, most significant digit
/// first.  Leading zeroes are allowed and do not change the value.
pub open spec fn digits_val(s: Seq<char>) -> int
    decreases s.len(),
{
    if s.len() == 0 {
        0
    } else {
        digits_val(s.drop_last()) * 10 + digit_val(s.last())
    }
}

pub proof fn lemma_digits_val_nonneg(s: Seq<char>)
    requires
        forall|i: int| 0 <= i < s.len() ==> is_digit(#[trigger] s[i]),
    ensures
        digits_val(s) >= 0,
    decreases s.len(),
{
    if s.len() > 0 {
        lemma_digits_val_nonneg(s.drop_last());
    }
}

/// The digit character for a value 0 through 9.
pub open spec fn digit_char(d: int) -> char {
    if d == 0 {
        '0'
    } else if d == 1 {
        '1'
    } else if d == 2 {
        '2'
    } else if d == 3 {
        '3'
    } else if d == 4 {
        '4'
    } else if d == 5 {
        '5'
    } else if d == 6 {
        '6'
    } else if d == 7 {
        '7'
    } else if d == 8 {
        '8'
    } else {
        '9'
    }
}

/// The decimal rendering of a non-negative number, most significant digit
/// first and without leading zeroes.
pub open spec fn dec_str(n: int) -> Seq<char>
    decreases n,
{
    if n < 0 {
        Seq::empty()
    } else if n < 10 {
        seq![digit_char(n)]
    } else {
        dec_str(n / 10).push(digit_char(n % 10))
    }
}

fn digit_to_char(d: u64) -> (c: char)
    requires
        d < 10,
    ensures
        c == digit_char(d as int),
{
    if d == 0 {
        '0'
    } else if d == 1 {
        '1'
    } else if d == 2 {
        '2'
    } else if d == 3 {
        '3'
    } else if d == 4 {
        '4'
    } else if d == 5 {
        '5'
    } else if d == 6 {
        '6'
    } else if d == 7 {
        '7'
    } else if d == 8 {
        '8'
    } else {
        '9'
    }
}

/// Renders a number in decimal, as a character vector.
pub fn to_decimal_chars(n: u64) -> (v: Vec<char>)
    ensures
        v@ == dec_str(n as int),
{
    let mut tmp: Vec<char> = Vec::new();
    let mut cur: u64 = n;
    if cur == 0 {
        let mut v: Vec<char> = Vec::new();
        v.push('0');
        proof {
            assert(v@ =~= dec_str(0));
        }
        return v;
    }
    while cur > 0
        invariant
            cur > 0 ==> dec_str(n as int) =~= dec_str(cur as int) + tmp@.reverse(),
            cur == 0 ==> dec_str(n as int) =~= tmp@.reverse(),
        decreases cur,
    {
        let d = cur % 10;
        let ghost old_tmp = tmp@;
        let ghost old_cur = cur as int;
        tmp.push(digit_to_char(d));
        cur = cur / 10;
        proof {
            assert(tmp@.reverse() =~= seq![digit_char(old_cur % 10)] + old_tmp.reverse());
            if cur > 0 {
                assert(dec_str(old_cur) == dec_str(old_cur / 10).push(digit_char(old_cur % 10)));
                assert(dec_str(old_cur / 10).push(digit_char(old_cur % 10)) =~= dec_str(
                    old_cur / 10,
                ) + seq![digit_char(old_cur % 10)]);
                assert(dec_str(n as int) =~= dec_str(cur as int) + tmp@.reverse());
            } else {
                assert(old_cur < 10);
                assert(dec_str(old_cur) =~= seq![digit_char(old_cur)]);
                assert(dec_str(n as int) =~= tmp@.reverse());
            }
        }
    }
    let mut v: Vec<char> = Vec::new();
    let mut j: usize = tmp.len();
    while j > 0
        invariant
            j <= tmp@.len(),
            v@.len() == tmp@.len() - j,
            forall|k: int| 0 <= k < v@.len() ==> v@[k] == tmp@[tmp@.len() - 1 - k],
        decreases j,
    {
        j = j - 1;
        v.push(tmp[j]);
    }
    proof {
        assert(v@ =~= tmp@.reverse());
    }
    v
}

/// Parses `v[from..to]` as an unsigned decimal number.  The result is the
/// denoted value exactly when the slice is a non-empty run of digits whose
/// value fits in 64 bits; otherwise there is no result.
pub fn parse_digits_u64(v: &Vec<char>, from: usize, to: usize) -> (r: Option<u64>)
    requires
        from <= to <= v@.len(),
    ensures
        r matches Some(m) ==> digits_ok(v@.subrange(from as int, to as int)) && m == digits_val(
            v@.subrange(from as int, to as int),
        ),
        r is None ==> !digits_ok(v@.subrange(from as int, to as int)) || digits_val(
            v@.subrange(from as int, to as int),
        ) > u64::MAX,
{
    let ghost whole = v@.subrange(from as int, to as int);
    if from == to {
        return None;
    }
    let mut acc: u64 = 0;
    let mut overflow: bool = false;
    let mut i: usize = from;
    while i < to
        invariant
            from <= i <= to <= v@.len(),
            whole == v@.subrange(from as int, to as int),
            forall|j: int| from <= j < i ==> is_digit(#[trigger] v@[j]),
            !overflow ==> acc == digits_val(v@.subrange(from as int, i as int)),
            overflow ==> digits_val(v@.subrange(from as int, i as int)) > u64::MAX,
        decreases to - i,
    {
        let c = v[i];
        let u = c as u32;
        if u < 48 || u > 57 {
            proof {
                assert(!is_digit(whole[i - from]));
            }
            return None;
        }
        let d = (u - 48) as u64;
        proof {
            let prefix = v@.subrange(from as int, i as int);
            let next = v@.subrange(from as int, i + 1);
            assert(next.drop_last() =~= prefix);
            assert(next.last() == v@[i as int]);
            lemma_digits_val_nonneg(prefix);
        }
        if !overflow {
            match acc.checked_mul(10) {
                Some(shifted) => {
                    match shifted.checked_add(d) {
                        Some(total) => {
                            acc = total;
                        },
                        None => {
                            overflow = true;
                        },
                    }
                },
                None => {
                    overflow = true;
                },
            }
        }
        i = i + 1;
    }
    if overflow {
        None
    } else {
        Some(acc)
    }
}

} // verus!
