//! The tail engine: count specifications, offset resolution, size scanning
//! and extraction from a resolved start position.
//!
//! A user-supplied count is parsed into a [`TakeValue`].  For each input the
//! caller scans the data once with [`count_lines_bytes`], resolves the start
//! position with [`get_start_index`], and extracts the tail portion with
//! [`tail_lines`] or [`tail_bytes`].  All functions here are pure: opening
//! files and writing output belong to the surrounding program.

use vstd::prelude::*;

use crate::chars::chars_of;
use crate::digits::{digits_ok, digits_val, parse_digits_u64};

verus! {

/// A rejected count string.  The offending input is kept verbatim so that
/// diagnostics can repeat it exactly.
#[derive(Debug, Clone)]
pub struct ParseError {
    pub text: String,
}

/// A parsed count: either the special `+0` form, which asks for everything
/// from the start, or a signed number of lines or bytes.
#[derive(Debug, Clone, PartialEq, Eq, Structural)]
pub enum TakeValue {
    /// The literal string `+0`: begin at the first element unless the
    /// source is empty.
    PlusZero,
    /// A signed count.  Positive `n` means "start at the n-th element,
    /// counting from 1"; negative `n` means "start `-n` elements before the
    /// end"; zero means "emit nothing".
    TakeNum(i64),
}

/// Whether `s` opens with an explicit sign character.
pub open spec fn has_sign(s: Seq<char>) -> bool {
    s.len() > 0 && (s[0] == '+' || s[0] == '-')
}

/// The signed 64-bit integer denoted by `s`: an optional sign followed by
/// at least one decimal digit, with the value inside the `i64` range.
pub open spec fn spec_parse_i64(s: Seq<char>) -> Option<int> {
    let mag = if has_sign(s) {
        s.drop_first()
    } else {
        s
    };
    if !digits_ok(mag) {
        None
    } else {
        let v = if s.len() > 0 && s[0] == '-' {
            -digits_val(mag)
        } else {
            digits_val(mag)
        };
        if i64::MIN <= v <= i64::MAX {
            Some(v)
        } else {
            None
        }
    }
}

/// The count specification denoted by `s`.  The literal `+0` is the
/// all-from-start form.  Any other input must be a signed 64-bit decimal
/// number; a bare number with no sign is read as the explicit negative of
/// its magnitude, while a `+`- or `-`-prefixed number keeps its sign.
pub open spec fn spec_take_value(s: Seq<char>) -> Option<TakeValue> {
    if s == seq!['+', '0'] {
        Some(TakeValue::PlusZero)
    } else {
        match spec_parse_i64(s) {
            None => None,
            Some(v) => if has_sign(s) {
                Some(TakeValue::TakeNum(v as i64))
            } else {
                Some(TakeValue::TakeNum((-v) as i64))
            },
        }
    }
}

impl TakeValue {
    /// Parses a user-supplied count string.  Exactly the strings that
    /// denote a count specification succeed; any other input fails with a
    /// [`ParseError`] carrying that input verbatim.
    pub fn parse(s: &str) -> (r: Result<TakeValue, ParseError>)
        ensures
            spec_take_value(s@) matches Some(tv) ==> r matches Ok(t) && t == tv,
            spec_take_value(s@) is None ==> (r matches Err(e) && e.text@ == s@),
    {
        let v = chars_of(s);
        if v.len() == 2 && v[0] == '+' && v[1] == '0' {
            proof {
                assert(s@ =~= seq!['+', '0']);
            }
            return Ok(TakeValue::PlusZero);
        }
        proof {
            assert(s@ != seq!['+', '0']) by {
                if s@ == seq!['+', '0'] {
                    assert(v@[0] == '+' && v@[1] == '0');
                }
            }
        }
        let explicit_sign = v.len() > 0 && (v[0] == '+' || v[0] == '-');
        let negative = v.len() > 0 && v[0] == '-';
        let start: usize = if explicit_sign {
            1
        } else {
            0
        };
        let ghost mag = if has_sign(s@) {
            s@.drop_first()
        } else {
            s@
        };
        proof {
            assert(mag =~= v@.subrange(start as int, v@.len() as int));
        }
        match parse_digits_u64(&v, start, v.len()) {
            None => {
                proof {
                    if digits_ok(mag) {
                        crate::digits::lemma_digits_val_nonneg(mag);
                    }
                }
                Err(ParseError { text: s.to_owned() })
            },
            Some(m) => {
                if negative {
                    if m <= 9223372036854775807u64 {
                        Ok(TakeValue::TakeNum(-(m as i64)))
                    } else if m == 9223372036854775808u64 {
                        Ok(TakeValue::TakeNum(i64::MIN))
                    } else {
                        Err(ParseError { text: s.to_owned() })
                    }
                } else {
                    if m <= 9223372036854775807u64 {
                        let val = m as i64;
                        if explicit_sign {
                            Ok(TakeValue::TakeNum(val))
                        } else {
                            Ok(TakeValue::TakeNum(-val))
                        }
                    } else {
                        Err(ParseError { text: s.to_owned() })
                    }
                }
            },
        }
    }
}

/// Parsing is sign-inverting for unsigned input: a bare digit string and
/// the same digits behind an explicit minus sign denote the same count,
/// while an explicit plus sign keeps the magnitude positive, which is a
/// different count whenever the magnitude is non-zero.
pub proof fn lemma_parse_sign_inversion(d: Seq<char>)
    requires
        digits_ok(d),
        digits_val(d) <= i64::MAX,
    ensures
        spec_take_value(d) == spec_take_value(seq!['-'] + d),
        spec_take_value(d) == Some(TakeValue::TakeNum((-digits_val(d)) as i64)),
        d != seq!['0'] ==> spec_take_value(seq!['+'] + d) == Some(
            TakeValue::TakeNum(digits_val(d) as i64),
        ),
        digits_val(d) != 0 ==> spec_take_value(seq!['+'] + d) != spec_take_value(d),
{
    crate::digits::lemma_digits_val_nonneg(d);
    assert(crate::digits::is_digit(d[0]));
    let minus = seq!['-'] + d;
    let plus = seq!['+'] + d;
    assert(minus.drop_first() =~= d);
    assert(plus.drop_first() =~= d);
    assert(minus != seq!['+', '0']);
    assert(d != seq!['+', '0']) by {
        if d == seq!['+', '0'] {
            assert(d[0] == '+');
        }
    }
    if d != seq!['0'] {
        assert(plus != seq!['+', '0']) by {
            if plus == seq!['+', '0'] {
                assert(plus.drop_first() =~= seq!['0']);
            }
        }
    }
}

/// The start offset that a count specification resolves to against a total
/// of `total` elements: `None` means "emit nothing", `Some(k)` means "begin
/// at the 0-indexed `k`-th element".
pub open spec fn spec_start_index(tv: TakeValue, total: int) -> Option<u64> {
    match tv {
        TakeValue::PlusZero => if total == 0 {
            None
        } else {
            Some(0u64)
        },
        TakeValue::TakeNum(n) => if n == 0 {
            None
        } else if n > 0 {
            if n > total {
                None
            } else {
                Some((n - 1) as u64)
            }
        } else {
            if total + n >= 0 {
                Some((total + n) as u64)
            } else {
                Some(0u64)
            }
        },
    }
}

/// Resolves a count specification against a total element count.
///
/// The clauses below restate the resolution rules case by case: `+0` yields
/// the start of any non-empty source; a zero count yields nothing; a
/// positive count is a 1-indexed position from the start, out of range when
/// it exceeds the total; a negative count starts that many elements before
/// the end, clamped to the start of the source.
pub fn get_start_index(take_value: &TakeValue, total: i64) -> (r: Option<u64>)
    requires
        total >= 0,
    ensures
        r == spec_start_index(*take_value, total as int),
        *take_value == TakeValue::PlusZero ==> ((r is None <==> total == 0) && (total != 0
            ==> r == Some(0u64))),
        *take_value matches TakeValue::TakeNum(n) ==> {
            &&& n == 0 ==> r is None
            &&& n > 0 ==> ((r is None <==> n > total) && (n <= total ==> r == Some(
                (n - 1) as u64,
            )))
            &&& n < 0 ==> r == Some(
                (if total + n >= 0 {
                    total + n
                } else {
                    0
                }) as u64,
            )
        },
{
    match take_value {
        TakeValue::PlusZero => {
            if total == 0 {
                None
            } else {
                Some(0)
            }
        },
        TakeValue::TakeNum(num) => {
            let n = *num;
            if n == 0 {
                None
            } else if n > 0 {
                if n > total {
                    None
                } else {
                    Some((n - 1) as u64)
                }
            } else {
                let shifted = total + n;
                if shifted >= 0 {
                    Some(shifted as u64)
                } else {
                    Some(0)
                }
            }
        },
    }
}

/// The number of line terminators in `s`.  A final unterminated fragment is
/// not counted as an extra line.
pub open spec fn newline_count(s: Seq<u8>) -> int
    decreases s.len(),
{
    if s.len() == 0 {
        0
    } else {
        newline_count(s.drop_last()) + if s.last() == 10 {
            1int
        } else {
            0int
        }
    }
}

proof fn lemma_newline_count_bound(s: Seq<u8>)
    ensures
        0 <= newline_count(s) <= s.len(),
    decreases s.len(),
{
    if s.len() > 0 {
        lemma_newline_count_bound(s.drop_last());
    }
}

/// Scans a source once, front to back, and returns its total line count and
/// total byte count.  Every line terminator counts as one line; every byte
/// counts towards the byte total.
pub fn count_lines_bytes(data: &[u8]) -> (r: (i64, i64))
    requires
        data@.len() <= i64::MAX,
    ensures
        r.0 == newline_count(data@),
        r.1 == data@.len(),
{
    let mut num_lines: i64 = 0;
    let mut i: usize = 0;
    while i < data.len()
        invariant
            i <= data@.len() <= i64::MAX,
            0 <= num_lines <= i,
            num_lines == newline_count(data@.subrange(0, i as int)),
        decreases data@.len() - i,
    {
        if data[i] == 10 {
            num_lines = num_lines + 1;
        }
        proof {
            assert(data@.subrange(0, i + 1).drop_last() =~= data@.subrange(0, i as int));
            assert(data@.subrange(0, i + 1).last() == data@[i as int]);
        }
        i = i + 1;
    }
    proof {
        assert(data@.subrange(0, data@.len() as int) =~= data@);
    }
    (num_lines, data.len() as i64)
}

/// What remains of `s` after skipping `k` complete lines from its start.
/// Skipping past the last terminator leaves the final unterminated fragment;
/// skipping more lines than the source holds leaves nothing.
pub open spec fn skip_lines(s: Seq<u8>, k: int) -> Seq<u8>
    decreases s.len(),
{
    if k <= 0 {
        s
    } else if s.len() == 0 {
        s
    } else if s.first() == 10 {
        skip_lines(s.drop_first(), k - 1)
    } else {
        skip_lines(s.drop_first(), k)
    }
}

/// The tail portion in line mode, as a value: `None` emits nothing, and
/// `Some(k)` emits everything from the start of the 0-indexed `k`-th line.
pub open spec fn spec_tail_lines(s: Seq<u8>, start: Option<u64>) -> Seq<u8> {
    match start {
        None => Seq::empty(),
        Some(k) => skip_lines(s, k as int),
    }
}

/// The tail portion in byte mode, as a value: `None` emits nothing, and
/// `Some(k)` emits every byte from offset `k` on.
pub open spec fn spec_tail_bytes(s: Seq<u8>, start: Option<u64>) -> Seq<u8> {
    match start {
        None => Seq::empty(),
        Some(k) => if k <= s.len() {
            s.subrange(k as int, s.len() as int)
        } else {
            Seq::empty()
        },
    }
}

/// Line-mode extraction: skips `start_idx` complete lines, then returns every
/// remaining byte verbatim, terminators included.  An absent offset returns
/// nothing.
pub fn tail_lines(data: &[u8], start_idx: Option<u64>) -> (r: Vec<u8>)
    ensures
        r@ == spec_tail_lines(data@, start_idx),
{
    match start_idx {
        None => Vec::new(),
        Some(k) => {
            let mut i: usize = 0;
            let mut remaining: u64 = k;
            proof {
                assert(data@.subrange(0, data@.len() as int) =~= data@);
            }
            while i < data.len() && remaining > 0
                invariant
                    i <= data@.len(),
                    skip_lines(data@, k as int) == skip_lines(
                        data@.subrange(i as int, data@.len() as int),
                        remaining as int,
                    ),
                decreases data@.len() - i,
            {
                proof {
                    let rest = data@.subrange(i as int, data@.len() as int);
                    assert(rest.first() == data@[i as int]);
                    assert(rest.drop_first() =~= data@.subrange(i + 1, data@.len() as int));
                }
                if data[i] == 10 {
                    remaining = remaining - 1;
                }
                i = i + 1;
            }
            proof {
                let rest = data@.subrange(i as int, data@.len() as int);
                if remaining > 0 {
                    assert(rest.len() == 0);
                    assert(skip_lines(rest, remaining as int) =~= rest);
                }
            }
            vstd::slice::slice_to_vec(vstd::slice::slice_subrange(data, i, data.len()))
        },
    }
}

/// Byte-mode extraction: returns every byte from offset `start_idx` on,
/// verbatim.  An absent offset, or an offset past the end, returns nothing.
pub fn tail_bytes(data: &[u8], start_idx: Option<u64>) -> (r: Vec<u8>)
    ensures
        r@ == spec_tail_bytes(data@, start_idx),
{
    match start_idx {
        None => Vec::new(),
        Some(k) => {
            if k > data.len() as u64 {
                Vec::new()
            } else {
                vstd::slice::slice_to_vec(
                    vstd::slice::slice_subrange(data, k as usize, data.len()),
                )
            }
        },
    }
}

/// Extracting from offset `Some(0)` reproduces the source in full, in either
/// mode: the round-trip law for the extractor.
pub proof fn lemma_tail_from_start(s: Seq<u8>)
    ensures
        spec_tail_lines(s, Some(0u64)) == s,
        spec_tail_bytes(s, Some(0u64)) == s,
{
    assert(s.subrange(0, s.len() as int) =~= s);
}

/// The active counting mode of a run: a line count by default, or a byte
/// count when one was given.  The two are mutually exclusive, and byte mode
/// takes precedence.
#[derive(Debug, Clone)]
pub struct TailConfig {
    /// The line count, used when `bytes` is absent.
    pub lines: TakeValue,
    /// The byte count, which takes precedence when present.
    pub bytes: Option<TakeValue>,
    /// Suppresses the per-file headers of a multi-file run.
    pub quiet: bool,
}

/// Whether a run with this configuration can emit anything at all: a zero
/// count in the active mode means every file prints nothing, so the run may
/// stop before any file is touched.
pub fn wants_output(config: &TailConfig) -> (r: bool)
    ensures
        r == !(match config.bytes {
            Some(b) => b == TakeValue::TakeNum(0i64),
            None => config.lines == TakeValue::TakeNum(0i64),
        }),
{
    match &config.bytes {
        Some(TakeValue::TakeNum(n)) => *n != 0,
        Some(TakeValue::PlusZero) => true,
        None => match &config.lines {
            TakeValue::TakeNum(n) => *n != 0,
            TakeValue::PlusZero => true,
        },
    }
}

/// The bytes that one file contributes to the output under `config`:
/// resolve the active count against the matching total, then extract from
/// the resolved offset in the matching mode.
pub open spec fn spec_file_tail(config: TailConfig, s: Seq<u8>) -> Seq<u8> {
    match config.bytes {
        Some(b) => spec_tail_bytes(s, spec_start_index(b, s.len() as int)),
        None => spec_tail_lines(s, spec_start_index(config.lines, newline_count(s))),
    }
}

/// Computes one file's tail portion: scans the data once for its totals,
/// resolves the start offset for the active mode, and extracts everything
/// from that offset on.
pub fn file_tail(config: &TailConfig, data: &[u8]) -> (r: Vec<u8>)
    requires
        data@.len() <= i64::MAX,
    ensures
        r@ == spec_file_tail(*config, data@),
{
    let (total_lines, total_bytes) = count_lines_bytes(data);
    proof {
        lemma_newline_count_bound(data@);
    }
    match &config.bytes {
        Some(bytes) => {
            let start_idx = get_start_index(bytes, total_bytes);
            tail_bytes(data, start_idx)
        },
        None => {
            let start_idx = get_start_index(&config.lines, total_lines);
            tail_lines(data, start_idx)
        },
    }
}

/// The header line written before a file's output when several files are
/// processed and headers are not suppressed.
pub fn header_line(filename: &str) -> (r: String)
    ensures
        r@ == "==> "@ + filename@ + " <=="@,
{
    let mut out = String::new();
    out.append("==> ");
    out.append(filename);
    out.append(" <==");
    out
}

/// Whether a file's output is preceded by a header: only in a multi-file
/// run whose headers were not suppressed.
pub fn prints_header(config: &TailConfig, num_files: usize) -> (r: bool)
    ensures
        r == (!config.quiet && num_files > 1),
{
    !config.quiet && num_files > 1
}

} // verus!
