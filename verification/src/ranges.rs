//! Selection ranges: a comma-separated list of 1-indexed positions and
//! closed ranges, and extraction of the selected characters or bytes from a
//! line.

use vstd::prelude::*;

use vstd::string::StringSliceAdditionalSpecFns;

use crate::chars::{chars_of, chars_to_string, split_char, split_on};
use crate::digits::{digits_ok, digits_val, parse_digits_u64, to_decimal_chars, dec_str};

verus! {

/// A rejected range list.  A malformed item keeps the offending text; a
/// backwards range keeps the two positions.
#[derive(Debug)]
pub enum ArgRangeError {
    FormatError(String),
    ValueError((usize, usize)),
}

/// The spec-level form of an [`ArgRangeError`].
pub enum SpecRangeError {
    Format(Seq<char>),
    Value(usize, usize),
}

/// The outcome of reading one comma-separated item: a half-open 0-indexed
/// range, or the error the item provokes.  An item is a 1-indexed position
/// `n`, or a pair `a-b` with `a` below `b`; a leading plus sign, a
/// position of zero, a non-numeric part or a third part is malformed.
pub open spec fn item_range(item: Seq<char>) -> Result<(usize, usize), SpecRangeError> {
    let parts = split_on(item, '-');
    let p0 = parts[0];
    if p0.len() > 0 && p0[0] == '+' {
        Err(SpecRangeError::Format(item))
    } else if p0 == seq!['0'] {
        Err(SpecRangeError::Format(p0))
    } else if !digits_ok(p0) || digits_val(p0) > usize::MAX {
        Err(SpecRangeError::Format(item))
    } else if digits_val(p0) == 0 {
        Err(SpecRangeError::Format(p0))
    } else {
        let start = digits_val(p0) as usize;
        if parts.len() == 1 {
            Ok(((start - 1) as usize, start))
        } else {
            let p1 = parts[1];
            if p1.len() > 0 && p1[0] == '+' {
                Err(SpecRangeError::Format(item))
            } else if p1 == seq!['0'] {
                Err(SpecRangeError::Format(p1))
            } else if !digits_ok(p1) || digits_val(p1) > usize::MAX {
                Err(SpecRangeError::Format(item))
            } else {
                let end = digits_val(p1) as usize;
                if start >= end {
                    Err(SpecRangeError::Value(start, end))
                } else if parts.len() > 2 {
                    Err(SpecRangeError::Format(item))
                } else {
                    Ok(((start - 1) as usize, end))
                }
            }
        }
    }
}

/// Reads a sequence of items left to right, stopping at the first error.
pub open spec fn parse_items(items: Seq<Seq<char>>) -> Result<
    Seq<(usize, usize)>,
    SpecRangeError,
>
    decreases items.len(),
{
    if items.len() == 0 {
        Ok(Seq::empty())
    } else {
        match item_range(items[0]) {
            Err(e) => Err(e),
            Ok(range) => match parse_items(items.drop_first()) {
                Err(e) => Err(e),
                Ok(rest) => Ok(seq![range] + rest),
            },
        }
    }
}

/// The range list denoted by a full comma-separated input.
pub open spec fn spec_parse_list(s: Seq<char>) -> Result<Seq<(usize, usize)>, SpecRangeError> {
    parse_items(split_on(s, ','))
}

impl ArgRangeError {
    /// The diagnostic line for this error.
    pub fn message(&self) -> (r: String)
        ensures
            self matches ArgRangeError::FormatError(t) ==> r@ == "illegal list value: \""@ + t@
                + "\""@,
            self matches ArgRangeError::ValueError(p) ==> r@ == "First number in range("@
                + dec_str(p.0 as int) + ") must be lower than secound number ("@ + dec_str(
                p.1 as int,
            ) + ")"@,
    {
        let mut out = String::new();
        match self {
            ArgRangeError::FormatError(t) => {
                out.append("illegal list value: \"");
                out.append(t.as_str());
                out.append("\"");
            },
            ArgRangeError::ValueError(p) => {
                out.append("First number in range(");
                let a = chars_to_string(&to_decimal_chars(p.0 as u64));
                out.append(a.as_str());
                out.append(") must be lower than secound number (");
                let b = chars_to_string(&to_decimal_chars(p.1 as u64));
                out.append(b.as_str());
                out.append(")");
            },
        }
        out
    }
}

fn parse_item(item: &Vec<char>) -> (r: Result<(usize, usize), ArgRangeError>)
    ensures
        match item_range(item@) {
            Ok(range) => r matches Ok(q) && q == range,
            Err(SpecRangeError::Format(t)) => r matches Err(ArgRangeError::FormatError(f)) && f@
                == t,
            Err(SpecRangeError::Value(a, b)) => r matches Err(ArgRangeError::ValueError(p))
                && p.0 == a && p.1 == b,
        },
{
    let parts = split_char(item, '-');
    proof {
        crate::chars::lemma_split_on_len(item@, '-');
        assert(parts.deep_view()[0] == parts@[0]@);
    }
    let p0 = &parts[0];
    if p0.len() > 0 && p0[0] == '+' {
        return Err(ArgRangeError::FormatError(chars_to_string(item)));
    }
    if p0.len() == 1 && p0[0] == '0' {
        proof {
            assert(p0@ =~= seq!['0']);
        }
        return Err(ArgRangeError::FormatError(chars_to_string(p0)));
    }
    proof {
        assert(p0@ != seq!['0']) by {
            if p0@ == seq!['0'] {
                assert(p0@[0] == '0');
            }
        }
    }
    let start_val = match parse_digits_u64(p0, 0, p0.len()) {
        None => {
            proof {
                assert(p0@.subrange(0, p0@.len() as int) =~= p0@);
            }
            return Err(ArgRangeError::FormatError(chars_to_string(item)));
        },
        Some(m) => m,
    };
    proof {
        assert(p0@.subrange(0, p0@.len() as int) =~= p0@);
    }
    if start_val > usize::MAX as u64 {
        return Err(ArgRangeError::FormatError(chars_to_string(item)));
    }
    if start_val == 0 {
        return Err(ArgRangeError::FormatError(chars_to_string(p0)));
    }
    let start = start_val as usize;
    if parts.len() == 1 {
        return Ok((start - 1, start));
    }
    proof {
        assert(parts.deep_view()[1] == parts@[1]@);
    }
    let p1 = &parts[1];
    if p1.len() > 0 && p1[0] == '+' {
        return Err(ArgRangeError::FormatError(chars_to_string(item)));
    }
    if p1.len() == 1 && p1[0] == '0' {
        proof {
            assert(p1@ =~= seq!['0']);
        }
        return Err(ArgRangeError::FormatError(chars_to_string(p1)));
    }
    proof {
        assert(p1@ != seq!['0']) by {
            if p1@ == seq!['0'] {
                assert(p1@[0] == '0');
            }
        }
    }
    let end_val = match parse_digits_u64(p1, 0, p1.len()) {
        None => {
            proof {
                assert(p1@.subrange(0, p1@.len() as int) =~= p1@);
            }
            return Err(ArgRangeError::FormatError(chars_to_string(item)));
        },
        Some(m) => m,
    };
    proof {
        assert(p1@.subrange(0, p1@.len() as int) =~= p1@);
    }
    if end_val > usize::MAX as u64 {
        return Err(ArgRangeError::FormatError(chars_to_string(item)));
    }
    let end = end_val as usize;
    if start >= end {
        return Err(ArgRangeError::ValueError((start, end)));
    }
    if parts.len() > 2 {
        return Err(ArgRangeError::FormatError(chars_to_string(item)));
    }
    Ok((start - 1, end))
}

/// The selected portion of `src` for one half-open range, clipped to the
/// source: everything from the range's start up to its end or the end of
/// the source, whichever comes first.
pub open spec fn spec_clip<T>(src: Seq<T>, lo: usize, hi: usize) -> Seq<T> {
    let h = if hi <= src.len() {
        hi as int
    } else {
        src.len() as int
    };
    let l = if lo <= h {
        lo as int
    } else {
        h
    };
    src.subrange(l, h)
}

/// The concatenation of the selected portions of `src`, one per range, in
/// list order.
pub open spec fn spec_extract<T>(src: Seq<T>, ranges: Seq<(usize, usize)>) -> Seq<T>
    decreases ranges.len(),
{
    if ranges.len() == 0 {
        Seq::empty()
    } else {
        spec_clip(src, ranges[0].0, ranges[0].1) + spec_extract(src, ranges.drop_first())
    }
}

fn push_clip(out: &mut Vec<char>, src: &Vec<char>, lo: usize, hi: usize)
    ensures
        final(out)@ == old(out)@ + spec_clip(src@, lo, hi),
{
    let h = if hi <= src.len() {
        hi
    } else {
        src.len()
    };
    let l = if lo <= h {
        lo
    } else {
        h
    };
    let ghost base = out@;
    let mut j: usize = l;
    while j < h
        invariant
            l <= j <= h <= src@.len(),
            out@ == base + src@.subrange(l as int, j as int),
        decreases h - j,
    {
        proof {
            assert(src@.subrange(l as int, j + 1) =~= src@.subrange(l as int, j as int).push(
                src@[j as int],
            ));
        }
        out.push(src[j]);
        j = j + 1;
    }
    proof {
        assert(out@ =~= base + spec_clip(src@, lo, hi));
    }
}

/// The text that permissive UTF-8 decoding makes of a byte sequence, as
/// `String::from_utf8_lossy` computes it: well-formed sequences decode and
/// ill-formed ones become replacement characters.  The full rule takes
/// pages to state, so it is only named here; it depends on the bytes
/// alone.
pub uninterp spec fn lossy_of(bytes: Seq<u8>) -> Seq<char>;

/// Relies on `String::from_utf8_lossy`: the result is the permissive
/// decoding of the input, a function of the bytes alone, and an empty
/// input stays empty.
#[verifier::external_body]
fn utf8_lossy(bytes: &[u8]) -> (r: String)
    ensures
        r@ == lossy_of(bytes@),
        bytes@.len() == 0 ==> r@.len() == 0,
{
    String::from_utf8_lossy(bytes).into_owned()
}

/// The concatenation of the selected byte portions of `src`, each decoded
/// permissively on its own, in range order.
pub open spec fn spec_extract_lossy(src: Seq<u8>, ranges: Seq<(usize, usize)>) -> Seq<char>
    decreases ranges.len(),
{
    if ranges.len() == 0 {
        Seq::empty()
    } else {
        lossy_of(spec_clip(src, ranges[0].0, ranges[0].1)) + spec_extract_lossy(
            src,
            ranges.drop_first(),
        )
    }
}

#[verifier::external_type_specification]
#[verifier::external_body]
pub struct ExStringRecord(csv::StringRecord);

/// The fields that a parsed record holds, in order.
pub uninterp spec fn record_fields(r: csv::StringRecord) -> Seq<Seq<char>>;

/// Relies on `csv::StringRecord::len`: the number of fields in the
/// record.
#[verifier::external_body]
fn record_len(r: &csv::StringRecord) -> (n: usize)
    ensures
        n == record_fields(*r).len(),
{
    r.len()
}

/// Relies on `csv::StringRecord::get`: field `i` of the record, absent
/// exactly when `i` is out of bounds.
#[verifier::external_body]
fn record_get<'a>(r: &'a csv::StringRecord, i: usize) -> (f: Option<&'a str>)
    ensures
        f matches Some(s) ==> i < record_fields(*r).len() && s@ == record_fields(*r)[i as int],
        (f is Some) == (i < record_fields(*r).len()),
{
    r.get(i)
}

/// A parsed list of selection ranges, held 0-indexed and half-open.
#[derive(Debug, Clone)]
pub struct ArgRangeList {
    ranges: Vec<(usize, usize)>,
}

impl View for ArgRangeList {
    type V = Seq<(usize, usize)>;

    closed spec fn view(&self) -> Seq<(usize, usize)> {
        self.ranges@
    }
}

impl ArgRangeList {
    /// Parses a comma-separated list of positions and ranges.  Exactly the
    /// inputs whose every item is well formed succeed; the first offending
    /// item decides the error.
    pub fn parse(s: &str) -> (r: Result<ArgRangeList, ArgRangeError>)
        ensures
            match spec_parse_list(s@) {
                Ok(ranges) => r matches Ok(list) && list@ == ranges,
                Err(SpecRangeError::Format(t)) => r matches Err(ArgRangeError::FormatError(f))
                    && f@ == t,
                Err(SpecRangeError::Value(a, b)) => r matches Err(ArgRangeError::ValueError(p))
                    && p.0 == a && p.1 == b,
            },
    {
        let v = chars_of(s);
        let items = split_char(&v, ',');
        let ghost all = items.deep_view();
        let mut ranges: Vec<(usize, usize)> = Vec::new();
        let mut i: usize = 0;
        proof {
            assert(all.subrange(0, all.len() as int) =~~= all);
            assert(all.skip(0) =~~= all);
        }
        while i < items.len()
            invariant
                i <= all.len(),
                all == items.deep_view(),
                all == split_on(s@, ','),
                items@.len() == all.len(),
                match parse_items(all.skip(i as int)) {
                    Ok(rest) => parse_items(all) matches Ok(whole) && whole == ranges@ + rest,
                    Err(e) => parse_items(all) == Err::<Seq<(usize, usize)>, SpecRangeError>(e),
                },
            decreases all.len() - i,
        {
            let ghost suffix = all.skip(i as int);
            proof {
                assert(suffix[0] == items@[i as int]@);
                assert(suffix.drop_first() =~~= all.skip(i + 1));
            }
            match parse_item(&items[i]) {
                Err(e) => {
                    proof {
                        assert(parse_items(all) == parse_items(suffix));
                    }
                    return Err(e);
                },
                Ok(range) => {
                    let ghost old_ranges = ranges@;
                    ranges.push(range);
                    proof {
                        if parse_items(all.skip(i + 1)) is Ok {
                            let rest = parse_items(all.skip(i + 1))->Ok_0;
                            assert(old_ranges + (seq![range] + rest) =~= ranges@ + rest);
                        }
                    }
                },
            }
            i = i + 1;
        }
        proof {
            assert(all.skip(i as int).len() == 0);
            assert(ranges@ + Seq::<(usize, usize)>::empty() =~= ranges@);
        }
        Ok(ArgRangeList { ranges })
    }

    /// The parsed ranges, 0-indexed and half-open, in list order.
    pub fn ranges(&self) -> (r: Vec<(usize, usize)>)
        ensures
            r@ == self@,
    {
        let mut r: Vec<(usize, usize)> = Vec::new();
        let mut i: usize = 0;
        while i < self.ranges.len()
            invariant
                i <= self@.len(),
                r@ == self@.subrange(0, i as int),
            decreases self@.len() - i,
        {
            r.push(self.ranges[i]);
            proof {
                assert(r@ =~= self@.subrange(0, i + 1));
            }
            i = i + 1;
        }
        proof {
            assert(r@ =~= self@);
        }
        r
    }

    /// Extracts the selected characters of `line`, by character position,
    /// concatenated in range order.
    pub fn extract_chars(&self, line: &str) -> (r: String)
        ensures
            r@ == spec_extract(line@, self@),
    {
        let src = chars_of(line);
        let mut out: Vec<char> = Vec::new();
        let mut i: usize = 0;
        proof {
            assert(self@.skip(0) =~= self@);
        }
        while i < self.ranges.len()
            invariant
                i <= self@.len(),
                spec_extract(line@, self@) == out@ + spec_extract(line@, self@.skip(i as int)),
                src@ == line@,
            decreases self@.len() - i,
        {
            let ghost suffix = self@.skip(i as int);
            proof {
                assert(suffix[0] == self@[i as int]);
                assert(suffix.drop_first() =~= self@.skip(i + 1));
            }
            let (lo, hi) = self.ranges[i];
            push_clip(&mut out, &src, lo, hi);
            i = i + 1;
        }
        proof {
            assert(spec_extract(line@, self@.skip(i as int)) =~= Seq::<char>::empty());
            assert(out@ =~= spec_extract(line@, self@));
        }
        chars_to_string(&out)
    }

    /// Extracts the selected bytes of `line`, by byte position, each range
    /// decoded permissively on its own and the pieces concatenated in
    /// range order.
    pub fn extract_bytes(&self, line: &str) -> (r: String)
        ensures
            r@ == spec_extract_lossy(line.spec_bytes(), self@),
    {
        let src = line.as_bytes();
        let mut out = String::new();
        let mut i: usize = 0;
        proof {
            assert(self@.skip(0) =~= self@);
        }
        while i < self.ranges.len()
            invariant
                i <= self@.len(),
                spec_extract_lossy(line.spec_bytes(), self@) == out@ + spec_extract_lossy(
                    line.spec_bytes(),
                    self@.skip(i as int),
                ),
                src@ == line.spec_bytes(),
            decreases self@.len() - i,
        {
            let ghost suffix = self@.skip(i as int);
            proof {
                assert(suffix[0] == self@[i as int]);
                assert(suffix.drop_first() =~= self@.skip(i + 1));
            }
            let (lo, hi) = self.ranges[i];
            let h = if hi <= src.len() {
                hi
            } else {
                src.len()
            };
            let l = if lo <= h {
                lo
            } else {
                h
            };
            let piece = utf8_lossy(vstd::slice::slice_subrange(src, l, h));
            proof {
                assert(src@.subrange(l as int, h as int) =~= spec_clip(src@, lo, hi));
            }
            out.append(piece.as_str());
            i = i + 1;
        }
        proof {
            assert(spec_extract_lossy(line.spec_bytes(), self@.skip(i as int)) =~= Seq::<
                char,
            >::empty());
            assert(out@ =~= spec_extract_lossy(line.spec_bytes(), self@));
        }
        out
    }

    /// Extracts the selected fields of a parsed record, by field
    /// position, concatenated in range order.
    pub fn extract_fields<'a>(&self, record: &'a csv::StringRecord) -> (r: Vec<&'a str>)
        ensures
            r.deep_view() == spec_extract(record_fields(*record), self@),
    {
        let ghost fields = record_fields(*record);
        let len = record_len(record);
        let mut out: Vec<&'a str> = Vec::new();
        let mut i: usize = 0;
        proof {
            assert(self@.skip(0) =~= self@);
        }
        while i < self.ranges.len()
            invariant
                i <= self@.len(),
                fields == record_fields(*record),
                fields.len() == len,
                spec_extract(fields, self@) =~~= out.deep_view() + spec_extract(
                    fields,
                    self@.skip(i as int),
                ),
            decreases self@.len() - i,
        {
            let ghost suffix = self@.skip(i as int);
            proof {
                assert(suffix[0] == self@[i as int]);
                assert(suffix.drop_first() =~= self@.skip(i + 1));
            }
            let (lo, hi) = self.ranges[i];
            let h = if hi <= len {
                hi
            } else {
                len
            };
            let l = if lo <= h {
                lo
            } else {
                h
            };
            let ghost clip_base = out.deep_view();
            let mut j: usize = l;
            while j < h
                invariant
                    l <= j <= h <= len,
                    fields == record_fields(*record),
                    fields.len() == len,
                    out.deep_view() =~~= clip_base + fields.subrange(l as int, j as int),
                decreases h - j,
            {
                let ghost before = out.deep_view();
                let field = match record_get(record, j) {
                    Some(f) => f,
                    None => "",
                };
                out.push(field);
                proof {
                    assert(out.deep_view() =~~= before.push(fields[j as int]));
                    assert(fields.subrange(l as int, j + 1) =~= fields.subrange(
                        l as int,
                        j as int,
                    ).push(fields[j as int]));
                }
                j = j + 1;
            }
            proof {
                assert(fields.subrange(l as int, h as int) =~= spec_clip(fields, lo, hi));
                assert(out.deep_view() =~~= clip_base + spec_clip(fields, lo, hi));
            }
            i = i + 1;
            proof {
                assert(spec_extract(fields, self@) =~~= out.deep_view() + spec_extract(
                    fields,
                    self@.skip(i as int),
                ));
            }
        }
        proof {
            assert(spec_extract(fields, self@.skip(i as int)) =~~= Seq::<Seq<char>>::empty());
            assert(out.deep_view() =~~= spec_extract(fields, self@));
        }
        out
    }
}

} // verus!
