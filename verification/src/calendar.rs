//! Month layout: the Gregorian arithmetic and the 20-column month grid of
//! the calendar utility.

use vstd::prelude::*;

use crate::chars::{chars_of, chars_to_string, push_spaces, spaces};
use crate::digits::{dec_str, to_decimal_chars};

verus! {

/// A calendar date as plain year, month and day numbers.
#[derive(Debug, Clone, PartialEq, Eq, Structural)]
pub struct CivilDate {
    pub year: i32,
    pub month: u32,
    pub day: u32,
}

/// Whether `year` is a Gregorian leap year.
pub open spec fn is_leap(year: int) -> bool {
    year % 4 == 0 && (year % 100 != 0 || year % 400 == 0)
}

/// The number of days in a month of the Gregorian calendar.
pub open spec fn spec_days_in_month(year: int, month: int) -> int {
    if month == 2 {
        if is_leap(year) {
            29
        } else {
            28
        }
    } else if month == 4 || month == 6 || month == 9 || month == 11 {
        30
    } else {
        31
    }
}

/// The weekday of the first day of a month, counted in days from Sunday:
/// 0 is Sunday, 6 is Saturday.  The formula counts days of the era from
/// 0000-03-01, whose day count for 1970-01-01 falls on a Thursday.
pub open spec fn spec_first_weekday(year: int, month: int) -> int {
    let y = if month <= 2 {
        year - 1
    } else {
        year
    };
    let era = y / 400;
    let yoe = y - era * 400;
    let mp = (month + 9) % 12;
    let doy = (153 * mp + 2) / 5;
    let doe = yoe * 365 + yoe / 4 - yoe / 100 + doy;
    let days = era * 146097 + doe;
    (days + 3) % 7
}

/// An invalid month handed to the day-count query.
#[derive(Debug, Clone, PartialEq, Eq, Structural)]
pub struct CalendarError {
    pub year: i32,
    pub month: u32,
}

/// The number of days in the given month: 28 through 31, with February
/// lengthened in leap years.  A month outside 1 through 12 is the error.
pub fn last_day_in_month(year: i32, month: u32) -> (r: Result<u32, CalendarError>)
    requires
        1 <= year <= 9999,
    ensures
        1 <= month <= 12 ==> r == Ok::<u32, CalendarError>(
            spec_days_in_month(year as int, month as int) as u32,
        ),
        !(1 <= month <= 12) ==> r == Err::<u32, CalendarError>(CalendarError { year, month }),
{
    if month < 1 || month > 12 {
        return Err(CalendarError { year, month });
    }
    if month == 2 {
        let leap = year % 4 == 0 && (year % 100 != 0 || year % 400 == 0);
        if leap {
            Ok(29)
        } else {
            Ok(28)
        }
    } else if month == 4 || month == 6 || month == 9 || month == 11 {
        Ok(30)
    } else {
        Ok(31)
    }
}

/// Computes the first weekday of a month, in days from Sunday.
fn first_weekday(year: i32, month: u32) -> (r: u32)
    requires
        1 <= year <= 9999,
        1 <= month <= 12,
    ensures
        r == spec_first_weekday(year as int, month as int),
        r < 7,
{
    let y: u64 = if month <= 2 {
        (year - 1) as u64
    } else {
        year as u64
    };
    let era: u64 = y / 400;
    let yoe: u64 = y - era * 400;
    let mp: u64 = ((month as u64) + 9) % 12;
    let doy: u64 = (153 * mp + 2) / 5;
    let doe: u64 = yoe * 365 + yoe / 4 - yoe / 100 + doy;
    let days: u64 = era * 146097 + doe;
    ((days + 3) % 7) as u32
}

/// The capitalised English name of month `m`.
pub open spec fn spec_month_title(m: int) -> Seq<char> {
    if m == 1 {
        "January"@
    } else if m == 2 {
        "February"@
    } else if m == 3 {
        "March"@
    } else if m == 4 {
        "April"@
    } else if m == 5 {
        "May"@
    } else if m == 6 {
        "June"@
    } else if m == 7 {
        "July"@
    } else if m == 8 {
        "August"@
    } else if m == 9 {
        "September"@
    } else if m == 10 {
        "October"@
    } else if m == 11 {
        "November"@
    } else if m == 12 {
        "December"@
    } else {
        Seq::empty()
    }
}

fn month_title(m: u32) -> (r: &'static str)
    requires
        1 <= m <= 12,
    ensures
        r@ == spec_month_title(m as int),
{
    if m == 1 {
        "January"
    } else if m == 2 {
        "February"
    } else if m == 3 {
        "March"
    } else if m == 4 {
        "April"
    } else if m == 5 {
        "May"
    } else if m == 6 {
        "June"
    } else if m == 7 {
        "July"
    } else if m == 8 {
        "August"
    } else if m == 9 {
        "September"
    } else if m == 10 {
        "October"
    } else if m == 11 {
        "November"
    } else {
        "December"
    }
}

/// A line padded with spaces to the 20-column width, when it is shorter.
pub open spec fn pad20(s: Seq<char>) -> Seq<char> {
    if s.len() < 20 {
        s + spaces(20 - s.len())
    } else {
        s
    }
}

/// Text centred in a fixed width, with any odd space going to the right.
pub open spec fn centered(s: Seq<char>, width: int) -> Seq<char> {
    if s.len() >= width {
        s
    } else {
        let left = (width - s.len()) / 2;
        spaces(left) + s + spaces(width - s.len() - left)
    }
}

/// A title centred in the 20-column width.
pub open spec fn center20(s: Seq<char>) -> Seq<char> {
    centered(s, 20)
}

/// The escape that turns reverse video on.
pub open spec fn rv_open() -> Seq<char> {
    "\u{1b}[7m"@
}

/// The escape that turns reverse video off.
pub open spec fn rv_close() -> Seq<char> {
    "\u{1b}[0m"@
}

/// A day number in a two-column cell, right-aligned.
pub open spec fn spec_w2(d: int) -> Seq<char> {
    if d < 10 {
        seq![' '] + dec_str(d)
    } else {
        dec_str(d)
    }
}

/// A day cell: the two-column day, wrapped in reverse video when it is
/// the highlighted day.
pub open spec fn spec_day_cell(d: int, hl: int) -> Seq<char> {
    if d == hl {
        rv_open() + spec_w2(d) + rv_close()
    } else {
        spec_w2(d)
    }
}

/// The content that grid cell `idx` (numbered row by row) contributes to
/// its line: three spaces before the month's first day; the day cell with
/// a column separator inside the month, the separator dropped in the last
/// column; nothing after the month's last day.
pub open spec fn spec_cell(start_wd: int, ndays: int, hl: int, idx: int) -> Seq<char> {
    let d = idx - start_wd + 1;
    if idx < start_wd {
        seq![' ', ' ', ' ']
    } else if d <= ndays {
        spec_day_cell(d, hl) + if idx % 7 == 6 {
            Seq::empty()
        } else {
            seq![' ']
        }
    } else {
        Seq::empty()
    }
}

/// The cells of grid row `r` from column `c` on, concatenated.
pub open spec fn spec_row_cells(start_wd: int, ndays: int, hl: int, r: int, c: int) -> Seq<char>
    decreases 7 - c,
{
    if c >= 7 {
        Seq::empty()
    } else {
        spec_cell(start_wd, ndays, hl, 7 * r + c) + spec_row_cells(start_wd, ndays, hl, r, c + 1)
    }
}

/// The header line of a month: the month's name, with the year when
/// requested, centred in the 20-column width.
pub open spec fn spec_month_header(year: int, month: int, print_year: bool) -> Seq<char> {
    let title = if print_year {
        spec_month_title(month) + seq![' '] + dec_str(year)
    } else {
        spec_month_title(month)
    };
    center20(title)
}

/// The full month grid: the header, the weekday line, one padded line per
/// started week, and a blank line when that leaves fewer than eight.
pub open spec fn spec_format_month(year: int, month: int, print_year: bool, hl: int) -> Seq<
    Seq<char>,
> {
    let start_wd = spec_first_weekday(year, month);
    let ndays = spec_days_in_month(year, month);
    let complete = (start_wd + ndays) / 7;
    let day_rows = Seq::new(
        (complete + 1) as nat,
        |r: int| pad20(spec_row_cells(start_wd, ndays, hl, r, 0)),
    );
    let rows = seq![
        spec_month_header(year, month, print_year),
        "Su Mo Tu We Th Fr Sa"@,
    ] + day_rows;
    if rows.len() < 8 {
        rows + seq![spaces(20)]
    } else {
        rows
    }
}

/// The day of `today` to highlight inside the given month: its day number
/// when it falls in that month, and otherwise no day at all.
pub open spec fn month_hl(year: int, month: int, today: CivilDate) -> int {
    if today.year == year && today.month == month {
        today.day as int
    } else {
        0
    }
}

/// A month grid always has eight lines.
pub proof fn lemma_format_month_len(year: int, month: int, print_year: bool, hl: int)
    requires
        1 <= month <= 12,
    ensures
        spec_format_month(year, month, print_year, hl).len() == 8,
{
    let start_wd = spec_first_weekday(year, month);
    let ndays = spec_days_in_month(year, month);
    assert(0 <= start_wd < 7);
    assert(28 <= ndays <= 31);
    assert(4 <= (start_wd + ndays) / 7 <= 5);
}

/// Line `k` of a year's output, after its two header lines: the rows of
/// three months side by side, quarter by quarter, joined by three spaces.
pub open spec fn spec_year_line(year: int, today: CivilDate, k: int) -> Seq<char> {
    let q = k / 8;
    let r = k % 8;
    spec_format_month(year, 3 * q + 1, false, month_hl(year, 3 * q + 1, today))[r] + "   "@
        + spec_format_month(year, 3 * q + 2, false, month_hl(year, 3 * q + 2, today))[r] + "   "@
        + spec_format_month(year, 3 * q + 3, false, month_hl(year, 3 * q + 3, today))[r]
}

/// A whole year's output: the year number centred in 66 columns, an empty
/// line, then the twelve month grids in four rows of three.
pub open spec fn spec_format_year(year: int, today: CivilDate) -> Seq<Seq<char>> {
    seq![centered(dec_str(year), 66), Seq::<char>::empty()] + Seq::new(
        32,
        |k: int| spec_year_line(year, today, k),
    )
}

/// Relies on `ansi_term`'s reverse style: painting text with it wraps the
/// text in the reverse-video escape codes.
#[verifier::external_body]
fn reverse_video(v: &Vec<char>) -> (r: Vec<char>)
    ensures
        r@ == rv_open() + v@ + rv_close(),
{
    let s: String = v.iter().collect();
    let painted = ansi_term::Style::new().reverse().paint(s).to_string();
    painted.chars().collect()
}

fn w2_chars(d: u32) -> (r: Vec<char>)
    ensures
        r@ == spec_w2(d as int),
{
    let digits = to_decimal_chars(d as u64);
    if d < 10 {
        let mut r: Vec<char> = Vec::new();
        r.push(' ');
        crate::chars::append_chars(&mut r, &digits);
        proof {
            assert(r@ =~= spec_w2(d as int));
        }
        r
    } else {
        digits
    }
}

fn day_cell_chars(d: u32, hl: u32) -> (r: Vec<char>)
    ensures
        r@ == spec_day_cell(d as int, hl as int),
{
    let w = w2_chars(d);
    if d == hl {
        reverse_video(&w)
    } else {
        w
    }
}

fn row_chars(start_wd: u32, ndays: u32, hl: u32, r: u32) -> (out: Vec<char>)
    requires
        start_wd < 7,
        ndays <= 31,
        r <= 6,
    ensures
        out@ == spec_row_cells(start_wd as int, ndays as int, hl as int, r as int, 0),
{
    let mut out: Vec<char> = Vec::new();
    let mut c: u32 = 0;
    while c < 7
        invariant
            c <= 7,
            start_wd < 7,
            ndays <= 31,
            r <= 6,
            spec_row_cells(start_wd as int, ndays as int, hl as int, r as int, 0) == out@
                + spec_row_cells(start_wd as int, ndays as int, hl as int, r as int, c as int),
        decreases 7 - c,
    {
        let idx = 7 * r + c;
        if idx < start_wd {
            out.push(' ');
            out.push(' ');
            out.push(' ');
        } else {
            let d = idx - start_wd + 1;
            if d <= ndays {
                let cell = day_cell_chars(d, hl);
                crate::chars::append_chars(&mut out, &cell);
                if c != 6 {
                    out.push(' ');
                }
            }
        }
        c = c + 1;
    }
    proof {
        assert(spec_row_cells(start_wd as int, ndays as int, hl as int, r as int, 7)
            =~= Seq::<char>::empty());
        assert(out@ =~= spec_row_cells(start_wd as int, ndays as int, hl as int, r as int, 0));
    }
    out
}

/// Lays out one month as its eight 20-column lines: a centred title (with
/// the year when requested), the weekday header, and the weeks, with
/// `today` shown in reverse video when it falls inside this month.
pub fn format_month(year: i32, month: u32, print_year: bool, today: &CivilDate) -> (r: Vec<
    String,
>)
    requires
        1 <= year <= 9999,
        1 <= month <= 12,
    ensures
        r.deep_view() == spec_format_month(
            year as int,
            month as int,
            print_year,
            if today.year == year && today.month == month {
                today.day as int
            } else {
                0int
            },
        ),
{
    let ghost ghl: int = if today.year == year && today.month == month {
        today.day as int
    } else {
        0int
    };
    let hl: u32 = if today.year == year && today.month == month {
        today.day
    } else {
        0
    };
    let start_wd = first_weekday(year, month);
    let ndays = match last_day_in_month(year, month) {
        Ok(n) => n,
        Err(_) => 0,
    };
    proof {
        assert(ndays == spec_days_in_month(year as int, month as int));
    }

    // The title, centred in the 20-column width.
    let mut title: Vec<char> = Vec::new();
    let name = chars_of(month_title(month));
    crate::chars::append_chars(&mut title, &name);
    if print_year {
        title.push(' ');
        let ydigits = to_decimal_chars(year as u64);
        crate::chars::append_chars(&mut title, &ydigits);
    }
    let tlen = title.len();
    let mut header: Vec<char> = Vec::new();
    if tlen >= 20 {
        header = title;
    } else {
        let left = (20 - tlen) / 2;
        push_spaces(&mut header, left);
        crate::chars::append_chars(&mut header, &title);
        push_spaces(&mut header, 20 - tlen - left);
    }
    proof {
        assert(header@ =~= spec_month_header(year as int, month as int, print_year));
    }

    let mut rows: Vec<String> = Vec::new();
    rows.push(chars_to_string(&header));
    let weekdays = chars_of("Su Mo Tu We Th Fr Sa");
    rows.push(chars_to_string(&weekdays));
    proof {
        assert(rows.deep_view() =~~= seq![
            spec_month_header(year as int, month as int, print_year),
            "Su Mo Tu We Th Fr Sa"@,
        ]);
    }

    let complete = (start_wd + ndays) / 7;
    let ghost sw = start_wd as int;
    let ghost nd = ndays as int;
    let mut rnum: u32 = 0;
    while rnum <= complete
        invariant
            complete == (sw + nd) / 7,
            start_wd as int == sw,
            ndays as int == nd,
            0 <= sw < 7,
            0 <= nd <= 31,
            hl as int == ghl,
            rnum <= complete + 1,
            rows.deep_view() =~~= seq![
                spec_month_header(year as int, month as int, print_year),
                "Su Mo Tu We Th Fr Sa"@,
            ] + Seq::new(rnum as nat, |i: int| pad20(spec_row_cells(sw, nd, ghl, i, 0))),
        decreases complete + 1 - rnum,
    {
        let mut row = row_chars(start_wd, ndays, hl, rnum);
        if row.len() < 20 {
            let missing = 20 - row.len();
            push_spaces(&mut row, missing);
        }
        proof {
            assert(row@ =~= pad20(spec_row_cells(sw, nd, ghl, rnum as int, 0)));
        }
        let ghost before = rows.deep_view();
        rows.push(chars_to_string(&row));
        proof {
            assert(rows.deep_view() =~~= before.push(row@));
            assert(rows.deep_view() =~~= seq![
                spec_month_header(year as int, month as int, print_year),
                "Su Mo Tu We Th Fr Sa"@,
            ] + Seq::new((rnum + 1) as nat, |i: int| pad20(spec_row_cells(sw, nd, ghl, i, 0))));
        }
        rnum = rnum + 1;
    }

    if rows.len() < 8 {
        let mut blank: Vec<char> = Vec::new();
        push_spaces(&mut blank, 20);
        let ghost before = rows.deep_view();
        rows.push(chars_to_string(&blank));
        proof {
            assert(rows.deep_view() =~~= before.push(spaces(20)));
        }
    }
    proof {
        assert(rows.deep_view() =~~= spec_format_month(year as int, month as int, print_year, ghl));
    }
    rows
}

/// Lays out a whole year: the year number centred in 66 columns, an empty
/// line, and the twelve months in four bands of three, each band's grids
/// joined line by line with three spaces between columns.
pub fn format_year(year: i32, today: &CivilDate) -> (r: Vec<String>)
    requires
        1 <= year <= 9999,
    ensures
        r.deep_view() == spec_format_year(year as int, *today),
{
    let mut rows: Vec<String> = Vec::new();
    let ydigits = to_decimal_chars(year as u64);
    let mut head: Vec<char> = Vec::new();
    let ylen = ydigits.len();
    proof {
        crate::chars::lemma_spaces_len(66 - ylen);
        crate::chars::lemma_spaces_len(66 - ylen - (66 - ylen) / 2);
    }
    if ylen >= 66 {
        crate::chars::append_chars(&mut head, &ydigits);
    } else {
        let left = (66 - ylen) / 2;
        push_spaces(&mut head, left);
        crate::chars::append_chars(&mut head, &ydigits);
        push_spaces(&mut head, 66 - ylen - left);
    }
    proof {
        assert(head@ =~= centered(dec_str(year as int), 66));
    }
    rows.push(chars_to_string(&head));
    rows.push(String::new());
    proof {
        assert(rows.deep_view() =~~= seq![
            centered(dec_str(year as int), 66),
            Seq::<char>::empty(),
        ]);
    }

    let mut q: u32 = 0;
    while q < 4
        invariant
            q <= 4,
            1 <= year <= 9999,
            rows.deep_view() =~~= seq![
                centered(dec_str(year as int), 66),
                Seq::<char>::empty(),
            ] + Seq::new((8 * q) as nat, |k: int| spec_year_line(year as int, *today, k)),
        decreases 4 - q,
    {
        let m1 = format_month(year, 3 * q + 1, false, today);
        let m2 = format_month(year, 3 * q + 2, false, today);
        let m3 = format_month(year, 3 * q + 3, false, today);
        proof {
            lemma_format_month_len(
                year as int,
                3 * q + 1,
                false,
                month_hl(year as int, 3 * q + 1, *today),
            );
            lemma_format_month_len(
                year as int,
                3 * q + 2,
                false,
                month_hl(year as int, 3 * q + 2, *today),
            );
            lemma_format_month_len(
                year as int,
                3 * q + 3,
                false,
                month_hl(year as int, 3 * q + 3, *today),
            );
            assert(m1@.len() == m1.deep_view().len());
            assert(m2@.len() == m2.deep_view().len());
            assert(m3@.len() == m3.deep_view().len());
        }
        let mut rr: usize = 0;
        while rr < 8
            invariant
                rr <= 8,
                q < 4,
                m1.deep_view() == spec_format_month(
                    year as int,
                    3 * (q as int) + 1,
                    false,
                    month_hl(year as int, 3 * (q as int) + 1, *today),
                ),
                m2.deep_view() == spec_format_month(
                    year as int,
                    3 * (q as int) + 2,
                    false,
                    month_hl(year as int, 3 * (q as int) + 2, *today),
                ),
                m3.deep_view() == spec_format_month(
                    year as int,
                    3 * (q as int) + 3,
                    false,
                    month_hl(year as int, 3 * (q as int) + 3, *today),
                ),
                m1@.len() == 8 && m2@.len() == 8 && m3@.len() == 8,
                rows.deep_view() =~~= seq![
                    centered(dec_str(year as int), 66),
                    Seq::<char>::empty(),
                ] + Seq::new(
                    (8 * q + rr) as nat,
                    |k: int| spec_year_line(year as int, *today, k),
                ),
            decreases 8 - rr,
        {
            let mut line: Vec<char> = Vec::new();
            let p1 = chars_of(m1[rr].as_str());
            crate::chars::append_chars(&mut line, &p1);
            let sep1 = chars_of("   ");
            crate::chars::append_chars(&mut line, &sep1);
            let p2 = chars_of(m2[rr].as_str());
            crate::chars::append_chars(&mut line, &p2);
            let sep2 = chars_of("   ");
            crate::chars::append_chars(&mut line, &sep2);
            let p3 = chars_of(m3[rr].as_str());
            crate::chars::append_chars(&mut line, &p3);
            proof {
                let k = 8 * (q as int) + rr;
                assert(k / 8 == q as int && k % 8 == rr as int);
                assert(m1.deep_view()[rr as int] == m1@[rr as int]@);
                assert(m2.deep_view()[rr as int] == m2@[rr as int]@);
                assert(m3.deep_view()[rr as int] == m3@[rr as int]@);
                assert(line@ =~= spec_year_line(year as int, *today, k));
            }
            let ghost before = rows.deep_view();
            rows.push(chars_to_string(&line));
            proof {
                assert(rows.deep_view() =~~= before.push(line@));
                assert(rows.deep_view() =~~= seq![
                    centered(dec_str(year as int), 66),
                    Seq::<char>::empty(),
                ] + Seq::new(
                    (8 * q + rr + 1) as nat,
                    |k: int| spec_year_line(year as int, *today, k),
                ));
            }
            rr = rr + 1;
        }
        q = q + 1;
    }
    proof {
        assert(rows.deep_view() =~~= spec_format_year(year as int, *today));
    }
    rows
}

} // verus!
