//! Run-length grouping of adjacent equal lines: the core of the
//! duplicate-line utility.

use vstd::prelude::*;

use crate::chars::{append_chars, chars_of, chars_to_string, push_spaces, spaces};
use crate::digits::{dec_str, to_decimal_chars};

verus! {

/// The groups of adjacent equal lines, in order: each group's length and
/// its line.
pub open spec fn spec_uniq(lines: Seq<Seq<char>>) -> Seq<(int, Seq<char>)>
    decreases lines.len(),
{
    if lines.len() == 0 {
        Seq::empty()
    } else {
        let rest = spec_uniq(lines.drop_first());
        if rest.len() > 0 && rest.first().1 == lines.first() {
            seq![(rest.first().0 + 1, lines.first())] + rest.drop_first()
        } else {
            seq![(1int, lines.first())] + rest
        }
    }
}

/// A run of `c` copies of one line.
pub open spec fn line_run(v: Seq<char>, c: int) -> Seq<Seq<char>> {
    Seq::new(c as nat, |i: int| v)
}

/// A pending run of `c` equal lines, followed by lines that do not extend
/// it, groups as that run and then the rest.
proof fn lemma_uniq_run(v: Seq<char>, c: int, s: Seq<Seq<char>>)
    requires
        c >= 1,
        s.len() == 0 || s.first() != v,
    ensures
        spec_uniq(line_run(v, c) + s) == seq![(c, v)] + spec_uniq(s),
    decreases c,
{
    let whole = line_run(v, c) + s;
    assert(whole.len() == c + s.len());
    assert(whole.first() == v);
    if c == 1 {
        assert(whole.drop_first() =~~= s);
        if s.len() > 0 {
            assert(spec_uniq(s).first().1 == s.first());
        }
        assert(spec_uniq(whole) =~~= seq![(1int, v)] + spec_uniq(s));
    } else {
        lemma_uniq_run(v, c - 1, s);
        assert(whole.drop_first() =~~= line_run(v, c - 1) + s);
        let rest = spec_uniq(line_run(v, c - 1) + s);
        assert(rest == seq![(c - 1, v)] + spec_uniq(s));
        assert(rest.first() == (c - 1, v));
        assert(rest.drop_first() =~~= spec_uniq(s));
        assert(spec_uniq(whole) =~~= seq![(c, v)] + spec_uniq(s));
    }
}

/// Groups adjacent equal lines, keeping their order of first appearance:
/// each group comes out once, with the number of adjacent copies it had.
pub fn uniq_counts(lines: &Vec<String>) -> (r: Vec<(usize, String)>)
    ensures
        r@.len() == spec_uniq(lines.deep_view()).len(),
        forall|j: int|
            0 <= j < r@.len() ==> (#[trigger] r@[j]).0 == spec_uniq(lines.deep_view())[j].0
                && r@[j].1@ == spec_uniq(lines.deep_view())[j].1,
{
    let ghost ldv = lines.deep_view();
    let ghost target = spec_uniq(ldv);
    let mut out: Vec<(usize, String)> = Vec::new();
    if lines.len() == 0 {
        proof {
            assert(ldv.len() == 0);
        }
        return out;
    }
    let mut prev: String = lines[0].clone();
    let mut count: usize = 1;
    let mut i: usize = 1;
    proof {
        assert(line_run(ldv[0], 1) + ldv.skip(1) =~~= ldv);
        assert(ldv.skip(0) =~~= ldv);
    }
    while i < lines.len()
        invariant
            1 <= i <= ldv.len(),
            ldv == lines.deep_view(),
            lines@.len() == ldv.len(),
            target == spec_uniq(ldv),
            1 <= count <= i,
            prev@ == ldv[i - 1],
            target =~~= out@.map_values((|p: (usize, String)| (p.0 as int, p.1@)))
                + spec_uniq(line_run(prev@, count as int) + ldv.skip(i as int)),
        decreases ldv.len() - i,
    {
        proof {
            assert(ldv.skip(i as int)[0] == lines@[i as int]@);
            assert(ldv.skip(i as int).drop_first() =~~= ldv.skip(i + 1));
        }
        if lines[i] == prev {
            count = count + 1;
            proof {
                assert(line_run(prev@, count as int) + ldv.skip(i + 1) =~~= line_run(
                    prev@,
                    (count - 1) as int,
                ) + ldv.skip(i as int));
            }
        } else {
            proof {
                lemma_uniq_run(prev@, count as int, ldv.skip(i as int));
            }
            let ghost before = out@.map_values(|p: (usize, String)| (p.0 as int, p.1@));
            let ghost pv = prev@;
            let ghost pc = count as int;
            let next = lines[i].clone();
            out.push((count, prev));
            prev = next;
            count = 1;
            proof {
                assert(out@.map_values(|p: (usize, String)| (p.0 as int, p.1@)) =~~= before.push(
                    (pc, pv),
                ));
                assert(line_run(prev@, 1) + ldv.skip(i + 1) =~~= ldv.skip(i as int));
                assert(before + (seq![(pc, pv)] + spec_uniq(ldv.skip(i as int))) =~~= before.push(
                    (pc, pv),
                ) + spec_uniq(ldv.skip(i as int)));
            }
        }
        i = i + 1;
    }
    proof {
        assert(ldv.skip(i as int).len() == 0);
        lemma_uniq_run(prev@, count as int, ldv.skip(i as int));
        assert(line_run(prev@, count as int) + ldv.skip(i as int) =~~= line_run(
            prev@,
            count as int,
        ));
        assert(spec_uniq(line_run(prev@, count as int) + ldv.skip(i as int)) =~~= seq![
            (count as int, prev@),
        ] + spec_uniq(ldv.skip(i as int)));
    }
    let ghost before = out@.map_values(|p: (usize, String)| (p.0 as int, p.1@));
    let ghost pv = prev@;
    let ghost pc = count as int;
    out.push((count, prev));
    proof {
        assert(out@.map_values(|p: (usize, String)| (p.0 as int, p.1@)) =~~= before.push(
            (pc, pv),
        ));
        assert(spec_uniq(ldv.skip(ldv.len() as int)) =~~= Seq::<(int, Seq<char>)>::empty());
        assert(before.push((pc, pv)) =~~= target);
        assert forall|j: int| 0 <= j < out@.len() implies (#[trigger] out@[j]).0 == target[j].0
            && out@[j].1@ == target[j].1 by {
            assert(out@.map_values(|p: (usize, String)| (p.0 as int, p.1@))[j] == (
                out@[j].0 as int,
                out@[j].1@,
            ));
        }
    }
    out
}

/// A counted output line: the count right-aligned in seven columns, one
/// space, then the line.
pub open spec fn spec_count_line(count: int, line: Seq<char>) -> Seq<char> {
    let d = dec_str(count);
    (if d.len() < 7 {
        spaces(7 - d.len()) + d
    } else {
        d
    }) + seq![' '] + line
}

/// Renders one group for counted output: the count right-aligned in seven
/// columns, a space, and the line.
pub fn format_count_line(count: usize, line: &str) -> (r: String)
    ensures
        r@ == spec_count_line(count as int, line@),
{
    let digits = to_decimal_chars(count as u64);
    let mut out: Vec<char> = Vec::new();
    if digits.len() < 7 {
        push_spaces(&mut out, 7 - digits.len());
    }
    append_chars(&mut out, &digits);
    out.push(' ');
    let lv = chars_of(line);
    append_chars(&mut out, &lv);
    proof {
        assert(out@ =~= spec_count_line(count as int, line@));
    }
    chars_to_string(&out)
}

} // verus!
