//! Line filtering against a compiled pattern: the grep core.
//!
//! The pattern engine is the `regex` crate; nothing is assumed about which
//! lines it matches.  The selection itself — keep the matching lines, or
//! the others when inverted, in order — is verified for every possible
//! answer the engine gives.

use vstd::prelude::*;

verus! {

#[verifier::external_type_specification]
#[verifier::external_body]
pub struct ExRegex(regex::Regex);

/// Relies on `regex::Regex::is_match`.  No property of the answer is
/// assumed; the selection logic is verified for either outcome.
#[verifier::external_body]
fn regex_is_match(re: &regex::Regex, line: &str) -> bool {
    re.is_match(line)
}

/// The lines selected by a match vector: line `i` stays exactly when
/// `matched[i]` differs from `invert`.
pub open spec fn spec_select(lines: Seq<Seq<char>>, matched: Seq<bool>, invert: bool) -> Seq<
    Seq<char>,
>
    decreases lines.len(),
{
    if lines.len() == 0 {
        Seq::empty()
    } else {
        (if matched[0] != invert {
            seq![lines[0]]
        } else {
            Seq::empty()
        }) + spec_select(lines.drop_first(), matched.drop_first(), invert)
    }
}

/// Keeps the lines whose match flag differs from `invert`, in order.
pub fn select_lines(lines: &Vec<String>, matched: &Vec<bool>, invert: bool) -> (r: Vec<String>)
    requires
        matched@.len() == lines@.len(),
    ensures
        r.deep_view() == spec_select(lines.deep_view(), matched@, invert),
{
    let mut r: Vec<String> = Vec::new();
    let mut i: usize = 0;
    let ghost all = lines.deep_view();
    let ghost flags = matched@;
    proof {
        assert(all.skip(0) =~~= all);
        assert(flags.skip(0) =~= flags);
    }
    while i < lines.len()
        invariant
            i <= lines@.len(),
            all == lines.deep_view(),
            flags == matched@,
            flags.len() == all.len(),
            lines@.len() == all.len(),
            spec_select(all, flags, invert) =~~= r.deep_view() + spec_select(
                all.skip(i as int),
                flags.skip(i as int),
                invert,
            ),
        decreases lines@.len() - i,
    {
        proof {
            assert(all.skip(i as int)[0] == lines@[i as int]@);
            assert(flags.skip(i as int)[0] == flags[i as int]);
            assert(all.skip(i as int).drop_first() =~~= all.skip(i + 1));
            assert(flags.skip(i as int).drop_first() =~= flags.skip(i + 1));
        }
        if matched[i] != invert {
            let ghost rdv = r.deep_view();
            r.push(lines[i].clone());
            proof {
                assert(r.deep_view() =~~= rdv.push(lines@[i as int]@));
            }
        }
        i = i + 1;
        proof {
            assert(spec_select(all, flags, invert) =~~= r.deep_view() + spec_select(
                all.skip(i as int),
                flags.skip(i as int),
                invert,
            ));
        }
    }
    proof {
        assert(spec_select(all.skip(i as int), flags.skip(i as int), invert) =~~= Seq::<
            Seq<char>,
        >::empty());
        assert(r.deep_view() =~~= spec_select(all, flags, invert));
    }
    r
}

/// Filters lines against a pattern: the lines the engine matches stay, or
/// the others when `invert` is set, in their original order.
pub fn find_lines(lines: &Vec<String>, pattern: &regex::Regex, invert: bool) -> (r: Vec<String>)
    ensures
        exists|m: Seq<bool>|
            m.len() == lines@.len() && r.deep_view() == spec_select(lines.deep_view(), m, invert),
{
    let mut matched: Vec<bool> = Vec::new();
    let mut i: usize = 0;
    while i < lines.len()
        invariant
            i <= lines@.len(),
            matched@.len() == i,
        decreases lines@.len() - i,
    {
        matched.push(regex_is_match(pattern, lines[i].as_str()));
        i = i + 1;
    }
    let r = select_lines(lines, &matched, invert);
    proof {
        assert(matched@.len() == lines@.len() && r.deep_view() == spec_select(
            lines.deep_view(),
            matched@,
            invert,
        ));
    }
    r
}

} // verus!
