//! Unix permission formatting: a mode word rendered as the familiar
//! nine-character `rwxrwxrwx` string.

use vstd::prelude::*;

use crate::chars::chars_to_string;

verus! {

/// The `rwx` triple for the low three bits of `bits`.
pub open spec fn spec_triple(bits: u32) -> Seq<char> {
    seq![
        if bits & 4 != 0 {
            'r'
        } else {
            '-'
        },
        if bits & 2 != 0 {
            'w'
        } else {
            '-'
        },
        if bits & 1 != 0 {
            'x'
        } else {
            '-'
        },
    ]
}

/// The nine-character permission string of a mode word: the owner, group
/// and other triples, in that order.
pub open spec fn spec_format_mod(mode: u32) -> Seq<char> {
    spec_triple(mode >> 6) + spec_triple(mode >> 3) + spec_triple(mode)
}

fn push_triple(v: &mut Vec<char>, bits: u32)
    ensures
        final(v)@ == old(v)@ + spec_triple(bits),
{
    if bits & 4 != 0 {
        v.push('r');
    } else {
        v.push('-');
    }
    if bits & 2 != 0 {
        v.push('w');
    } else {
        v.push('-');
    }
    if bits & 1 != 0 {
        v.push('x');
    } else {
        v.push('-');
    }
    proof {
        assert(v@ =~= old(v)@ + spec_triple(bits));
    }
}

/// Renders a mode word as `"rwxr-x--x"`-style text: one `rwx` triple each
/// for owner, group and other, with `-` for each permission bit that is
/// clear.
pub fn format_mod(mode: u32) -> (r: String)
    ensures
        r@ == spec_format_mod(mode),
{
    let mut v: Vec<char> = Vec::new();
    push_triple(&mut v, mode >> 6);
    push_triple(&mut v, mode >> 3);
    push_triple(&mut v, mode);
    proof {
        assert(v@ =~= spec_format_mod(mode));
    }
    chars_to_string(&v)
}

} // verus!
