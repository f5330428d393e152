//! Character-level access to strings.
//!
//! The verified parsers in this crate work over vectors of characters, whose
//! contents Verus can reason about directly.  [`chars_of`] turns a string
//! slice into such a vector, and [`chars_to_string`] turns one back.

use vstd::prelude::*;

verus! {

/// Collects the characters of a string slice into a vector, in order.
pub fn chars_of(s: &str) -> (v: Vec<char>)
    ensures
        v@ == s@,
{
    broadcast use vstd::string::group_string_axioms;

    let mut v: Vec<char> = Vec::new();
    for c in it: s.chars()
        invariant
            v@ =~= it.seq().subrange(0, it.index()),
    {
        v.push(c);
    }
    proof {
        assert(v@ =~= s@);
    }
    v
}

/// Relies on `String`'s `FromIterator<char>` impl, which the std
/// documentation describes as building a string from the characters in
/// order: the result views as exactly the input characters.
#[verifier::external_body]
pub fn chars_to_string(v: &Vec<char>) -> (s: String)
    ensures
        s@ == v@,
{
    v.iter().collect()
}

/// The parts of `s` between occurrences of `sep`: always at least one
/// part, with an empty part for each leading, trailing or doubled
/// separator.
pub open spec fn split_on(s: Seq<char>, sep: char) -> Seq<Seq<char>>
    decreases s.len(),
{
    if s.len() == 0 {
        seq![Seq::<char>::empty()]
    } else {
        let rest = split_on(s.drop_first(), sep);
        if s.first() == sep {
            seq![Seq::<char>::empty()] + rest
        } else {
            seq![seq![s.first()] + rest.first()] + rest.drop_first()
        }
    }
}

pub proof fn lemma_split_on_len(s: Seq<char>, sep: char)
    ensures
        split_on(s, sep).len() >= 1,
    decreases s.len(),
{
    if s.len() > 0 {
        lemma_split_on_len(s.drop_first(), sep);
    }
}

/// Splits a character vector on a separator, yielding the parts in order.
pub fn split_char(v: &Vec<char>, sep: char) -> (parts: Vec<Vec<char>>)
    ensures
        parts.deep_view() == split_on(v@, sep),
{
    let mut parts: Vec<Vec<char>> = Vec::new();
    let mut cur: Vec<char> = Vec::new();
    let mut i: usize = 0;
    proof {
        assert(v@.subrange(0, v@.len() as int) =~= v@);
        lemma_split_on_len(v@, sep);
    }
    while i < v.len()
        invariant
            i <= v@.len(),
            split_on(v@.subrange(i as int, v@.len() as int), sep).len() >= 1,
            split_on(v@, sep) =~~= parts.deep_view() + seq![
                cur@ + split_on(v@.subrange(i as int, v@.len() as int), sep).first(),
            ] + split_on(v@.subrange(i as int, v@.len() as int), sep).drop_first(),
        decreases v@.len() - i,
    {
        let ghost suffix = v@.subrange(i as int, v@.len() as int);
        let ghost next = v@.subrange(i + 1, v@.len() as int);
        proof {
            assert(suffix.first() == v@[i as int]);
            assert(suffix.drop_first() =~= next);
            lemma_split_on_len(next, sep);
        }
        let c = v[i];
        if c == sep {
            let ghost pdv = parts.deep_view();
            let ghost fv = cur@;
            let finished = cur;
            cur = Vec::new();
            parts.push(finished);
            proof {
                assert(parts.deep_view() =~~= pdv.push(fv));
            }
        } else {
            cur.push(c);
        }
        i = i + 1;
        proof {
            assert(split_on(v@, sep) =~~= parts.deep_view() + seq![
                cur@ + split_on(v@.subrange(i as int, v@.len() as int), sep).first(),
            ] + split_on(v@.subrange(i as int, v@.len() as int), sep).drop_first());
        }
    }
    proof {
        let suffix = v@.subrange(i as int, v@.len() as int);
        assert(suffix.len() == 0);
        assert(split_on(suffix, sep) =~~= seq![Seq::<char>::empty()]);
    }
    let ghost pdv = parts.deep_view();
    let ghost fv = cur@;
    parts.push(cur);
    proof {
        assert(parts.deep_view() =~~= pdv.push(fv));
        assert(parts.deep_view() =~~= split_on(v@, sep));
    }
    parts
}

/// Appends the characters of `src` to `dst`.
pub fn append_chars(dst: &mut Vec<char>, src: &Vec<char>)
    ensures
        final(dst)@ == old(dst)@ + src@,
{
    let mut i: usize = 0;
    while i < src.len()
        invariant
            i <= src@.len(),
            dst@ == old(dst)@ + src@.subrange(0, i as int),
        decreases src@.len() - i,
    {
        proof {
            assert(src@.subrange(0, i + 1) =~= src@.subrange(0, i as int).push(src@[i as int]));
        }
        dst.push(src[i]);
        i = i + 1;
    }
    proof {
        assert(src@.subrange(0, src@.len() as int) =~= src@);
        assert(dst@ =~= old(dst)@ + src@);
    }
}

/// A run of `n` spaces.
pub open spec fn spaces(n: int) -> Seq<char>
    decreases n,
{
    if n <= 0 {
        Seq::empty()
    } else {
        seq![' '] + spaces(n - 1)
    }
}

pub proof fn lemma_spaces_len(n: int)
    ensures
        n >= 0 ==> spaces(n).len() == n,
        n < 0 ==> spaces(n).len() == 0,
    decreases n,
{
    if n > 0 {
        lemma_spaces_len(n - 1);
    }
}

pub fn push_spaces(v: &mut Vec<char>, n: usize)
    ensures
        final(v)@ == old(v)@ + spaces(n as int),
{
    let mut k: usize = 0;
    proof {
        lemma_spaces_len(n as int);
    }
    while k < n
        invariant
            k <= n,
            spaces(n as int).len() == n,
            v@ == old(v)@ + spaces(n as int).subrange(0, k as int),
        decreases n - k,
    {
        proof {
            lemma_spaces_len(n as int);
            lemma_spaces_len(k as int);
            assert(spaces(n as int)[k as int] == ' ') by {
                lemma_spaces_index(n as int, k as int);
            }
            assert(spaces(n as int).subrange(0, k + 1) =~= spaces(n as int).subrange(
                0,
                k as int,
            ).push(' '));
        }
        v.push(' ');
        k = k + 1;
    }
    proof {
        assert(spaces(n as int).subrange(0, n as int) =~= spaces(n as int));
    }
}

pub proof fn lemma_spaces_index(n: int, k: int)
    requires
        0 <= k < n,
    ensures
        spaces(n).len() == n && spaces(n)[k] == ' ',
    decreases n,
{
    lemma_spaces_len(n);
    if k > 0 {
        lemma_spaces_index(n - 1, k - 1);
    } else {
        lemma_spaces_len(n - 1);
    }
}

/// Strict lexicographic order on character sequences, by code point: the
/// sequences agree up to some position where the left one is smaller, or
/// the left one is a proper prefix of the right.
pub open spec fn lex_less(a: Seq<char>, b: Seq<char>) -> bool {
    (exists|i: int|
        0 <= i < a.len() && i < b.len() && a.subrange(0, i) == b.subrange(0, i) && (a[i] as u32)
            < (b[i] as u32)) || (a.len() < b.len() && a == b.subrange(0, a.len() as int))
}

/// Compares two character vectors lexicographically: `-1`, `0` or `1` as
/// the first is below, equal to or above the second.
pub fn cmp_chars(a: &Vec<char>, b: &Vec<char>) -> (r: i8)
    ensures
        (r == 0i8) <==> a@ == b@,
        lex_less(a@, b@) ==> r == -1i8,
        lex_less(b@, a@) ==> r == 1i8,
        r == -1i8 ==> !lex_less(b@, a@),
        r == 1i8 ==> !lex_less(a@, b@),
{
    let mut i: usize = 0;
    while i < a.len() && i < b.len() && a[i] == b[i]
        invariant
            i <= a@.len(),
            i <= b@.len(),
            forall|j: int| 0 <= j < i ==> a@[j] == b@[j],
        decreases a@.len() - i,
    {
        i = i + 1;
    }
    proof {
        assert(a@.subrange(0, i as int) =~= b@.subrange(0, i as int));
        assert forall|k: int|
            0 <= k < i implies a@.subrange(0, k) =~= b@.subrange(0, k) && a@[k] == b@[k] by {
            assert(a@.subrange(0, k) =~= b@.subrange(0, k));
        }
    }
    if i < a.len() && i < b.len() {
        let ca = a[i] as u32;
        let cb = b[i] as u32;
        proof {
            assert(a@[i as int] != b@[i as int]);
            assert forall|k: int|
                0 <= k < a@.len() && k < b@.len() && a@.subrange(0, k) == b@.subrange(0, k)
                    implies k == i || (k < i && a@[k] == b@[k]) by {
                if k > i {
                    assert(a@.subrange(0, k)[i as int] == b@.subrange(0, k)[i as int]);
                }
            }
            if a@.len() < b@.len() && a@ == b@.subrange(0, a@.len() as int) {
                assert(a@[i as int] == b@.subrange(0, a@.len() as int)[i as int]);
            }
            if b@.len() < a@.len() && b@ == a@.subrange(0, b@.len() as int) {
                assert(b@[i as int] == a@.subrange(0, b@.len() as int)[i as int]);
            }
        }
        if ca < cb {
            return -1;
        } else if cb < ca {
            proof {
                assert(b@.subrange(0, i as int) =~= a@.subrange(0, i as int));
                assert((b@[i as int] as u32) < (a@[i as int] as u32));
            }
            return 1;
        } else {
            return 1;
        }
    }
    proof {
        assert forall|k: int|
            0 <= k < a@.len() && k < b@.len() && a@.subrange(0, k) == b@.subrange(0, k)
                implies a@[k] == b@[k] by {
            assert(k < i);
        }
    }
    if a.len() == b.len() {
        proof {
            assert(a@ =~= b@);
        }
        0
    } else if a.len() < b.len() {
        proof {
            assert(a@ =~= b@.subrange(0, a@.len() as int));
        }
        -1
    } else {
        proof {
            assert(b@ =~= a@.subrange(0, b@.len() as int));
        }
        1
    }
}

/// The lower-case form of a character sequence, as `str::to_lowercase`
/// computes it.  The full Unicode folding takes pages to state, so it is
/// only named here; it depends on the characters alone.
pub uninterp spec fn lower_of(s: Seq<char>) -> Seq<char>;

/// Relies on `str::to_lowercase`: the result is the lower-case form of the
/// input, a function of the characters alone, and an empty input stays
/// empty.
#[verifier::external_body]
pub fn to_lowercase(s: &str) -> (r: String)
    ensures
        r@ == lower_of(s@),
        s@.len() == 0 ==> r@.len() == 0,
{
    s.to_lowercase()
}

} // verus!
