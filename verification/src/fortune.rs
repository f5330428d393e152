//! Fortune collections: `%`-separated blocks of text, one picked at
//! random or filtered by a pattern.
//!
//! Reading files belongs to the surrounding program; this module parses
//! file contents, and the choice of a fortune is verified for every index
//! the random number generator can hand back.

use vstd::prelude::*;

use crate::chars::{chars_of, chars_to_string, split_on, split_char};
use crate::wc::{is_space, is_space_char};
use rand::SeedableRng;
use rand::distr::Distribution;

verus! {

/// One fortune: a block of text and the name of the source it came from.
#[derive(Debug)]
pub struct Fortune {
    pub source: String,
    pub text: String,
}

/// A collection of fortunes, in the order they were read.
pub struct Fortunes(Vec<Fortune>);

/// `s` without its leading whitespace.
pub open spec fn spec_trim_front(s: Seq<char>) -> Seq<char>
    decreases s.len(),
{
    if s.len() > 0 && is_space(s.first()) {
        spec_trim_front(s.drop_first())
    } else {
        s
    }
}

/// `s` without its trailing whitespace.
pub open spec fn spec_trim_back(s: Seq<char>) -> Seq<char>
    decreases s.len(),
{
    if s.len() > 0 && is_space(s.last()) {
        spec_trim_back(s.drop_last())
    } else {
        s
    }
}

/// `s` without leading and trailing whitespace.
pub open spec fn spec_trim(s: Seq<char>) -> Seq<char> {
    spec_trim_back(spec_trim_front(s))
}

/// The non-empty trimmed pieces, in order.
pub open spec fn collect_fortunes(pieces: Seq<Seq<char>>) -> Seq<Seq<char>>
    decreases pieces.len(),
{
    if pieces.len() == 0 {
        Seq::empty()
    } else {
        (if spec_trim(pieces.first()).len() > 0 {
            seq![spec_trim(pieces.first())]
        } else {
            Seq::empty()
        }) + collect_fortunes(pieces.drop_first())
    }
}

/// The fortune texts that a source text holds: its `%`-separated blocks,
/// trimmed, with empty blocks dropped.
pub open spec fn spec_fortunes_of(text: Seq<char>) -> Seq<Seq<char>> {
    collect_fortunes(split_on(text, '%'))
}

fn trim_chars(v: &Vec<char>) -> (r: Vec<char>)
    ensures
        r@ == spec_trim(v@),
{
    let mut i: usize = 0;
    proof {
        assert(v@.skip(0) =~= v@);
    }
    while i < v.len() && is_space_char(v[i])
        invariant
            i <= v@.len(),
            spec_trim_front(v@) == spec_trim_front(v@.skip(i as int)),
        decreases v@.len() - i,
    {
        proof {
            assert(v@.skip(i as int).first() == v@[i as int]);
            assert(v@.skip(i as int).drop_first() =~= v@.skip(i + 1));
        }
        i = i + 1;
    }
    proof {
        if i < v@.len() {
            assert(v@.skip(i as int).first() == v@[i as int]);
        }
        assert(spec_trim_front(v@) =~= v@.skip(i as int));
    }
    let mut j: usize = v.len();
    let ghost front = v@.skip(i as int);
    proof {
        assert(front.take(front.len() as int) =~= front);
    }
    while j > i && is_space_char(v[j - 1])
        invariant
            i <= j <= v@.len(),
            front == v@.skip(i as int),
            spec_trim_front(v@) == front,
            spec_trim_back(front) == spec_trim_back(front.take(j - i)),
        decreases j,
    {
        proof {
            let cur = front.take(j - i);
            assert(cur.last() == v@[j - 1]);
            assert(cur.drop_last() =~= front.take(j - 1 - i));
        }
        j = j - 1;
    }
    proof {
        let cur = front.take(j - i);
        if j > i {
            assert(cur.last() == v@[j - 1]);
        }
        assert(spec_trim_back(cur) =~= cur);
        assert(spec_trim(v@) =~= front.take(j - i));
    }
    let mut out: Vec<char> = Vec::new();
    let mut k: usize = i;
    while k < j
        invariant
            i <= k <= j <= v@.len(),
            front == v@.skip(i as int),
            out@ == front.take(k - i),
        decreases j - k,
    {
        proof {
            assert(front.take(k + 1 - i) =~= front.take(k - i).push(v@[k as int]));
        }
        out.push(v[k]);
        k = k + 1;
    }
    proof {
        assert(out@ =~= spec_trim(v@));
    }
    out
}

impl View for Fortunes {
    type V = Seq<Fortune>;

    closed spec fn view(&self) -> Seq<Fortune> {
        self.0@
    }
}

impl Fortunes {
    /// An explicit collection.
    pub fn new(fortunes: Vec<Fortune>) -> (r: Fortunes)
        ensures
            r@ == fortunes@,
    {
        Fortunes(fortunes)
    }

    /// An empty collection.
    pub fn empty() -> (r: Fortunes)
        ensures
            r@ == Seq::<Fortune>::empty(),
    {
        Fortunes(Vec::new())
    }

    /// Appends the fortunes of one source text: each `%`-separated block,
    /// trimmed, with empty blocks dropped, all attributed to `source`.
    pub fn add_text(&mut self, source: &str, text: &str)
        ensures
            final(self)@.len() == old(self)@.len() + spec_fortunes_of(text@).len(),
            forall|k: int|
                0 <= k < old(self)@.len() ==> final(self)@[k] == old(self)@[k],
            forall|k: int|
                0 <= k < spec_fortunes_of(text@).len() ==> {
                    &&& (#[trigger] final(self)@[old(self)@.len() + k]).source@ == source@
                    &&& final(self)@[old(self)@.len() + k].text@ == spec_fortunes_of(text@)[k]
                },
    {
        let v = chars_of(text);
        let pieces = split_char(&v, '%');
        let ghost all = pieces.deep_view();
        let ghost base = self@;
        let mut i: usize = 0;
        proof {
            assert(all.skip(0) =~~= all);
        }
        while i < pieces.len()
            invariant
                i <= all.len(),
                all == pieces.deep_view(),
                all == split_on(text@, '%'),
                pieces@.len() == all.len(),
                self@.len() == base.len() + collect_fortunes(all).len() - collect_fortunes(
                    all.skip(i as int),
                ).len(),
                collect_fortunes(all.skip(i as int)).len() <= collect_fortunes(all).len(),
                forall|k: int| 0 <= k < base.len() ==> self@[k] == base[k],
                forall|k: int|
                    0 <= k < self@.len() - base.len() ==> {
                        &&& (#[trigger] self@[base.len() + k]).source@ == source@
                        &&& self@[base.len() + k].text@ == collect_fortunes(all)[k]
                    },
            decreases all.len() - i,
        {
            let ghost suffix = all.skip(i as int);
            let ghost total = collect_fortunes(all);
            let ghost rem = collect_fortunes(suffix);
            let ghost rem2 = collect_fortunes(all.skip(i + 1));
            proof {
                assert(suffix.first() == pieces@[i as int]@);
                assert(suffix.drop_first() =~~= all.skip(i + 1));
                lemma_collect_prefix(all, i as int);
                lemma_collect_prefix(all, i + 1);
            }
            let ghost prev_view = self@;
            let trimmed = trim_chars(&pieces[i]);
            if trimmed.len() > 0 {
                proof {
                    assert(rem =~~= seq![spec_trim(suffix.first())] + rem2);
                    assert(total.skip(total.len() - rem.len()) =~~= rem);
                    assert(total.skip(total.len() - rem.len())[0] == total[total.len()
                        - rem.len()]);
                    assert(rem[0] == spec_trim(suffix.first()));
                    assert(total[total.len() - rem.len()] == spec_trim(suffix.first()));
                }
                let fortune = Fortune {
                    source: source.to_owned(),
                    text: chars_to_string(&trimmed),
                };
                self.0.push(fortune);
            } else {
                proof {
                    assert(rem =~~= rem2);
                }
            }
            i = i + 1;
        }
        proof {
            assert(collect_fortunes(all.skip(i as int)) =~~= Seq::<Seq<char>>::empty());
        }
    }

    /// Picks one fortune's text at random, uniformly: some element of the
    /// collection, or nothing from an empty collection.  A seed makes the
    /// generator, but not the choice, deterministic, so only membership is
    /// promised.
    pub fn pick_fortune(&self, seed: Option<u64>) -> (r: Option<String>)
        ensures
            (r is Some) == (self@.len() > 0),
            r matches Some(t) ==> exists|i: int| 0 <= i < self@.len() && t@ == self@[i].text@,
    {
        match choose_fortune(&self.0, seed) {
            None => None,
            Some(f) => {
                proof {
                    let i = choose|i: int| 0 <= i < self@.len() && self@[i] == *f;
                    assert(f.text@ == self@[i].text@);
                }
                Some(f.text.clone())
            },
        }
    }

    /// The fortunes whose text the pattern matches, in order.  Nothing is
    /// assumed about which ones the engine matches: the selection is
    /// verified for every possible answer.
    pub fn pick_fortune_by_regex<'a>(&'a self, regex: &regex::Regex) -> (r: Vec<&'a Fortune>)
        ensures
            exists|m: Seq<bool>|
                m.len() == self@.len() && r@.map_values(|f: &Fortune| *f) == spec_selected(
                    self@,
                    m,
                ),
    {
        let mut matched: Vec<bool> = Vec::new();
        let mut i: usize = 0;
        while i < self.0.len()
            invariant
                i <= self@.len(),
                matched@.len() == i,
            decreases self@.len() - i,
        {
            matched.push(regex_matches_fortune(regex, &self.0[i]));
            i = i + 1;
        }
        let mut out: Vec<&Fortune> = Vec::new();
        let mut j: usize = 0;
        proof {
            assert(self@.skip(0) =~= self@);
            assert(matched@.skip(0) =~= matched@);
            assert(out@.map_values(|f: &Fortune| *f) =~= Seq::<Fortune>::empty());
        }
        while j < self.0.len()
            invariant
                j <= self@.len(),
                matched@.len() == self@.len(),
                spec_selected(self@, matched@) =~= out@.map_values(|f: &Fortune| *f)
                    + spec_selected(self@.skip(j as int), matched@.skip(j as int)),
            decreases self@.len() - j,
        {
            let ghost before = out@.map_values(|f: &Fortune| *f);
            proof {
                assert(self@.skip(j as int)[0] == self@[j as int]);
                assert(matched@.skip(j as int)[0] == matched@[j as int]);
                assert(self@.skip(j as int).drop_first() =~= self@.skip(j + 1));
                assert(matched@.skip(j as int).drop_first() =~= matched@.skip(j + 1));
            }
            if matched[j] {
                out.push(&self.0[j]);
                proof {
                    assert(out@.map_values(|f: &Fortune| *f) =~= before.push(self@[j as int]));
                }
            }
            j = j + 1;
            proof {
                assert(spec_selected(self@, matched@) =~= out@.map_values(|f: &Fortune| *f)
                    + spec_selected(self@.skip(j as int), matched@.skip(j as int)));
            }
        }
        proof {
            assert(spec_selected(self@.skip(j as int), matched@.skip(j as int)) =~= Seq::<
                Fortune,
            >::empty());
            assert(out@.map_values(|f: &Fortune| *f) =~= spec_selected(self@, matched@));
        }
        out
    }

    /// The fortunes, for callers outside the proof.
    pub fn len(&self) -> (r: usize)
        ensures
            r == self@.len(),
    {
        self.0.len()
    }

    /// The text of fortune `i`.
    pub fn text_of(&self, i: usize) -> (r: String)
        requires
            i < self@.len(),
        ensures
            r@ == self@[i as int].text@,
    {
        self.0[i].text.clone()
    }
}

/// The fortunes selected by a match vector: fortune `i` stays exactly
/// when `matched[i]` holds.
pub open spec fn spec_selected(fs: Seq<Fortune>, matched: Seq<bool>) -> Seq<Fortune>
    decreases fs.len(),
{
    if fs.len() == 0 {
        Seq::empty()
    } else {
        (if matched[0] {
            seq![fs[0]]
        } else {
            Seq::empty()
        }) + spec_selected(fs.drop_first(), matched.drop_first())
    }
}

/// Relies on rand's `distr::slice::Choose` distribution: a uniformly
/// chosen element of the slice, or nothing from an empty slice.  The seed
/// fixes the generator, not the element, so no more is stated.
#[verifier::external_body]
fn choose_fortune<'a>(fortunes: &'a Vec<Fortune>, seed: Option<u64>) -> (r: Option<&'a Fortune>)
    ensures
        (r is Some) == (fortunes@.len() > 0),
        r matches Some(f) ==> exists|i: int| 0 <= i < fortunes@.len() && fortunes@[i] == *f,
{
    let choose = match rand::distr::slice::Choose::new(fortunes.as_slice()) {
        Ok(c) => c,
        Err(_) => return None,
    };
    match seed {
        Some(s) => Some(choose.sample(&mut rand::rngs::StdRng::seed_from_u64(s))),
        None => Some(choose.sample(&mut rand::rng())),
    }
}

/// Relies on `regex::Regex::is_match` on the fortune's text.  No property
/// of the answer is assumed; the selection logic is verified for either
/// outcome.
#[verifier::external_body]
fn regex_matches_fortune(re: &regex::Regex, fortune: &Fortune) -> bool {
    re.is_match(&fortune.text)
}

/// Walking one piece changes the collected list by that piece's
/// contribution, which never grows the remainder.
proof fn lemma_collect_prefix(all: Seq<Seq<char>>, i: int)
    requires
        0 <= i <= all.len(),
    ensures
        collect_fortunes(all.skip(i)).len() <= collect_fortunes(all).len(),
        collect_fortunes(all).skip(
            collect_fortunes(all).len() - collect_fortunes(all.skip(i)).len(),
        ) == collect_fortunes(all.skip(i)),
    decreases i,
{
    if i > 0 {
        lemma_collect_prefix(all, i - 1);
        assert(all.skip(i - 1).drop_first() =~~= all.skip(i));
        let prev = collect_fortunes(all.skip(i - 1));
        let cur = collect_fortunes(all.skip(i));
        let head = all.skip(i - 1).first();
        if spec_trim(head).len() > 0 {
            assert(prev =~~= seq![spec_trim(head)] + cur);
        } else {
            assert(prev =~~= cur);
        }
        let total = collect_fortunes(all);
        assert(total.skip(total.len() - prev.len()) =~~= prev);
        if spec_trim(head).len() > 0 {
            assert(total.skip(total.len() - prev.len()).drop_first() =~~= total.skip(
                total.len() - cur.len(),
            ));
            assert(prev.drop_first() =~~= cur);
        }
        assert(total.skip(total.len() - cur.len()) =~~= cur);
    } else {
        assert(all.skip(0) =~~= all);
    }
}

} // verus!
