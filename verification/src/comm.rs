//! Merging two sorted streams of lines, marking each line with the stream
//! it came from: the core of the common-lines utility.

use vstd::prelude::*;

use crate::chars::{chars_of, cmp_chars, lex_less, lower_of, to_lowercase};

verus! {

/// A line of the merged output, marked with its origin: the first stream
/// only, the second only, or both.
#[derive(Debug, PartialEq, Eq)]
pub enum LinePosition {
    First(String),
    Second(String),
    Both(String),
}

/// A merge cursor over two streams of lines.  Each call to
/// [`LineIter::next_position`] compares the streams' current heads and
/// yields the smaller one, or one line for both when they agree.  With
/// `insensitive` set, lines are folded to lower case as they are read.
pub struct LineIter {
    lines1: Vec<String>,
    lines2: Vec<String>,
    idx1: usize,
    idx2: usize,
    line1_next: Option<String>,
    line2_next: Option<String>,
    insensitive: bool,
}

impl LineIter {
    /// The case fold this cursor applies to each line it reads.
    pub closed spec fn adjust(self, s: Seq<char>) -> Seq<char> {
        if self.insensitive {
            lower_of(s)
        } else {
            s
        }
    }

    /// The lines of the first stream not yet yielded, case-adjusted.
    pub closed spec fn rem1(self) -> Seq<Seq<char>> {
        (match self.line1_next {
            Some(s) => seq![s@],
            None => Seq::empty(),
        }) + self.lines1@.skip(self.idx1 as int).map_values(|l: String| self.adjust(l@))
    }

    /// The lines of the second stream not yet yielded, case-adjusted.
    pub closed spec fn rem2(self) -> Seq<Seq<char>> {
        (match self.line2_next {
            Some(s) => seq![s@],
            None => Seq::empty(),
        }) + self.lines2@.skip(self.idx2 as int).map_values(|l: String| self.adjust(l@))
    }

    /// The cursor's indices stay inside their streams.
    pub closed spec fn wf(self) -> bool {
        self.idx1 <= self.lines1@.len() && self.idx2 <= self.lines2@.len()
    }

    /// Starts a merge of two streams of lines.
    pub fn new(lines1: Vec<String>, lines2: Vec<String>, insensitive: bool) -> (r: LineIter)
        ensures
            r.wf(),
            r.rem1() == lines1@.map_values(
                (|l: String|
                    if insensitive {
                        lower_of(l@)
                    } else {
                        l@
                    }),
            ),
            r.rem2() == lines2@.map_values(
                (|l: String|
                    if insensitive {
                        lower_of(l@)
                    } else {
                        l@
                    }),
            ),
    {
        let r = LineIter {
            lines1,
            lines2,
            idx1: 0,
            idx2: 0,
            line1_next: None,
            line2_next: None,
            insensitive,
        };
        proof {
            assert(r.lines1@.skip(0) =~= r.lines1@);
            assert(r.lines2@.skip(0) =~= r.lines2@);
            assert(r.rem1() =~~= r.lines1@.map_values(
                |l: String|
                    if insensitive {
                        lower_of(l@)
                    } else {
                        l@
                    },
            ));
            assert(r.rem2() =~~= r.lines2@.map_values(
                |l: String|
                    if insensitive {
                        lower_of(l@)
                    } else {
                        l@
                    },
            ));
        }
        r
    }

    /// Reads each stream's next line into its pending slot, case-adjusted,
    /// when the slot is empty and the stream has lines left.
    fn fill_next(&mut self)
        requires
            old(self).wf(),
        ensures
            final(self).wf(),
            final(self).rem1() == old(self).rem1(),
            final(self).rem2() == old(self).rem2(),
            final(self).line1_next is None <==> final(self).rem1().len() == 0,
            final(self).line2_next is None <==> final(self).rem2().len() == 0,
            final(self).line1_next matches Some(s) ==> s@ == final(self).rem1()[0],
            final(self).line2_next matches Some(s) ==> s@ == final(self).rem2()[0],
    {
        if self.line1_next.is_none() && self.idx1 < self.lines1.len() {
            let ghost pre = *self;
            let line = if self.insensitive {
                to_lowercase(self.lines1[self.idx1].as_str())
            } else {
                self.lines1[self.idx1].clone()
            };
            self.line1_next = Some(line);
            self.idx1 = self.idx1 + 1;
            proof {
                assert(pre.lines1@.skip(pre.idx1 as int) =~= seq![pre.lines1@[pre.idx1 as int]]
                    + self.lines1@.skip(self.idx1 as int));
                assert(self.rem1() =~~= pre.rem1());
                assert(self.rem2() =~~= pre.rem2());
            }
        }
        if self.line2_next.is_none() && self.idx2 < self.lines2.len() {
            let ghost pre = *self;
            let line = if self.insensitive {
                to_lowercase(self.lines2[self.idx2].as_str())
            } else {
                self.lines2[self.idx2].clone()
            };
            self.line2_next = Some(line);
            self.idx2 = self.idx2 + 1;
            proof {
                assert(pre.lines2@.skip(pre.idx2 as int) =~= seq![pre.lines2@[pre.idx2 as int]]
                    + self.lines2@.skip(self.idx2 as int));
                assert(self.rem2() =~~= pre.rem2());
                assert(self.rem1() =~~= pre.rem1());
            }
        }
        proof {
            if self.line1_next is None {
                assert(self.rem1() =~~= self.lines1@.skip(self.idx1 as int).map_values(
                    |l: String| self.adjust(l@),
                ));
            }
            if self.line2_next is None {
                assert(self.rem2() =~~= self.lines2@.skip(self.idx2 as int).map_values(
                    |l: String| self.adjust(l@),
                ));
            }
        }
    }

    /// Yields the next line of the merge.  The smaller of the two current
    /// heads comes out, marked with its stream; equal heads come out once,
    /// marked as shared; exhausted streams yield the other stream's lines
    /// until both end.
    pub fn next_position(&mut self) -> (r: Option<LinePosition>)
        requires
            old(self).wf(),
        ensures
            final(self).wf(),
            old(self).rem1().len() == 0 && old(self).rem2().len() == 0 ==> r is None
                && final(self).rem1().len() == 0 && final(self).rem2().len() == 0,
            old(self).rem1().len() > 0 && old(self).rem2().len() == 0 ==> (r matches
                Some(LinePosition::First(s)) && s@ == old(self).rem1()[0]
                && final(self).rem1() == old(self).rem1().drop_first()
                && final(self).rem2() == old(self).rem2()),
            old(self).rem1().len() == 0 && old(self).rem2().len() > 0 ==> (r matches
                Some(LinePosition::Second(s)) && s@ == old(self).rem2()[0]
                && final(self).rem2() == old(self).rem2().drop_first()
                && final(self).rem1() == old(self).rem1()),
            old(self).rem1().len() > 0 && old(self).rem2().len() > 0 ==> {
                let a = old(self).rem1()[0];
                let b = old(self).rem2()[0];
                &&& a == b ==> (r matches Some(LinePosition::Both(s)) && s@ == b
                    && final(self).rem1() == old(self).rem1().drop_first()
                    && final(self).rem2() == old(self).rem2().drop_first())
                &&& lex_less(a, b) ==> (r matches Some(LinePosition::First(s)) && s@ == a
                    && final(self).rem1() == old(self).rem1().drop_first()
                    && final(self).rem2() == old(self).rem2())
                &&& lex_less(b, a) ==> (r matches Some(LinePosition::Second(s)) && s@ == b
                    && final(self).rem2() == old(self).rem2().drop_first()
                    && final(self).rem1() == old(self).rem1())
            },
    {
        self.fill_next();
        let ghost filled = *self;
        if self.line1_next.is_none() && self.line2_next.is_none() {
            return None;
        }
        if self.line2_next.is_none() {
            let s = self.line1_next.take().unwrap();
            proof {
                assert(self.rem1() =~~= filled.rem1().drop_first());
            }
            return Some(LinePosition::First(s));
        }
        if self.line1_next.is_none() {
            let s = self.line2_next.take().unwrap();
            proof {
                assert(self.rem2() =~~= filled.rem2().drop_first());
            }
            return Some(LinePosition::Second(s));
        }
        let v1 = chars_of(self.line1_next.as_ref().unwrap().as_str());
        let v2 = chars_of(self.line2_next.as_ref().unwrap().as_str());
        let c = cmp_chars(&v1, &v2);
        if c == 0 {
            self.line1_next = None;
            let s = self.line2_next.take().unwrap();
            proof {
                assert(self.rem1() =~~= filled.rem1().drop_first());
                assert(self.rem2() =~~= filled.rem2().drop_first());
            }
            Some(LinePosition::Both(s))
        } else if c < 0 {
            let s = self.line1_next.take().unwrap();
            proof {
                assert(self.rem1() =~~= filled.rem1().drop_first());
            }
            Some(LinePosition::First(s))
        } else {
            let s = self.line2_next.take().unwrap();
            proof {
                assert(self.rem2() =~~= filled.rem2().drop_first());
            }
            Some(LinePosition::Second(s))
        }
    }
}

} // verus!
