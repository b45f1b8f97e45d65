//! Locations of tokens in a text.

use vstd::prelude::*;

verus! {

/// The location of a token.
/// The `Loc(start, end)` means the byte range `[start, end)`.
#[derive(Debug, PartialEq, Eq, Clone, Copy, Hash)]
pub struct Loc(pub usize, pub usize);

/// The smallest start among `locs`, or `usize::MAX` when there is none.
pub open spec fn min_start(locs: Seq<Loc>) -> usize
    decreases locs.len(),
{
    if locs.len() == 0 {
        usize::MAX
    } else {
        let rest = min_start(locs.drop_last());
        if locs.last().0 < rest {
            locs.last().0
        } else {
            rest
        }
    }
}

/// The largest end among `locs`, or `0` when there is none.
pub open spec fn max_end(locs: Seq<Loc>) -> usize
    decreases locs.len(),
{
    if locs.len() == 0 {
        0
    } else {
        let rest = max_end(locs.drop_last());
        if locs.last().1 > rest {
            locs.last().1
        } else {
            rest
        }
    }
}

/// The smallest range covering `a` and `b`.
pub open spec fn join_loc(a: Loc, b: Loc) -> Loc {
    Loc(if b.0 < a.0 { b.0 } else { a.0 }, if b.1 > a.1 { b.1 } else { a.1 })
}

impl Loc {
    /// Combines a series of [`Loc`]: the smallest start and the largest end.
    pub fn from_locs(locs: &[Loc]) -> (res: Loc)
        ensures
            res.0 == min_start(locs@),
            res.1 == max_end(locs@),
    {
        let mut start = usize::MAX;
        let mut end = 0usize;
        let mut i: usize = 0;
        while i < locs.len()
            invariant
                i <= locs@.len(),
                start == min_start(locs@.take(i as int)),
                end == max_end(locs@.take(i as int)),
            decreases locs@.len() - i,
        {
            let loc = locs[i];
            assert(locs@.take(i + 1).drop_last() =~= locs@.take(i as int));
            if loc.0 < start {
                start = loc.0;
            }
            if loc.1 > end {
                end = loc.1;
            }
            i = i + 1;
        }
        assert(locs@.take(i as int) =~= locs@);
        Loc(start, end)
    }

    /// Combines two locations, as [`Loc::from_locs`] does for `[a, b]`.
    pub fn join(a: Loc, b: Loc) -> (res: Loc)
        ensures
            res == join_loc(a, b),
            res.0 == min_start(seq![a, b]),
            res.1 == max_end(seq![a, b]),
    {
        proof {
            let s = seq![a, b];
            assert(s.drop_last() =~= seq![a]);
            assert(s.drop_last().drop_last() =~= Seq::<Loc>::empty());
            assert(min_start(s.drop_last().drop_last()) == usize::MAX);
            assert(max_end(s.drop_last().drop_last()) == 0);
            assert(s.last() == b);
            assert(s.drop_last().last() == a);
            assert(min_start(s.drop_last()) == (if a.0 < usize::MAX { a.0 } else { usize::MAX }));
            assert(max_end(s.drop_last()) == (if a.1 > 0 { a.1 } else { 0 }));
        }
        let start = if b.0 < a.0 { b.0 } else { a.0 };
        let end = if b.1 > a.1 { b.1 } else { a.1 };
        Loc(start, end)
    }
}

} // verus!
