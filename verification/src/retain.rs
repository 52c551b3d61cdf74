//! Which page textures to keep.
//!
//! The texture cache has two consumers, the page column and the page grid, and dropping what
//! one of them is showing because the other is not makes them fight over it. So what is kept
//! is what either shows, with a margin around the column.

use std::ops::Range;

use vstd::prelude::*;

use crate::order::Source;

verus! {

/// The sources among `found`, in order.
pub open spec fn present(found: Seq<Option<Source>>) -> Seq<Source>
    decreases found.len(),
{
    if found.len() == 0 {
        Seq::empty()
    } else {
        let earlier = present(found.drop_last());
        match found.last() {
            Some(source) => earlier.push(source),
            None => earlier,
        }
    }
}

/// The first position kept: `margin` before the first visible one, or the first there is.
pub open spec fn first_kept(start: usize, margin: usize) -> usize {
    if start >= margin {
        (start - margin) as usize
    } else {
        0
    }
}

/// The position after the last one kept: `margin` beyond the visible ones.
pub open spec fn end_kept(end: usize, margin: usize) -> usize {
    if end + margin <= usize::MAX {
        (end + margin) as usize
    } else {
        usize::MAX
    }
}

/// Whether `found` is what `source_of` may answer for the positions from `low` to `high`.
pub open spec fn answers<F: Fn(usize) -> Option<Source>>(
    source_of: F,
    low: usize,
    high: usize,
    found: Seq<Option<Source>>,
) -> bool {
    &&& found.len() == (if low < high {
        high - low
    } else {
        0
    })
    &&& forall|i: int|
        0 <= i < found.len() ==> call_ensures(
            source_of,
            ((low + i) as usize,),
            #[trigger] found[i],
        )
}

/// The pages to keep: those the grid shows, then those of the column and `margin` more on
/// either side, as far as there are any.
pub fn pages_to_keep<F: Fn(usize) -> Option<Source>>(
    visible: &Range<usize>,
    margin: usize,
    grid: Vec<Source>,
    source_of: F,
) -> (keep: Vec<Source>)
    requires
        forall|position: usize| call_requires(source_of, (position,)),
    ensures
        exists|found: Seq<Option<Source>>|
            #[trigger] answers(
                source_of,
                first_kept(visible.start, margin),
                end_kept(visible.end, margin),
                found,
            ) && keep@ == grid@ + present(found),
{
    let mut keep = grid;
    let ghost shown = keep@;
    let low = visible.start.saturating_sub(margin);
    let high = visible.end.saturating_add(margin);
    let ghost mut found: Seq<Option<Source>> = Seq::empty();
    let mut position: usize = low;
    proof {
        assert(shown + present(found) =~= shown);
    }
    while position < high
        invariant
            low <= position,
            position <= high || position == low,
            forall|p: usize| call_requires(source_of, (p,)),
            found.len() == position - low,
            forall|i: int|
                0 <= i < found.len() ==> call_ensures(
                    source_of,
                    ((low + i) as usize,),
                    #[trigger] found[i],
                ),
            keep@ == shown + present(found),
        decreases high - position,
    {
        let answer = source_of(position);
        proof {
            let next = found.push(answer);
            assert(next.drop_last() =~= found);
            found = next;
        }
        if let Some(source) = answer {
            keep.push(source);
        }
        proof {
            assert(keep@ =~= shown + present(found));
        }
        position += 1;
    }
    proof {
        assert(low == first_kept(visible.start, margin));
        assert(high == end_kept(visible.end, margin));
        assert(answers(source_of, low, high, found));
    }
    keep
}

} // verus!
