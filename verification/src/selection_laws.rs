//! What each kind of click picks out, page by page.

use vstd::prelude::*;

use crate::order::Source;
use crate::selection;
use crate::selection::{Pick, SelectionView};

verus! {

/// A plain click picks out the page clicked and no other, and a range starts from it.
pub proof fn law_a_click_picks_that_page_alone(
    before: SelectionView,
    shown: Seq<Source>,
    position: usize,
    source: Source,
)
    requires
        position < shown.len(),
    ensures
        ({
            let after = before.picked(shown, position, Pick::Only);
            &&& after.chosen.contains(source) <==> source == shown[position as int]
            &&& after.anchor == Some(shown[position as int])
        }),
{
}

/// A click that toggles picks the page clicked out if it was not and puts it back if it was,
/// leaves every other page as it was, and makes it the one a range starts from.
pub proof fn law_a_toggle_turns_that_page_alone(
    before: SelectionView,
    shown: Seq<Source>,
    position: usize,
    source: Source,
)
    requires
        position < shown.len(),
    ensures
        ({
            let after = before.picked(shown, position, Pick::Toggle);
            &&& source == shown[position as int] ==> (after.chosen.contains(source)
                <==> !before.chosen.contains(source))
            &&& source != shown[position as int] ==> (after.chosen.contains(source)
                <==> before.chosen.contains(source))
            &&& after.anchor == Some(shown[position as int])
        }),
{
}

proof fn lemma_first_at(shown: Seq<Source>, source: Source, from: int, at: int)
    requires
        0 <= from <= at < shown.len(),
        shown[at] == source,
        forall|i: int| from <= i < at ==> #[trigger] shown[i] != source,
    ensures
        selection::first_position(shown, source, from) == Some(at),
    decreases at - from,
{
    if from < at {
        assert(shown[from] != source);
        lemma_first_at(shown, source, from + 1, at);
    }
}

proof fn lemma_first_nowhere(shown: Seq<Source>, source: Source, from: int)
    requires
        0 <= from <= shown.len(),
        forall|i: int| from <= i < shown.len() ==> #[trigger] shown[i] != source,
    ensures
        selection::first_position(shown, source, from) is None,
    decreases shown.len() - from,
{
    if from < shown.len() {
        assert(shown[from] != source);
        lemma_first_nowhere(shown, source, from + 1);
    }
}

/// A click that draws a range picks out exactly the pages from the one it starts from to the one
/// clicked, both of them too, whichever of the two comes first, and the range goes on starting
/// from the same page.
pub proof fn law_a_range_picks_everything_between(
    before: SelectionView,
    shown: Seq<Source>,
    from: int,
    position: usize,
    source: Source,
)
    requires
        position < shown.len(),
        0 <= from < shown.len(),
        before.anchor == Some(shown[from]),
        forall|i: int| 0 <= i < from ==> #[trigger] shown[i] != shown[from],
    ensures
        ({
            let after = before.picked(shown, position, Pick::Range);
            &&& after.chosen.contains(source) <==> exists|p: int|
                {
                    &&& 0 <= p < shown.len()
                    &&& (from <= p <= position) || (position <= p <= from)
                    &&& #[trigger] shown[p] == source
                }
            &&& after.anchor == before.anchor
        }),
{
    lemma_first_at(shown, shown[from], 0, from);
}

/// A range with nowhere to start from is a plain click.
pub proof fn law_a_range_from_nowhere_is_a_click(
    before: SelectionView,
    shown: Seq<Source>,
    position: usize,
)
    requires
        before.anchor matches Some(anchor) ==> forall|i: int|
            0 <= i < shown.len() ==> #[trigger] shown[i] != anchor,
    ensures
        before.picked(shown, position, Pick::Range) == before.picked(shown, position, Pick::Only),
{
    if let Some(anchor) = before.anchor {
        lemma_first_nowhere(shown, anchor, 0);
    }
}

/// A click past the last page changes nothing.
pub proof fn law_a_click_past_the_end_changes_nothing(
    before: SelectionView,
    shown: Seq<Source>,
    position: usize,
    pick: Pick,
)
    requires
        position >= shown.len(),
    ensures
        before.picked(shown, position, pick) == before,
{
}

proof fn lemma_lowest(positions: Seq<usize>)
    requires
        positions.len() > 0,
    ensures
        positions.contains(selection::lowest(positions)),
        forall|i: int|
            0 <= i < positions.len() ==> selection::lowest(positions) <= #[trigger] positions[i],
    decreases positions.len(),
{
    if positions.len() > 1 {
        let front = positions.drop_last();
        lemma_lowest(front);
        let low = selection::lowest(front);
        let k = choose|k: int| 0 <= k < front.len() && front[k] == low;
        assert(positions[k] == low);
        assert(positions[positions.len() - 1] == positions.last());
        assert forall|i: int|
            0 <= i < positions.len() implies selection::lowest(positions)
            <= #[trigger] positions[i] by {
            if i < front.len() {
                assert(front[i] == positions[i]);
            }
        }
    } else {
        assert(positions[0] == selection::lowest(positions));
    }
}

/// A box drawn around pages picks out exactly the pages under it, and a range starts from the
/// first of them.
pub proof fn law_a_box_picks_exactly_what_it_covers(
    shown: Seq<Source>,
    covered: Seq<usize>,
    source: Source,
    first: int,
)
    ensures
        SelectionView::set_to(shown, covered).chosen.contains(source) <==> exists|i: int|
            {
                &&& 0 <= i < covered.len()
                &&& (#[trigger] covered[i]) < shown.len()
                &&& shown[covered[i] as int] == source
            },
        covered.len() == 0 ==> SelectionView::set_to(shown, covered).anchor is None,
        ({
            &&& 0 <= first < covered.len()
            &&& forall|i: int| 0 <= i < covered.len() ==> covered[first] <= #[trigger] covered[i]
        }) ==> SelectionView::set_to(shown, covered).anchor == (if covered[first] < shown.len() {
            Some(shown[covered[first] as int])
        } else {
            None
        }),
{
    if 0 <= first < covered.len() && forall|i: int|
        0 <= i < covered.len() ==> covered[first] <= #[trigger] covered[i] {
        lemma_lowest(covered);
        let low = selection::lowest(covered);
        let k = choose|k: int| 0 <= k < covered.len() && covered[k] == low;
        assert(covered[first] <= covered[k]);
        assert(low <= covered[first]);
    }
}

/// Nothing picked out is no page, and nowhere for a range to start from.
pub proof fn law_nothing_picked_is_no_page(source: Source)
    ensures
        !SelectionView::none().chosen.contains(source),
        SelectionView::none().anchor is None,
{
}

} // verus!
