//! Which pages are picked out in the grid.
//!
//! Pages are remembered as sources, not as positions, so a selection stays on its pages when
//! they move, and comes back with a page whose deletion is undone.

use vstd::prelude::*;

use crate::order;
use crate::order::{OrderView, PageOrder, Source};
use crate::order_laws;

verus! {

/// What a click on a page means for the selection.
#[derive(Debug, Clone, Copy, PartialEq, Eq, Structural)]
pub enum Pick {
    /// This page and no other.
    Only,
    /// This page as well, or not any more.
    Toggle,
    /// Every page from the last one picked to this one.
    Range,
}

impl Pick {
    /// What a click with these modifiers means. A range wins over a toggle.
    pub fn of(toggle: bool, range: bool) -> (pick: Pick)
        ensures
            pick == (if range {
                Pick::Range
            } else if toggle {
                Pick::Toggle
            } else {
                Pick::Only
            }),
    {
        if range {
            Pick::Range
        } else if toggle {
            Pick::Toggle
        } else {
            Pick::Only
        }
    }
}

/// What a [`Selection`] holds.
#[verifier::ext_equal]
pub struct SelectionView {
    /// The pages picked out.
    pub chosen: Set<Source>,
    /// Where a range starts from.
    pub anchor: Option<Source>,
}

/// The first position at which `shown` has `source`, if it has it from `from` on.
pub open spec fn first_position(shown: Seq<Source>, source: Source, from: int) -> Option<int>
    decreases shown.len() - from,
{
    if from >= shown.len() {
        None
    } else if shown[from] == source {
        Some(from)
    } else {
        first_position(shown, source, from + 1)
    }
}

/// The sources shown from `low` to `high`, both ends included.
pub open spec fn sources_between(shown: Seq<Source>, low: int, high: int) -> Set<Source> {
    Set::new(
        |source: Source|
            exists|p: int| low <= p <= high && 0 <= p < shown.len() && #[trigger] shown[p] == source,
    )
}

/// The sources shown at `positions`. A position past the end names none.
pub open spec fn sources_at(shown: Seq<Source>, positions: Seq<usize>) -> Set<Source> {
    Set::new(
        |source: Source|
            exists|i: int|
                0 <= i < positions.len() && (#[trigger] positions[i]) < shown.len()
                    && shown[positions[i] as int] == source,
    )
}

/// The lowest of `positions`.
pub open spec fn lowest(positions: Seq<usize>) -> usize
    decreases positions.len(),
{
    if positions.len() <= 1 {
        positions[0]
    } else {
        let before = lowest(positions.drop_last());
        if positions.last() < before {
            positions.last()
        } else {
            before
        }
    }
}

/// The positions at which `shown` has one of `chosen`, ascending.
pub open spec fn chosen_positions(shown: Seq<Source>, chosen: Set<Source>) -> Seq<usize>
    decreases shown.len(),
{
    if shown.len() == 0 {
        Seq::empty()
    } else {
        let earlier = chosen_positions(shown.drop_last(), chosen);
        if chosen.contains(shown.last()) {
            earlier.push((shown.len() - 1) as usize)
        } else {
            earlier
        }
    }
}

impl SelectionView {
    /// Nothing picked out.
    pub open spec fn none() -> SelectionView {
        SelectionView { chosen: Set::empty(), anchor: None }
    }

    /// Where a range starts from, among the pages shown.
    pub open spec fn anchor_position(self, shown: Seq<Source>) -> Option<int> {
        match self.anchor {
            Some(anchor) => first_position(shown, anchor, 0),
            None => None,
        }
    }

    /// One page and no other.
    pub open spec fn only(source: Source) -> SelectionView {
        SelectionView { chosen: set![source], anchor: Some(source) }
    }

    /// After a click on the page at `position`. A click past the end changes nothing, and a
    /// range with nowhere to start from is a plain click.
    pub open spec fn picked(self, shown: Seq<Source>, position: usize, pick: Pick) -> SelectionView {
        if position >= shown.len() {
            self
        } else {
            let source = shown[position as int];
            match pick {
                Pick::Only => SelectionView::only(source),
                Pick::Toggle => SelectionView {
                    chosen: if self.chosen.contains(source) {
                        self.chosen.remove(source)
                    } else {
                        self.chosen.insert(source)
                    },
                    anchor: Some(source),
                },
                Pick::Range => match self.anchor_position(shown) {
                    None => SelectionView::only(source),
                    Some(from) => SelectionView {
                        chosen: if from <= position {
                            sources_between(shown, from, position as int)
                        } else {
                            sources_between(shown, position as int, from)
                        },
                        anchor: self.anchor,
                    },
                },
            }
        }
    }

    /// Exactly the pages at `positions`, with a range starting from the lowest of them.
    pub open spec fn set_to(shown: Seq<Source>, positions: Seq<usize>) -> SelectionView {
        SelectionView {
            chosen: sources_at(shown, positions),
            anchor: if positions.len() > 0 && lowest(positions) < shown.len() {
                Some(shown[lowest(positions) as int])
            } else {
                None
            },
        }
    }
}

/// Pages picked out in the grid.
#[derive(Debug)]
pub struct Selection {
    chosen: Vec<Source>,
    anchor: Option<Source>,
}

impl View for Selection {
    type V = SelectionView;

    closed spec fn view(&self) -> SelectionView {
        SelectionView { chosen: self.chosen@.to_set(), anchor: self.anchor }
    }
}

impl Default for Selection {
    /// Nothing picked out.
    fn default() -> (selection: Selection)
        ensures
            selection@ == SelectionView::none(),
    {
        let selection = Selection { chosen: Vec::new(), anchor: None };
        proof {
            assert(selection@.chosen =~= Set::empty());
        }
        selection
    }
}

/// Whether `sources` holds `source`.
fn holds(sources: &[Source], source: Source) -> (held: bool)
    ensures
        held == sources@.to_set().contains(source),
{
    let mut i: usize = 0;
    while i < sources.len()
        invariant
            i <= sources.len(),
            forall|j: int| 0 <= j < i ==> sources@[j] != source,
        decreases sources.len() - i,
    {
        if sources[i] == source {
            proof {
                assert(sources@.contains(source));
            }
            return true;
        }
        i += 1;
    }
    false
}

proof fn lemma_push_is_insert(sources: Seq<Source>, source: Source)
    ensures
        sources.push(source).to_set() == sources.to_set().insert(source),
{
    assert forall|s: Source|
        sources.push(source).to_set().contains(s) == sources.to_set().insert(source).contains(
            s,
        ) by {
        if sources.contains(s) {
            let k = choose|k: int| 0 <= k < sources.len() && sources[k] == s;
            assert(sources.push(source)[k] == s);
        }
        if s == source {
            assert(sources.push(source)[sources.len() as int] == s);
        }
        if sources.push(source).contains(s) {
            let k = choose|k: int|
                0 <= k < sources.push(source).len() && sources.push(source)[k] == s;
            if k < sources.len() {
                assert(sources[k] == s);
            }
        }
    }
    assert(sources.push(source).to_set() =~= sources.to_set().insert(source));
}

impl Selection {
    /// A copy.
    pub fn duplicate(&self) -> (copy: Selection)
        ensures
            copy@ == self@,
    {
        Selection { chosen: order::copied(self.chosen.as_slice()), anchor: self.anchor }
    }

    /// Whether two selections hold the same pages and start a range from the same one.
    pub fn same_as(&self, other: &Selection) -> (same: bool)
        ensures
            same == (self@ == other@),
    {
        let anchors = match (self.anchor, other.anchor) {
            (Some(mine), Some(theirs)) => mine == theirs,
            (None, None) => true,
            _ => false,
        };
        let same = anchors && within(self.chosen.as_slice(), other.chosen.as_slice()) && within(
            other.chosen.as_slice(),
            self.chosen.as_slice(),
        );
        proof {
            if same {
                assert(self@.chosen =~= other@.chosen);
            }
        }
        same
    }

    /// Whether the page shown at `position` is picked out.
    pub fn contains_among(&self, shown: &[Source], position: usize) -> (contains: bool)
        ensures
            contains == (position < shown@.len() && self@.chosen.contains(shown@[position as int])),
    {
        position < shown.len() && holds(self.chosen.as_slice(), shown[position])
    }

    /// The positions of the pages picked out, ascending.
    pub fn positions_among(&self, shown: &[Source]) -> (positions: Vec<usize>)
        ensures
            positions@ == chosen_positions(shown@, self@.chosen),
    {
        let mut positions: Vec<usize> = Vec::new();
        let mut position: usize = 0;
        while position < shown.len()
            invariant
                position <= shown.len(),
                positions@ == chosen_positions(shown@.take(position as int), self@.chosen),
            decreases shown.len() - position,
        {
            proof {
                let next = shown@.take(position + 1);
                assert(next.drop_last() =~= shown@.take(position as int));
                assert(next.last() == shown@[position as int]);
            }
            if holds(self.chosen.as_slice(), shown[position]) {
                positions.push(position);
            }
            position += 1;
        }
        proof {
            assert(shown@.take(position as int) =~= shown@);
        }
        positions
    }

    /// How many of the pages shown are picked out.
    pub fn count(&self, order: &PageOrder) -> (count: usize)
        ensures
            count == chosen_positions(order@.order, self@.chosen).len(),
    {
        self.positions_among(order.as_slice()).len()
    }

    /// Whether the page at `position` is picked out.
    pub fn contains_position(&self, order: &PageOrder, position: usize) -> (contains: bool)
        ensures
            contains == (position < order@.order.len() && self@.chosen.contains(
                order@.order[position as int],
            )),
    {
        self.contains_among(order.as_slice(), position)
    }

    /// The positions of the pages picked out, ascending.
    pub fn positions(&self, order: &PageOrder) -> (positions: Vec<usize>)
        ensures
            positions@ == chosen_positions(order@.order, self@.chosen),
    {
        self.positions_among(order.as_slice())
    }

    /// Where a range starts from, among the pages shown.
    fn anchor_among(&self, shown: &[Source]) -> (position: Option<usize>)
        ensures
            match position {
                Some(position) => self@.anchor_position(shown@) == Some(position as int)
                    && position < shown@.len(),
                None => self@.anchor_position(shown@) is None,
            },
    {
        let anchor = match self.anchor {
            Some(anchor) => anchor,
            None => {
                return None;
            },
        };
        let mut position: usize = 0;
        while position < shown.len()
            invariant
                position <= shown.len(),
                first_position(shown@, anchor, 0) == first_position(
                    shown@,
                    anchor,
                    position as int,
                ),
                self@.anchor == Some(anchor),
            decreases shown.len() - position,
        {
            if shown[position] == anchor {
                return Some(position);
            }
            position += 1;
        }
        None
    }

    /// Where a range starts from.
    pub fn anchor_position(&self, order: &PageOrder) -> (position: Option<usize>)
        ensures
            match position {
                Some(position) => self@.anchor_position(order@.order) == Some(position as int),
                None => self@.anchor_position(order@.order) is None,
            },
    {
        self.anchor_among(order.as_slice())
    }

    /// Applies a click on the page shown at `position`.
    pub fn pick_among(&mut self, shown: &[Source], position: usize, pick: Pick)
        ensures
            final(self)@ == old(self)@.picked(shown@, position, pick),
    {
        if position >= shown.len() {
            return;
        }
        let source = shown[position];
        match pick {
            Pick::Only => {
                self.pick_only(source);
            },
            Pick::Toggle => {
                let ghost before = self@;
                if holds(self.chosen.as_slice(), source) {
                    self.drop_source(source);
                } else {
                    let ghost chosen = self.chosen@;
                    self.chosen.push(source);
                    proof {
                        lemma_push_is_insert(chosen, source);
                    }
                }
                self.anchor = Some(source);
            },
            Pick::Range => match self.anchor_among(shown) {
                None => {
                    self.pick_only(source);
                },
                Some(from) => {
                    let (low, high) = if from <= position {
                        (from, position)
                    } else {
                        (position, from)
                    };
                    let mut chosen: Vec<Source> = Vec::new();
                    let mut p: usize = low;
                    proof {
                        assert(chosen@.to_set() =~= sources_between(
                            shown@,
                            low as int,
                            low - 1,
                        ));
                    }
                    while p <= high
                        invariant
                            low <= p <= high + 1,
                            high < shown.len(),
                            chosen@.to_set() == sources_between(shown@, low as int, p - 1),
                        decreases high + 1 - p,
                    {
                        let ghost before = chosen@;
                        chosen.push(shown[p]);
                        proof {
                            lemma_push_is_insert(before, shown@[p as int]);
                            assert(sources_between(shown@, low as int, p - 1).insert(
                                shown@[p as int],
                            ) =~= sources_between(shown@, low as int, p as int));
                        }
                        p += 1;
                    }
                    self.chosen = chosen;
                },
            },
        }
    }

    /// One page and no other.
    fn pick_only(&mut self, source: Source)
        ensures
            final(self)@ == SelectionView::only(source),
    {
        let mut chosen: Vec<Source> = Vec::new();
        let ghost none = chosen@;
        chosen.push(source);
        proof {
            lemma_push_is_insert(none, source);
            assert(none.to_set() =~= Set::empty());
        }
        self.chosen = chosen;
        self.anchor = Some(source);
        proof {
            assert(self@.chosen =~= set![source]);
        }
    }

    /// Forgets one page.
    fn drop_source(&mut self, source: Source)
        ensures
            final(self)@.chosen == old(self)@.chosen.remove(source),
            final(self)@.anchor == old(self)@.anchor,
    {
        let mut kept: Vec<Source> = Vec::new();
        let mut i: usize = 0;
        proof {
            assert(self.chosen@.take(0).to_set().remove(source) =~= kept@.to_set());
        }
        while i < self.chosen.len()
            invariant
                i <= self.chosen@.len(),
                *self == *old(self),
                kept@.to_set() == self.chosen@.take(i as int).to_set().remove(source),
            decreases self.chosen@.len() - i,
        {
            let ghost before = kept@;
            let ghost one = self.chosen@[i as int];
            proof {
                assert(self.chosen@.take(i + 1) =~= self.chosen@.take(i as int).push(one));
                lemma_push_is_insert(self.chosen@.take(i as int), one);
                lemma_push_is_insert(before, one);
            }
            if self.chosen[i] != source {
                kept.push(self.chosen[i]);
                proof {
                    assert(kept@.to_set() =~= self.chosen@.take(i + 1).to_set().remove(source));
                }
            } else {
                proof {
                    assert(kept@.to_set() =~= self.chosen@.take(i + 1).to_set().remove(source));
                }
            }
            i += 1;
        }
        proof {
            assert(self.chosen@.take(i as int) =~= self.chosen@);
        }
        self.chosen = kept;
    }

    /// Applies a click on the page at `position`.
    pub fn pick(&mut self, order: &PageOrder, position: usize, pick: Pick)
        ensures
            final(self)@ == old(self)@.picked(order@.order, position, pick),
    {
        self.pick_among(order.as_slice(), position, pick);
    }

    /// Picks out exactly the pages shown at `positions`.
    pub fn set_among(&mut self, shown: &[Source], positions: &[usize])
        ensures
            final(self)@ == SelectionView::set_to(shown@, positions@),
    {
        let mut chosen: Vec<Source> = Vec::new();
        let mut low: Option<usize> = None;
        let mut i: usize = 0;
        proof {
            assert(chosen@.to_set() =~= sources_at(shown@, positions@.take(0)));
        }
        while i < positions.len()
            invariant
                i <= positions.len(),
                chosen@.to_set() == sources_at(shown@, positions@.take(i as int)),
                i == 0 ==> low is None,
                i > 0 ==> low == Some(lowest(positions@.take(i as int))),
            decreases positions.len() - i,
        {
            let position = positions[i];
            let ghost before = chosen@;
            let ghost taken = positions@.take(i as int);
            let ghost next = positions@.take(i + 1);
            proof {
                assert(next.drop_last() =~= taken);
                assert(next.last() == position);
                assert(next[0] == positions@[0]);
            }
            if position < shown.len() {
                chosen.push(shown[position]);
                proof {
                    lemma_push_is_insert(before, shown@[position as int]);
                    assert(sources_at(shown@, taken).insert(shown@[position as int])
                        =~= sources_at(shown@, next)) by {
                        lemma_sources_at_push(shown@, taken, position);
                        assert(taken.push(position) =~= next);
                    }
                }
            } else {
                proof {
                    lemma_sources_at_push(shown@, taken, position);
                    assert(taken.push(position) =~= next);
                }
            }
            low = match low {
                Some(low) => if position < low {
                    Some(position)
                } else {
                    Some(low)
                },
                None => Some(position),
            };
            i += 1;
        }
        proof {
            assert(positions@.take(i as int) =~= positions@);
        }
        self.chosen = chosen;
        self.anchor = match low {
            Some(low) => if low < shown.len() {
                Some(shown[low])
            } else {
                None
            },
            None => None,
        };
    }

    /// Picks out exactly the pages at `positions`, as a marquee does.
    pub fn set_positions(&mut self, order: &PageOrder, positions: &[usize])
        ensures
            final(self)@ == SelectionView::set_to(order@.order, positions@),
    {
        self.set_among(order.as_slice(), positions);
    }

    /// Picks nothing out, and forgets where a range would start.
    pub fn clear(&mut self)
        ensures
            final(self)@ == SelectionView::none(),
    {
        self.chosen = Vec::new();
        self.anchor = None;
        proof {
            assert(self@.chosen =~= Set::empty());
        }
    }
}

proof fn lemma_sources_at_push(shown: Seq<Source>, positions: Seq<usize>, position: usize)
    ensures
        sources_at(shown, positions.push(position)) == (if position < shown.len() {
            sources_at(shown, positions).insert(shown[position as int])
        } else {
            sources_at(shown, positions)
        }),
{
    let all = positions.push(position);
    let expected = if position < shown.len() {
        sources_at(shown, positions).insert(shown[position as int])
    } else {
        sources_at(shown, positions)
    };
    assert forall|s: Source|
        sources_at(shown, all).contains(s) == expected.contains(s) by {
        if sources_at(shown, positions).contains(s) {
            let i = choose|i: int|
                0 <= i < positions.len() && (#[trigger] positions[i]) < shown.len()
                    && shown[positions[i] as int] == s;
            assert(all[i] == positions[i]);
        }
        if sources_at(shown, all).contains(s) {
            let i = choose|i: int|
                0 <= i < all.len() && (#[trigger] all[i]) < shown.len() && shown[all[i] as int]
                    == s;
            if i < positions.len() {
                assert(all[i] == positions[i]);
            }
        }
        if position < shown.len() && s == shown[position as int] {
            assert(all[positions.len() as int] == position);
        }
    }
    assert(sources_at(shown, all) =~= expected);
}

/// Whether everything in `left` is in `right`.
fn within(left: &[Source], right: &[Source]) -> (within: bool)
    ensures
        within == left@.to_set().subset_of(right@.to_set()),
{
    let mut i: usize = 0;
    while i < left.len()
        invariant
            i <= left.len(),
            forall|j: int| 0 <= j < i ==> right@.to_set().contains(#[trigger] left@[j]),
        decreases left.len() - i,
    {
        if !holds(right, left[i]) {
            proof {
                assert(left@.to_set().contains(left@[i as int]));
            }
            return false;
        }
        i += 1;
    }
    proof {
        assert forall|s: Source| left@.to_set().contains(s) implies right@.to_set().contains(s) by {
            let k = choose|k: int| 0 <= k < left@.len() && left@[k] == s;
            assert(right@.to_set().contains(left@[k]));
        }
    }
    true
}

/// The positions of a selection are exactly those that show one of its pages, each once,
/// ascending.
pub proof fn law_positions_are_where_the_chosen_pages_are(shown: Seq<Source>, chosen: Set<Source>)
    requires
        shown.len() <= usize::MAX,
    ensures
        ({
            let positions = chosen_positions(shown, chosen);
            &&& forall|p: int|
                0 <= p < shown.len() ==> (chosen.contains(#[trigger] shown[p])
                    <==> positions.contains(p as usize))
            &&& forall|i: int| 0 <= i < positions.len() ==> #[trigger] positions[i] < shown.len()
            &&& forall|i: int, j: int|
                0 <= i < j < positions.len() ==> #[trigger] positions[i] < #[trigger] positions[j]
        }),
    decreases shown.len(),
{
    if shown.len() > 0 {
        let front = shown.drop_last();
        let last = (shown.len() - 1) as usize;
        law_positions_are_where_the_chosen_pages_are(front, chosen);
        let earlier = chosen_positions(front, chosen);
        let positions = chosen_positions(shown, chosen);
        assert forall|p: int| 0 <= p < shown.len() implies (chosen.contains(#[trigger] shown[p])
            <==> positions.contains(p as usize)) by {
            if p < last {
                assert(front[p] == shown[p]);
                if earlier.contains(p as usize) {
                    let k = choose|k: int| 0 <= k < earlier.len() && earlier[k] == p as usize;
                    assert(positions[k] == p as usize);
                }
                if positions.contains(p as usize) {
                    let k = choose|k: int| 0 <= k < positions.len() && positions[k] == p as usize;
                    if k < earlier.len() {
                        assert(earlier[k] == p as usize);
                    }
                }
            } else {
                if chosen.contains(shown[p]) {
                    assert(positions.last() == last);
                } else if positions.contains(last) {
                    let k = choose|k: int| 0 <= k < positions.len() && positions[k] == last;
                    assert(earlier[k] < front.len());
                }
            }
        }
    }
}

proof fn lemma_count_adds(left: Seq<Source>, right: Seq<Source>, chosen: Set<Source>)
    ensures
        chosen_positions(left + right, chosen).len() == chosen_positions(left, chosen).len()
            + chosen_positions(right, chosen).len(),
    decreases right.len(),
{
    if right.len() == 0 {
        assert(left + right =~= left);
    } else {
        lemma_count_adds(left, right.drop_last(), chosen);
        assert((left + right).drop_last() =~= left + right.drop_last());
        assert((left + right).last() == right.last());
    }
}

proof fn lemma_count_parts(shown: Seq<Source>, positions: Seq<usize>, chosen: Set<Source>)
    ensures
        chosen_positions(shown, chosen).len() == chosen_positions(
            order::select(shown, positions, true),
            chosen,
        ).len() + chosen_positions(order::select(shown, positions, false), chosen).len(),
    decreases shown.len(),
{
    if shown.len() > 0 {
        let front = shown.drop_last();
        lemma_count_parts(front, positions, chosen);
        let inside = order::select(front, positions, true);
        let outside = order::select(front, positions, false);
        assert(inside.push(shown.last()).drop_last() =~= inside);
        assert(outside.push(shown.last()).drop_last() =~= outside);
    }
}

/// A selection follows its pages: moving pages changes which positions are picked out but not
/// how many.
pub proof fn law_a_selection_follows_moved_pages(
    view: OrderView,
    chosen: Set<Source>,
    positions: Seq<usize>,
    to: usize,
)
    ensures
        chosen_positions(view.moved(positions, to).order, chosen).len() == chosen_positions(
            view.order,
            chosen,
        ).len(),
{
    let rest = order::select(view.order, positions, false);
    let group = order::select(view.order, positions, true);
    let landing = if to < rest.len() {
        to as int
    } else {
        rest.len() as int
    };
    lemma_count_parts(view.order, positions, chosen);
    lemma_count_adds(rest.take(landing), group, chosen);
    lemma_count_adds(rest.take(landing) + group, rest.skip(landing), chosen);
    lemma_count_adds(rest.take(landing), rest.skip(landing), chosen);
    assert(rest.take(landing) + rest.skip(landing) =~= rest);
}

proof fn lemma_select_outside_unchosen(
    shown: Seq<Source>,
    chosen: Set<Source>,
    positions: Seq<usize>,
)
    requires
        shown.len() <= usize::MAX,
        forall|p: int|
            0 <= p < shown.len() ==> (chosen.contains(#[trigger] shown[p]) ==> positions.contains(
                p as usize,
            )),
    ensures
        chosen_positions(order::select(shown, positions, false), chosen).len() == 0,
    decreases shown.len(),
{
    if shown.len() > 0 {
        let front = shown.drop_last();
        assert forall|p: int| 0 <= p < front.len() implies (chosen.contains(#[trigger] front[p])
            ==> positions.contains(p as usize)) by {
            assert(front[p] == shown[p]);
        }
        lemma_select_outside_unchosen(front, chosen, positions);
        let earlier = order::select(front, positions, false);
        assert(shown.last() == shown[shown.len() - 1]);
        assert(earlier.push(shown.last()).drop_last() =~= earlier);
    }
}

/// Deleting the selected pages leaves nothing selected.
pub proof fn law_deleting_the_selection_leaves_none(view: OrderView, chosen: Set<Source>)
    requires
        view.order.len() <= usize::MAX,
    ensures
        chosen_positions(view.removed(chosen_positions(view.order, chosen)).order, chosen).len()
            == 0,
{
    law_positions_are_where_the_chosen_pages_are(view.order, chosen);
    lemma_select_outside_unchosen(view.order, chosen, chosen_positions(view.order, chosen));
}

/// Undoing an edit puts the selection back on the pages it was on.
pub proof fn law_undo_brings_the_selection_back(
    view: OrderView,
    chosen: Set<Source>,
    edited: Seq<Source>,
)
    requires
        view.wf(),
    ensures
        chosen_positions(view.edited(edited).undone().order, chosen) == chosen_positions(
            view.order,
            chosen,
        ),
{
    order_laws::law_undo_reverts_the_last_edit(view, edited);
}

/// Toggling a page twice leaves the selection as it was.
pub proof fn law_toggling_twice_changes_nothing(
    selection: SelectionView,
    shown: Seq<Source>,
    position: usize,
)
    ensures
        selection.picked(shown, position, Pick::Toggle).picked(
            shown,
            position,
            Pick::Toggle,
        ).chosen == selection.chosen,
{
    let twice = selection.picked(shown, position, Pick::Toggle).picked(
        shown,
        position,
        Pick::Toggle,
    );
    assert(twice.chosen =~= selection.chosen);
}

/// A range is measured from the same page however often it is drawn again: only the last
/// range counts.
pub proof fn law_a_second_range_replaces_the_first(
    selection: SelectionView,
    shown: Seq<Source>,
    first: usize,
    second: usize,
)
    requires
        selection.anchor_position(shown) is Some,
        first < shown.len(),
    ensures
        selection.picked(shown, first, Pick::Range).picked(shown, second, Pick::Range) == (
        if second < shown.len() {
            selection.picked(shown, second, Pick::Range)
        } else {
            selection.picked(shown, first, Pick::Range)
        }),
{
}

} // verus!
