//! What holds of every page order, whatever edits it went through.

use vstd::prelude::*;

use crate::order;
use crate::order::{OrderView, Source, UNDO_DEPTH};

verus! {

/// Whether each source names a page that its own document has.
pub open spec fn within(order: Seq<Source>, source_lens: Seq<usize>) -> bool {
    forall|i: int|
        0 <= i < order.len() ==> {
            let source = #[trigger] order[i];
            &&& source.document < source_lens.len()
            &&& source.page < source_lens[source.document as int]
        }
}

/// Whether every page that is shown, or that an undo could show, is one that its own
/// document has.
pub open spec fn in_range(view: OrderView) -> bool {
    &&& within(view.order, view.source_lens)
    &&& forall|i: int|
        0 <= i < view.history.len() ==> within(#[trigger] view.history[i], view.source_lens)
}

/// Undo reverts exactly the last edit: the order before it is shown again, nothing else
/// has changed, and only the step itself is gone from the history (with the oldest step,
/// where the history was full).
pub proof fn law_undo_reverts_the_last_edit(view: OrderView, order: Seq<Source>)
    requires
        view.wf(),
    ensures
        view.edited(order).wf(),
        view.edited(order).history.len() > 0,
        view.edited(order).undone() == (OrderView {
            history: if view.history.len() == UNDO_DEPTH {
                view.history.drop_first()
            } else {
                view.history
            },
            ..view
        }),
{
    assert(view.remembered().drop_last() =~= if view.history.len() == UNDO_DEPTH {
        view.history.drop_first()
    } else {
        view.history
    });
}

/// Undo after an append shows the order from before it.
pub proof fn law_undo_reverts_an_append(view: OrderView, document: usize, count: usize)
    requires
        view.wf(),
        document < usize::MAX,
    ensures
        view.appended(document, count).undone().order == view.order,
{
    law_undo_reverts_the_last_edit(view, view.order + order::pages_of(document, count as nat));
}

/// However many pages one edit moves, removes or inserts, one undo step stands for it.
pub proof fn law_a_group_edit_is_one_undo_step(
    view: OrderView,
    positions: Seq<usize>,
    to: usize,
    document: usize,
    pages: Seq<usize>,
)
    requires
        view.wf(),
        view.history.len() < UNDO_DEPTH,
    ensures
        view.moved(positions, to).history == view.history.push(view.order),
        view.removed(positions).history == view.history.push(view.order),
        view.inserted(document, pages, to).history == view.history.push(view.order),
{
}

/// Which pages an edit means depends on which positions are named, not on how often or in
/// what order they are.
pub proof fn law_positions_are_a_set(
    view: OrderView,
    left: Seq<usize>,
    right: Seq<usize>,
    to: usize,
)
    requires
        forall|p: usize| left.contains(p) <==> right.contains(p),
    ensures
        view.can_move(left, to) == view.can_move(right, to),
        view.moved(left, to) == view.moved(right, to),
        view.can_remove(left) == view.can_remove(right),
        view.removed(left) == view.removed(right),
{
    order::lemma_select_by_membership(view.order, left, right, true);
    order::lemma_select_by_membership(view.order, left, right, false);
    if order::usable(left, view.order.len()) {
        lemma_usable_by_membership(left, right, view.order.len());
    }
    if order::usable(right, view.order.len()) {
        lemma_usable_by_membership(right, left, view.order.len());
    }
}

proof fn lemma_usable_by_membership(left: Seq<usize>, right: Seq<usize>, len: nat)
    requires
        forall|p: usize| left.contains(p) <==> right.contains(p),
        order::usable(left, len),
    ensures
        order::usable(right, len),
{
    assert(left.contains(left[0]));
    assert(right.len() > 0);
    assert forall|i: int| 0 <= i < right.len() implies #[trigger] right[i] < len by {
        assert(right.contains(right[i]));
        let k = choose|k: int| 0 <= k < left.len() && left[k] == right[i];
        assert(left[k] < len);
    }
}

/// The pages inside and the pages outside a set of positions are together all the pages.
pub proof fn lemma_select_parts(order: Seq<Source>, positions: Seq<usize>)
    ensures
        order::select(order, positions, true).to_multiset().add(
            order::select(order, positions, false).to_multiset(),
        ) == order.to_multiset(),
        order::select(order, positions, true).len() + order::select(order, positions, false).len()
            == order.len(),
    decreases order.len(),
{
    broadcast use vstd::seq_lib::group_to_multiset_ensures;

    if order.len() > 0 {
        let earlier = order.drop_last();
        lemma_select_parts(earlier, positions);
        assert(order =~= earlier.push(order.last()));
        let inside = order::select(earlier, positions, true);
        let outside = order::select(earlier, positions, false);
        assert(inside.push(order.last()).to_multiset().add(outside.to_multiset())
            =~= inside.to_multiset().add(outside.to_multiset()).insert(order.last()));
        assert(inside.to_multiset().add(outside.push(order.last()).to_multiset())
            =~= inside.to_multiset().add(outside.to_multiset()).insert(order.last()));
    } else {
        assert(order =~= Seq::empty());
        assert(Seq::<Source>::empty().to_multiset().add(Seq::<Source>::empty().to_multiset())
            =~= Seq::<Source>::empty().to_multiset());
    }
}

proof fn lemma_splice_multiset(rest: Seq<Source>, block: Seq<Source>, at: int)
    requires
        0 <= at <= rest.len(),
    ensures
        order::splice(rest, block, at).to_multiset() == rest.to_multiset().add(block.to_multiset()),
{
    let front = rest.take(at);
    let back = rest.skip(at);
    vstd::seq_lib::lemma_multiset_commutative(front, block);
    vstd::seq_lib::lemma_multiset_commutative(front + block, back);
    vstd::seq_lib::lemma_multiset_commutative(front, back);
    assert(front + back =~= rest);
    assert(order::splice(rest, block, at).to_multiset() =~= rest.to_multiset().add(block.to_multiset()));
}

/// A move never loses, duplicates or invents a page: what is shown after it is a
/// permutation of what was shown before.
pub proof fn law_a_move_is_a_permutation(view: OrderView, positions: Seq<usize>, to: usize)
    ensures
        view.moved(positions, to).order.to_multiset() == view.order.to_multiset(),
        view.moved(positions, to).order.len() == view.order.len(),
{
    let rest = order::select(view.order, positions, false);
    let group = order::select(view.order, positions, true);
    let landing = if to < rest.len() {
        to as int
    } else {
        rest.len() as int
    };
    lemma_select_parts(view.order, positions);
    lemma_splice_multiset(rest, group, landing);
    assert(rest.to_multiset().add(group.to_multiset()) =~= group.to_multiset().add(
        rest.to_multiset(),
    ));
}

/// A moved group arrives contiguous, in the order it was shown in, starting where it was
/// asked to or as near as the end of the document allows, and the pages that did not move
/// keep their order.
pub proof fn law_a_moved_group_lands_together(view: OrderView, positions: Seq<usize>, to: usize)
    ensures
        ({
            let rest = order::select(view.order, positions, false);
            let group = order::select(view.order, positions, true);
            let landing = if to < rest.len() {
                to as int
            } else {
                rest.len() as int
            };
            let after = view.moved(positions, to).order;
            &&& after.subrange(landing, landing + group.len()) == group
            &&& after.take(landing) + after.skip(landing + group.len()) == rest
        }),
{
    let rest = order::select(view.order, positions, false);
    let group = order::select(view.order, positions, true);
    let landing = if to < rest.len() {
        to as int
    } else {
        rest.len() as int
    };
    let after = view.moved(positions, to).order;
    assert(after.subrange(landing, landing + group.len()) =~= group);
    assert(after.take(landing) + after.skip(landing + group.len()) =~= rest);
}

/// One page: it is the only one inside, and the others are what is left without it.
proof fn lemma_select_one(order: Seq<Source>, position: usize)
    requires
        order.len() <= usize::MAX,
    ensures
        position < order.len() ==> order::select(order, seq![position], true) == seq![
            order[position as int],
        ],
        position < order.len() ==> order::select(order, seq![position], false) == order.remove(
            position as int,
        ),
        position >= order.len() ==> order::select(order, seq![position], true)
            == Seq::<Source>::empty(),
        position >= order.len() ==> order::select(order, seq![position], false) == order,
    decreases order.len(),
{
    if order.len() > 0 {
        let earlier = order.drop_last();
        lemma_select_one(earlier, position);
        let one = seq![position];
        let last = (order.len() - 1) as usize;
        assert(one.contains(last) == (last == position)) by {
            assert(one[0] == position);
        }
        assert(order =~= earlier.push(order.last()));
        if last == position {
            assert(order::select(order, one, true) =~= seq![order[position as int]]);
            assert(order::select(order, one, false) =~= order.remove(position as int));
        } else if position < order.len() {
            assert(earlier.remove(position as int).push(order.last()) =~= order.remove(
                position as int,
            ));
        }
    } else {
        assert(order =~= Seq::empty());
    }
}

/// A single moved page sits where it was asked to, and the others keep their order.
pub proof fn law_a_moved_page_sits_where_asked(view: OrderView, from: usize, to: usize)
    requires
        from < view.order.len() <= usize::MAX,
        to < view.order.len(),
    ensures
        view.moved(seq![from], to).order == view.order.remove(from as int).insert(
            to as int,
            view.order[from as int],
        ),
        view.moved(seq![from], to).order[to as int] == view.order[from as int],
        view.can_move(seq![from], to) == (view.moved(seq![from], to).order != view.order),
{
    lemma_select_one(view.order, from);
    let rest = view.order.remove(from as int);
    assert(view.moved(seq![from], to).order =~= rest.insert(to as int, view.order[from as int]));
}

proof fn lemma_there_and_back(order: Seq<Source>, from: int, to: int)
    requires
        0 <= from < order.len(),
        0 <= to < order.len(),
    ensures
        order.remove(from).insert(to, order[from]).remove(to) == order.remove(from),
        order.remove(from).insert(from, order[from]) == order,
{
    let rest = order.remove(from);
    assert(rest.insert(to, order[from]).remove(to) =~= rest);
    assert(rest.insert(from, order[from]) =~= order);
}

/// Moving a page and moving it back shows what was shown before.
pub proof fn law_a_move_can_be_moved_back(view: OrderView, from: usize, to: usize)
    requires
        from < view.order.len() <= usize::MAX,
        to < view.order.len(),
    ensures
        view.moved(seq![from], to).moved(seq![to], from).order == view.order,
{
    law_a_moved_page_sits_where_asked(view, from, to);
    law_a_moved_page_sits_where_asked(view.moved(seq![from], to), to, from);
    lemma_there_and_back(view.order, from as int, to as int);
}

/// Removing pages takes exactly those away: what is left and what was taken are together
/// what was shown, and what is left keeps its order (it is what [`order::select`] leaves).
pub proof fn law_a_removal_takes_exactly_what_was_named(view: OrderView, positions: Seq<usize>)
    ensures
        view.removed(positions).order.to_multiset().add(
            order::select(view.order, positions, true).to_multiset(),
        ) == view.order.to_multiset(),
        view.removed(positions).order.len() + order::select(view.order, positions, true).len()
            == view.order.len(),
{
    lemma_select_parts(view.order, positions);
    assert(view.removed(positions).order.to_multiset().add(
        order::select(view.order, positions, true).to_multiset(),
    ) =~= order::select(view.order, positions, true).to_multiset().add(
        order::select(view.order, positions, false).to_multiset(),
    ));
}

/// Removing one page leaves the others as they were, and is refused only for a page that is
/// not there or is the last.
pub proof fn law_removing_one_page(view: OrderView, position: usize)
    requires
        view.order.len() <= usize::MAX,
    ensures
        view.can_remove(seq![position]) == (position < view.order.len() && view.order.len() > 1),
        position < view.order.len() ==> view.removed(seq![position]).order == view.order.remove(
            position as int,
        ),
{
    lemma_select_one(view.order, position);
    assert(order::usable(seq![position], view.order.len()) == (position < view.order.len())) by {
        assert(seq![position][0] == position);
    }
}

/// An insertion adds exactly the named pages, together and in the order named, and moves
/// none of the others relative to each other.
pub proof fn law_an_insertion_adds_only_what_was_named(
    view: OrderView,
    document: usize,
    pages: Seq<usize>,
    position: usize,
)
    requires
        position <= view.order.len(),
    ensures
        ({
            let after = view.inserted(document, pages, position).order;
            &&& after.subrange(position as int, position + pages.len()) == order::named_pages(
                document,
                pages,
            )
            &&& after.take(position as int) + after.skip(position + pages.len()) == view.order
        }),
{
    let after = view.inserted(document, pages, position).order;
    assert(after.subrange(position as int, position + pages.len()) =~= order::named_pages(
        document,
        pages,
    ));
    assert(after.take(position as int) + after.skip(position + pages.len()) =~= view.order);
}

/// Staging a document is no edit: what is shown, what counts as saved and what can be
/// undone all stay.
pub proof fn law_staging_is_no_edit(view: OrderView, document: usize, count: usize)
    ensures
        view.staged(document, count).order == view.order,
        view.staged(document, count).saved == view.saved,
        view.staged(document, count).history == view.history,
{
}

/// A document that was just staged or appended has the length it was given, and its file
/// holds its pages in order; the other documents keep theirs.
pub proof fn law_a_new_document_leaves_the_others_alone(
    view: OrderView,
    document: usize,
    count: usize,
)
    requires
        view.wf(),
    ensures
        view.staged(document, count).source_lens[document as int] == count,
        view.staged(document, count).on_disk[document as int] == order::pages_of(
            document,
            count as nat,
        ),
        forall|other: int|
            0 <= other < view.source_lens.len() && other != document ==> {
                &&& #[trigger] view.staged(document, count).source_lens[other]
                    == view.source_lens[other]
                &&& #[trigger] view.staged(document, count).on_disk[other] == view.on_disk[other]
            },
{
}

/// Once a save of the present order has reported success there is nothing left to save.
pub proof fn law_a_saved_order_is_unedited(view: OrderView, document: usize)
    ensures
        view.marked_saved(document, view.order).order == view.marked_saved(
            document,
            view.order,
        ).saved,
{
}

/// An edit that is undone leaves no unsaved change behind where there was none before.
pub proof fn law_undoing_back_to_the_saved_order_is_unedited(view: OrderView, order: Seq<Source>)
    requires
        view.wf(),
        view.order == view.saved,
    ensures
        view.edited(order).undone().order == view.edited(order).undone().saved,
{
    law_undo_reverts_the_last_edit(view, order);
}

/// A save that finished after further edits leaves those edits unsaved, and undo unharmed.
pub proof fn law_edits_made_during_a_save_stay_unsaved(
    view: OrderView,
    document: usize,
    written: Seq<Source>,
)
    requires
        view.order != written,
    ensures
        view.marked_saved(document, written).order != view.marked_saved(document, written).saved,
        view.marked_saved(document, written).history == view.history,
        view.marked_saved(document, written).order == view.order,
{
}

/// A save rewrites the record of the file it wrote, and of no other.
pub proof fn law_a_save_touches_no_other_documents_record(
    view: OrderView,
    document: usize,
    written: Seq<Source>,
    other: int,
)
    requires
        0 <= other < view.on_disk.len(),
    ensures
        view.marked_saved(document, written).on_disk[other] == (if other == document {
            written
        } else {
            view.on_disk[other]
        }),
        view.marked_saved(document, written).source_lens == view.source_lens,
{
}

/// A freshly opened document shows its own pages, has nothing to save or undo, and names
/// only pages it has.
pub proof fn law_a_fresh_order_is_the_document_as_opened(count: usize)
    ensures
        OrderView::fresh(count).wf(),
        in_range(OrderView::fresh(count)),
        OrderView::fresh(count).order == OrderView::fresh(count).saved,
        OrderView::fresh(count).order == order::pages_of(0, count as nat),
        OrderView::fresh(count).history.len() == 0,
{
}

proof fn lemma_within_select(
    order: Seq<Source>,
    positions: Seq<usize>,
    inside: bool,
    source_lens: Seq<usize>,
)
    requires
        within(order, source_lens),
    ensures
        within(order::select(order, positions, inside), source_lens),
    decreases order.len(),
{
    if order.len() > 0 {
        assert(within(order.drop_last(), source_lens)) by {
            assert forall|i: int| 0 <= i < order.drop_last().len() implies {
                let source = #[trigger] order.drop_last()[i];
                &&& source.document < source_lens.len()
                &&& source.page < source_lens[source.document as int]
            } by {
                assert(order.drop_last()[i] == order[i]);
            }
        }
        lemma_within_select(order.drop_last(), positions, inside, source_lens);
        assert(order.last() == order[order.len() - 1]);
    }
}

proof fn lemma_edit_in_range(view: OrderView, order: Seq<Source>)
    requires
        view.wf(),
        in_range(view),
        within(order, view.source_lens),
    ensures
        in_range(view.edited(order)),
{
    let after = view.edited(order);
    assert forall|i: int| 0 <= i < after.history.len() implies within(
        #[trigger] after.history[i],
        after.source_lens,
    ) by {
        if view.history.len() == UNDO_DEPTH {
            if i < after.history.len() - 1 {
                assert(after.history[i] == view.history[i + 1]);
            }
        } else if i < view.history.len() {
            assert(after.history[i] == view.history[i]);
        }
    }
}

proof fn lemma_within_staged(view: OrderView, order: Seq<Source>, document: usize, count: usize)
    requires
        view.wf(),
        view.source_lens.len() <= document,
        within(order, view.source_lens),
    ensures
        within(order, view.staged(document, count).source_lens),
{
}

/// No edit shows a page that its document does not have, provided a document that is added
/// gets an index of its own; nor could any undo.
pub proof fn law_every_source_stays_in_range(
    view: OrderView,
    positions: Seq<usize>,
    to: usize,
    document: usize,
    pages: Seq<usize>,
    count: usize,
)
    requires
        view.wf(),
        in_range(view),
    ensures
        in_range(view.moved(positions, to)),
        in_range(view.removed(positions)),
        view.can_insert(document, pages, to) ==> in_range(view.inserted(document, pages, to)),
        view.history.len() > 0 ==> in_range(view.undone()),
        view.source_lens.len() <= document < usize::MAX ==> in_range(view.staged(document, count)),
        view.source_lens.len() <= document < usize::MAX ==> in_range(
            view.appended(document, count),
        ),
{
    let rest = order::select(view.order, positions, false);
    let group = order::select(view.order, positions, true);
    lemma_within_select(view.order, positions, false, view.source_lens);
    lemma_within_select(view.order, positions, true, view.source_lens);
    lemma_edit_in_range(view, rest);
    let landing = if to < rest.len() {
        to as int
    } else {
        rest.len() as int
    };
    let moved = order::splice(rest, group, landing);
    assert(within(moved, view.source_lens)) by {
        assert forall|i: int| 0 <= i < moved.len() implies {
            let source = #[trigger] moved[i];
            &&& source.document < view.source_lens.len()
            &&& source.page < view.source_lens[source.document as int]
        } by {
            if i < landing {
                assert(moved[i] == rest[i]);
            } else if i < landing + group.len() {
                assert(moved[i] == group[i - landing]);
            } else {
                assert(moved[i] == rest[i - group.len()]);
            }
        }
    }
    lemma_edit_in_range(view, moved);
    if view.can_insert(document, pages, to) {
        let block = order::named_pages(document, pages);
        let inserted = order::splice(view.order, block, to as int);
        assert forall|i: int| 0 <= i < inserted.len() implies {
            let source = #[trigger] inserted[i];
            &&& source.document < view.source_lens.len()
            &&& source.page < view.source_lens[source.document as int]
        } by {
            if i < to {
                assert(inserted[i] == view.order[i]);
            } else if i < to + block.len() {
                assert(inserted[i] == block[i - to]);
                assert(pages[i - to] < view.source_lens[document as int]);
            } else {
                assert(inserted[i] == view.order[i - block.len()]);
            }
        }
        lemma_edit_in_range(view, inserted);
    }
    if view.history.len() > 0 {
        let back = view.undone();
        assert(within(view.history[view.history.len() - 1], view.source_lens));
        assert forall|i: int| 0 <= i < back.history.len() implies within(
            #[trigger] back.history[i],
            back.source_lens,
        ) by {
            assert(back.history[i] == view.history[i]);
        }
    }
    if view.source_lens.len() <= document < usize::MAX {
        let staged = view.staged(document, count);
        lemma_within_staged(view, view.order, document, count);
        assert forall|i: int| 0 <= i < staged.history.len() implies within(
            #[trigger] staged.history[i],
            staged.source_lens,
        ) by {
            lemma_within_staged(view, view.history[i], document, count);
        }
        let longer = view.order + order::pages_of(document, count as nat);
        let appended = view.appended(document, count);
        assert(appended.source_lens == staged.source_lens);
        assert(within(longer, appended.source_lens)) by {
            assert forall|i: int| 0 <= i < longer.len() implies {
                let source = #[trigger] longer[i];
                &&& source.document < appended.source_lens.len()
                &&& source.page < appended.source_lens[source.document as int]
            } by {
                if i < view.order.len() {
                    assert(longer[i] == view.order[i]);
                }
            }
        }
        assert forall|i: int| 0 <= i < appended.history.len() implies within(
            #[trigger] appended.history[i],
            appended.source_lens,
        ) by {
            if view.history.len() == UNDO_DEPTH {
                if i < appended.history.len() - 1 {
                    assert(appended.history[i] == view.history[i + 1]);
                    lemma_within_staged(view, view.history[i + 1], document, count);
                }
            } else if i < view.history.len() {
                assert(appended.history[i] == view.history[i]);
                lemma_within_staged(view, view.history[i], document, count);
            }
        }
    }
}

/// Whether no page is shown twice, nor could be after any undo.
pub open spec fn never_twice(view: OrderView) -> bool {
    &&& view.order.no_duplicates()
    &&& forall|i: int| 0 <= i < view.history.len() ==> (#[trigger] view.history[i]).no_duplicates()
}

/// Pages among those of an order without repetition do not repeat either.
proof fn lemma_part_without_repetition(part: Seq<Source>, rest: Seq<Source>, whole: Seq<Source>)
    requires
        whole.no_duplicates(),
        part.to_multiset().add(rest.to_multiset()) == whole.to_multiset(),
    ensures
        part.no_duplicates(),
{
    whole.lemma_multiset_has_no_duplicates();
    assert forall|source: Source| part.to_multiset().contains(source) implies part.to_multiset().count(
        source,
    ) == 1 by {
        assert(whole.to_multiset().count(source) == part.to_multiset().count(source)
            + rest.to_multiset().count(source));
        assert(whole.to_multiset().contains(source));
    }
    part.lemma_multiset_has_no_duplicates_conv();
}

proof fn lemma_edit_never_twice(view: OrderView, order: Seq<Source>)
    requires
        view.wf(),
        never_twice(view),
        order.no_duplicates(),
    ensures
        never_twice(view.edited(order)),
{
    let after = view.edited(order);
    assert forall|i: int| 0 <= i < after.history.len() implies (
    #[trigger] after.history[i]).no_duplicates() by {
        if view.history.len() == UNDO_DEPTH {
            if i < after.history.len() - 1 {
                assert(after.history[i] == view.history[i + 1]);
            }
        } else if i < view.history.len() {
            assert(after.history[i] == view.history[i]);
        }
    }
}

/// Where nothing is inserted, no page is ever shown twice: not in a document just opened, and
/// not after any move, removal, undo, save, staging or append, provided a document that is
/// added gets an index of its own.
pub proof fn law_no_page_is_shown_twice(
    view: OrderView,
    opened: usize,
    positions: Seq<usize>,
    to: usize,
    document: usize,
    count: usize,
    written: Seq<Source>,
)
    requires
        view.wf(),
        in_range(view),
        never_twice(view),
    ensures
        never_twice(OrderView::fresh(opened)),
        never_twice(view.moved(positions, to)),
        never_twice(view.removed(positions)),
        view.history.len() > 0 ==> never_twice(view.undone()),
        never_twice(view.marked_saved(document, written)),
        document < usize::MAX ==> never_twice(view.staged(document, count)),
        view.source_lens.len() <= document < usize::MAX ==> never_twice(
            view.appended(document, count),
        ),
{
    law_a_move_is_a_permutation(view, positions, to);
    let moved = view.moved(positions, to).order;
    let nothing = Seq::<Source>::empty();
    assert(nothing.to_multiset().len() == 0) by {
        broadcast use vstd::seq_lib::group_to_multiset_ensures;

    }
    assert(moved.to_multiset().add(nothing.to_multiset()) =~= view.order.to_multiset());
    lemma_part_without_repetition(moved, nothing, view.order);
    lemma_edit_never_twice(view, moved);
    law_a_removal_takes_exactly_what_was_named(view, positions);
    let removed = view.removed(positions).order;
    lemma_part_without_repetition(
        removed,
        order::select(view.order, positions, true),
        view.order,
    );
    lemma_edit_never_twice(view, removed);
    if view.history.len() > 0 {
        let back = view.undone();
        assert(back.order == view.history[view.history.len() - 1]);
        assert forall|i: int| 0 <= i < back.history.len() implies (
        #[trigger] back.history[i]).no_duplicates() by {
            assert(back.history[i] == view.history[i]);
        }
    }
    if view.source_lens.len() <= document < usize::MAX {
        let longer = view.order + order::pages_of(document, count as nat);
        assert forall|i: int, j: int|
            0 <= i < longer.len() && 0 <= j < longer.len() && i != j implies longer[i]
            != longer[j] by {
            let k = if i < view.order.len() {
                i
            } else {
                j
            };
            if k < view.order.len() {
                assert(view.order[k].document < view.source_lens.len());
            }
        }
        lemma_edit_never_twice(view, longer);
    }
}

/// Staging a document that is not known yet and placing all its pages last is the same as
/// appending it: the same order, the same undo steps and the same records.
pub proof fn law_placing_all_of_a_staged_document_last_appends_it(
    view: OrderView,
    document: usize,
    count: usize,
)
    requires
        document == view.source_lens.len(),
        view.source_lens.len() == view.on_disk.len(),
        document < usize::MAX,
        count > 0,
        view.order.len() <= usize::MAX,
    ensures
        ({
            let staged = view.staged(document, count);
            let pages = Seq::new(count as nat, |page: int| page as usize);
            let last = view.order.len() as usize;
            &&& staged.can_insert(document, pages, last)
            &&& staged.inserted(document, pages, last) == view.appended(document, count)
        }),
{
    let staged = view.staged(document, count);
    let pages = Seq::new(count as nat, |page: int| page as usize);
    let last = view.order.len() as usize;
    let placed = staged.inserted(document, pages, last);
    let appended = view.appended(document, count);
    assert(order::named_pages(document, pages) =~= order::pages_of(document, count as nat));
    assert(placed.order =~= appended.order);
    assert(placed =~= appended);
}

/// Whether `part` is what `whole` has at exactly those of its positions that `named` holds of
/// (`inside`) or does not (`!inside`), in ascending order of position; `at` says at which.
pub open spec fn is_part(
    whole: Seq<Source>,
    part: Seq<Source>,
    named: Seq<usize>,
    inside: bool,
    at: Seq<int>,
) -> bool {
    &&& at.len() == part.len()
    &&& forall|i: int|
        0 <= i < at.len() ==> 0 <= #[trigger] at[i] < whole.len() && part[i] == whole[at[i]]
    &&& forall|i: int, j: int| 0 <= i < j < at.len() ==> #[trigger] at[i] < #[trigger] at[j]
    &&& forall|p: int|
        0 <= p < whole.len() ==> (#[trigger] at.contains(p) <==> (exists|k: int|
            0 <= k < named.len() && #[trigger] named[k] == p) == inside)
}

/// What is selected is at exactly the positions named, or not named, ascending.
proof fn lemma_select_is_part(whole: Seq<Source>, named: Seq<usize>, inside: bool) -> (at: Seq<int>)
    requires
        whole.len() <= usize::MAX + 1,
    ensures
        is_part(whole, order::select(whole, named, inside), named, inside, at),
    decreases whole.len(),
{
    if whole.len() == 0 {
        Seq::empty()
    } else {
        let front = whole.drop_last();
        let last = whole.len() - 1;
        let earlier = lemma_select_is_part(front, named, inside);
        let part = order::select(front, named, inside);
        let taken = named.contains(last as usize) == inside;
        let at = if taken {
            earlier.push(last)
        } else {
            earlier
        };
        assert(named.contains(last as usize) == (exists|k: int|
            0 <= k < named.len() && #[trigger] named[k] == last));
        assert forall|i: int| 0 <= i < at.len() implies 0 <= #[trigger] at[i] < whole.len()
            && order::select(whole, named, inside)[i] == whole[at[i]] by {
            if i < earlier.len() {
                assert(at[i] == earlier[i]);
                assert(part[i] == front[earlier[i]]);
            }
        }
        assert forall|i: int, j: int| 0 <= i < j < at.len() implies #[trigger] at[i]
            < #[trigger] at[j] by {
            assert(at[i] == earlier[i]);
            if j < earlier.len() {
                assert(at[j] == earlier[j]);
            }
        }
        assert forall|p: int| 0 <= p < whole.len() implies (#[trigger] at.contains(p) <==> (
        exists|k: int| 0 <= k < named.len() && #[trigger] named[k] == p) == inside) by {
            if p < last {
                assert(earlier.contains(p) <==> (exists|k: int|
                    0 <= k < named.len() && #[trigger] named[k] == p) == inside);
                if earlier.contains(p) {
                    let i = choose|i: int| 0 <= i < earlier.len() && earlier[i] == p;
                    assert(at[i] == p);
                }
                if at.contains(p) {
                    let i = choose|i: int| 0 <= i < at.len() && at[i] == p;
                    assert(earlier[i] == p);
                }
            } else {
                if taken {
                    assert(at[earlier.len() as int] == p);
                }
                if at.contains(p) && !taken {
                    let i = choose|i: int| 0 <= i < at.len() && at[i] == p;
                    assert(earlier[i] < front.len());
                }
            }
        }
        at
    }
}

/// After pages were removed, what is shown is what was shown at exactly the positions that were
/// not named, in the same order. They are removed only if they are all there and are not all
/// there is.
pub proof fn law_what_is_left_is_what_was_not_named(view: OrderView, positions: Seq<usize>)
    requires
        view.order.len() <= usize::MAX,
    ensures
        exists|at: Seq<int>| #[trigger]
            is_part(view.order, view.removed(positions).order, positions, false, at),
        view.can_remove(positions) <==> {
            &&& positions.len() > 0
            &&& forall|k: int| 0 <= k < positions.len() ==> #[trigger] positions[k]
                < view.order.len()
            &&& exists|p: int|
                0 <= p < view.order.len() && !(#[trigger] is_named(positions, p))
        },
{
    let rest = order::select(view.order, positions, false);
    let at = lemma_select_is_part(view.order, positions, false);
    assert(is_part(view.order, view.removed(positions).order, positions, false, at));
    if rest.len() > 0 {
        assert(at.contains(at[0]));
        assert(!is_named(positions, at[0]));
    }
    if exists|p: int| 0 <= p < view.order.len() && !(#[trigger] is_named(positions, p)) {
        let p = choose|p: int|
            0 <= p < view.order.len() && !(#[trigger] is_named(positions, p));
        assert(at.contains(p));
    }
}

/// Whether a position is among those named.
pub open spec fn is_named(positions: Seq<usize>, p: int) -> bool {
    exists|k: int| 0 <= k < positions.len() && #[trigger] positions[k] == p
}

/// Whether `after` is `whole` with what was at the named positions gathered, in the order it was
/// in, so that it starts at `landing`, and the rest around it in the order it was in.
pub open spec fn is_gathered(
    whole: Seq<Source>,
    after: Seq<Source>,
    named: Seq<usize>,
    landing: int,
    inside: Seq<int>,
    outside: Seq<int>,
) -> bool {
    &&& 0 <= landing <= outside.len()
    &&& inside.len() + outside.len() == whole.len() == after.len()
    &&& is_part(whole, after.subrange(landing, landing + inside.len()), named, true, inside)
    &&& is_part(
        whole,
        after.take(landing) + after.skip((landing + inside.len()) as int),
        named,
        false,
        outside,
    )
}

/// After a move the block that lands is what was shown at exactly the named positions, in the
/// order it was shown in. It starts at the position asked for, or as near to it as keeps the
/// whole block in the document, and the pages not named keep their order around it.
pub proof fn law_the_block_that_lands_is_what_was_named(
    view: OrderView,
    positions: Seq<usize>,
    to: usize,
)
    requires
        view.order.len() <= usize::MAX,
    ensures
        exists|landing: int, inside: Seq<int>, outside: Seq<int>|
            {
                &&& #[trigger] is_gathered(
                    view.order,
                    view.moved(positions, to).order,
                    positions,
                    landing,
                    inside,
                    outside,
                )
                &&& landing == if to <= outside.len() {
                    to as int
                } else {
                    outside.len() as int
                }
            },
        view.can_move(positions, to) <==> {
            &&& positions.len() > 0
            &&& forall|k: int| 0 <= k < positions.len() ==> #[trigger] positions[k]
                < view.order.len()
            &&& to < view.order.len()
            &&& view.moved(positions, to).order != view.order
        },
{
    let group = order::select(view.order, positions, true);
    let rest = order::select(view.order, positions, false);
    let inside = lemma_select_is_part(view.order, positions, true);
    let outside = lemma_select_is_part(view.order, positions, false);
    lemma_select_parts(view.order, positions);
    law_a_moved_group_lands_together(view, positions, to);
    law_a_move_is_a_permutation(view, positions, to);
    let landing = if to < rest.len() {
        to as int
    } else {
        rest.len() as int
    };
    assert(is_gathered(
        view.order,
        view.moved(positions, to).order,
        positions,
        landing,
        inside,
        outside,
    ));
}

/// Every edit keeps the records of the files and what counts as saved, and adds one step to the
/// history: the order as it was. Of sixty-four steps the oldest goes to make room.
pub proof fn law_an_edit_adds_one_step_of_sixty_four(
    view: OrderView,
    positions: Seq<usize>,
    to: usize,
    document: usize,
    pages: Seq<usize>,
)
    requires
        view.wf(),
    ensures
        view.history.len() <= 64,
        ({
            let history = if view.history.len() < 64 {
                view.history.push(view.order)
            } else {
                view.history.skip(1).push(view.order)
            };
            let moved = view.moved(positions, to);
            let removed = view.removed(positions);
            let inserted = view.inserted(document, pages, to);
            &&& moved == (OrderView { order: moved.order, history, ..view })
            &&& removed == (OrderView { order: removed.order, history, ..view })
            &&& inserted == (OrderView { order: inserted.order, history, ..view })
            &&& view.appended(document, to).history == history
        }),
        view.history.len() > 0 ==> view.undone() == (OrderView {
            order: view.history[view.history.len() - 1],
            history: view.history.take(view.history.len() - 1),
            ..view
        }),
{
    assert(view.history.drop_first() =~= view.history.skip(1));
}

/// Pages placed at a position stand there in the order they were named, each the page of its
/// document with the number named, and what was shown before stands before and after them. They
/// are placed only if there are any, the document is known and has them all, and the position is
/// one in the order or just past its end.
pub proof fn law_placed_pages_stand_where_they_were_put(
    view: OrderView,
    document: usize,
    pages: Seq<usize>,
    position: usize,
)
    requires
        position <= view.order.len(),
    ensures
        ({
            let after = view.inserted(document, pages, position).order;
            &&& after.len() == view.order.len() + pages.len()
            &&& forall|i: int| 0 <= i < position ==> #[trigger] after[i] == view.order[i]
            &&& forall|i: int|
                position <= i < position + pages.len() ==> #[trigger] after[i] == (Source {
                    document,
                    page: pages[i - position],
                })
            &&& forall|i: int|
                position + pages.len() <= i < after.len() ==> #[trigger] after[i]
                    == view.order[i - pages.len()]
        }),
        view.can_insert(document, pages, position) <==> {
            &&& pages.len() > 0
            &&& document < view.source_lens.len()
            &&& forall|i: int|
                0 <= i < pages.len() ==> #[trigger] pages[i] < view.source_lens[document as int]
        },
{
}

/// A document just opened shows page after page of itself; one that is appended stands whole
/// behind what was shown, page after page; and either way its file is known to hold just that.
pub proof fn law_a_document_comes_page_after_page(view: OrderView, document: usize, count: usize)
    requires
        view.wf(),
    ensures
        ({
            let fresh = OrderView::fresh(count);
            &&& fresh.order.len() == count
            &&& forall|i: int|
                0 <= i < count ==> #[trigger] fresh.order[i] == (Source {
                    document: 0,
                    page: i as usize,
                })
            &&& fresh.saved == fresh.order
            &&& fresh.source_lens == seq![count]
            &&& fresh.on_disk == seq![fresh.order]
            &&& fresh.history.len() == 0
        }),
        ({
            let after = view.appended(document, count);
            &&& after.order.len() == view.order.len() + count
            &&& forall|i: int| 0 <= i < view.order.len() ==> #[trigger] after.order[i]
                == view.order[i]
            &&& forall|i: int|
                view.order.len() <= i < after.order.len() ==> #[trigger] after.order[i] == (
                Source { document, page: (i - view.order.len()) as usize })
            &&& after.saved == view.saved
        }),
        ({
            let after = view.staged(document, count);
            let known = if document < view.source_lens.len() {
                view.source_lens.len() as int
            } else {
                document + 1
            };
            &&& after.order == view.order
            &&& after.saved == view.saved
            &&& after.history == view.history
            &&& after.source_lens.len() == known
            &&& after.on_disk.len() == known
            &&& forall|other: int|
                0 <= other < known ==> #[trigger] after.source_lens[other] == (if other
                    == document {
                    count
                } else if other < view.source_lens.len() {
                    view.source_lens[other]
                } else {
                    0
                })
            &&& forall|other: int|
                0 <= other < view.on_disk.len() && other != document ==> #[trigger] after.on_disk[
                other] == view.on_disk[other]
            &&& after.on_disk[document as int].len() == count
            &&& forall|i: int|
                0 <= i < count ==> #[trigger] after.on_disk[document as int][i] == (Source {
                    document,
                    page: i as usize,
                })
        }),
{
    assert(OrderView::fresh(count).on_disk =~~= seq![OrderView::fresh(count).order]);
}

/// Recording a save changes what counts as saved and what the file written is known to hold, to
/// what was written, and nothing else.
pub proof fn law_a_recorded_save_is_what_was_written(
    view: OrderView,
    document: usize,
    written: Seq<Source>,
)
    ensures
        ({
            let after = view.marked_saved(document, written);
            &&& after.saved == written
            &&& after.order == view.order
            &&& after.history == view.history
            &&& after.source_lens == view.source_lens
            &&& after.on_disk.len() == view.on_disk.len()
            &&& document < view.on_disk.len() ==> after.on_disk[document as int] == written
            &&& forall|other: int|
                0 <= other < view.on_disk.len() && other != document ==> #[trigger] after.on_disk[
                other] == view.on_disk[other]
        }),
{
}

} // verus!
