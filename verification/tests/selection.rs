//! Pages picked out in the grid.

use porpoise::order::{PageOrder, Source};
use porpoise::selection::{Pick, Selection};

fn order() -> PageOrder {
    PageOrder::identity(6)
}

#[test]
fn modifiers_map_to_picks() {
    assert_eq!(Pick::of(false, false), Pick::Only);
    assert_eq!(Pick::of(true, false), Pick::Toggle);
    assert_eq!(Pick::of(false, true), Pick::Range);
}

#[test]
fn shift_wins_over_ctrl() {
    assert_eq!(Pick::of(true, true), Pick::Range);
}

#[test]
fn a_fresh_selection_is_empty() {
    let selection = Selection::default();
    assert_eq!(selection.count(&order()), 0);
    assert_eq!(selection.positions(&order()), Vec::<usize>::new());
}

#[test]
fn a_plain_click_selects_only_that_page() {
    let order = order();
    let mut selection = Selection::default();
    selection.pick(&order, 3, Pick::Only);
    assert_eq!(selection.positions(&order), vec![3]);

    selection.pick(&order, 1, Pick::Only);
    assert_eq!(
        selection.positions(&order),
        vec![1],
        "a plain click did not replace the selection"
    );
}

#[test]
fn ctrl_click_adds_and_removes() {
    let order = order();
    let mut selection = Selection::default();
    selection.pick(&order, 1, Pick::Toggle);
    selection.pick(&order, 3, Pick::Toggle);
    selection.pick(&order, 5, Pick::Toggle);
    assert_eq!(selection.positions(&order), vec![1, 3, 5]);

    selection.pick(&order, 3, Pick::Toggle);
    assert_eq!(
        selection.positions(&order),
        vec![1, 5],
        "ctrl+click on a selected page did not deselect it"
    );
}

#[test]
fn shift_click_selects_the_range_between() {
    let order = order();
    let mut selection = Selection::default();
    selection.pick(&order, 1, Pick::Only);
    selection.pick(&order, 4, Pick::Range);
    assert_eq!(selection.positions(&order), vec![1, 2, 3, 4]);
}

#[test]
fn shift_click_works_backwards_too() {
    let order = order();
    let mut selection = Selection::default();
    selection.pick(&order, 4, Pick::Only);
    selection.pick(&order, 1, Pick::Range);
    assert_eq!(selection.positions(&order), vec![1, 2, 3, 4]);
}

#[test]
fn shift_clicking_twice_re_measures_from_the_same_anchor() {
    let order = order();
    let mut selection = Selection::default();
    selection.pick(&order, 1, Pick::Only);
    selection.pick(&order, 5, Pick::Range);
    assert_eq!(selection.positions(&order), vec![1, 2, 3, 4, 5]);

    selection.pick(&order, 3, Pick::Range);
    assert_eq!(
        selection.positions(&order),
        vec![1, 2, 3],
        "the second shift+click measured from the first instead of the anchor"
    );
}

#[test]
fn shift_click_with_no_anchor_is_a_plain_click() {
    let order = order();
    let mut selection = Selection::default();
    selection.pick(&order, 2, Pick::Range);
    assert_eq!(selection.positions(&order), vec![2]);
}

#[test]
fn a_range_after_a_ctrl_click_measures_from_it() {
    let order = order();
    let mut selection = Selection::default();
    selection.pick(&order, 0, Pick::Only);
    selection.pick(&order, 4, Pick::Toggle);
    selection.pick(&order, 2, Pick::Range);
    assert_eq!(
        selection.positions(&order),
        vec![2, 3, 4],
        "the range did not measure from the ctrl+clicked page"
    );
}

#[test]
fn a_marquee_replaces_the_selection() {
    let order = order();
    let mut selection = Selection::default();
    selection.pick(&order, 0, Pick::Only);
    selection.set_positions(&order, &[2, 3, 4]);
    assert_eq!(selection.positions(&order), vec![2, 3, 4]);
}

#[test]
fn a_shift_click_after_a_marquee_extends_from_its_top() {
    let order = order();
    let mut selection = Selection::default();
    selection.set_positions(&order, &[3, 4]);
    selection.pick(&order, 5, Pick::Range);
    assert_eq!(selection.positions(&order), vec![3, 4, 5]);
}

#[test]
fn an_empty_marquee_clears_the_selection() {
    let order = order();
    let mut selection = Selection::default();
    selection.pick(&order, 1, Pick::Only);
    selection.set_positions(&order, &[]);
    assert_eq!(selection.count(&order), 0);
}

#[test]
fn clicking_past_the_end_changes_nothing() {
    let order = order();
    let mut selection = Selection::default();
    selection.pick(&order, 2, Pick::Only);
    selection.pick(&order, 99, Pick::Only);
    assert_eq!(
        selection.positions(&order),
        vec![2],
        "a click outside the document disturbed the selection"
    );
}

#[test]
fn a_selection_follows_the_pages_when_they_move() {
    let mut order = order();
    let mut selection = Selection::default();
    selection.pick(&order, 0, Pick::Only);
    selection.pick(&order, 1, Pick::Toggle);
    assert_eq!(selection.positions(&order), vec![0, 1]);

    assert!(order.move_pages(&[0, 1], 4));
    assert_eq!(
        order.as_slice(),
        [2, 3, 4, 5, 0, 1]
            .map(|page| Source { document: 0, page })
            .to_vec()
    );
    assert_eq!(
        selection.positions(&order),
        vec![4, 5],
        "the selection did not follow the pages it was pointing at"
    );
}

#[test]
fn a_selection_is_unshifted_by_a_deletion_elsewhere() {
    let mut order = order();
    let mut selection = Selection::default();
    selection.pick(&order, 4, Pick::Only);
    assert!(order.remove(0));
    assert_eq!(
        selection.positions(&order),
        vec![3],
        "deleting an earlier page left the selection off by one"
    );
}

#[test]
fn deleting_the_selected_pages_leaves_nothing_selected() {
    let mut order = order();
    let mut selection = Selection::default();
    selection.set_positions(&order, &[1, 2]);
    assert!(order.remove_pages(&selection.positions(&order)));
    assert_eq!(
        selection.count(&order),
        0,
        "pages that are gone still counted as selected"
    );
}

#[test]
fn undoing_a_delete_brings_the_selection_back() {
    let mut order = order();
    let mut selection = Selection::default();
    selection.set_positions(&order, &[1, 2]);
    order.remove_pages(&[1, 2]);
    assert_eq!(selection.count(&order), 0);

    assert!(order.undo());
    assert_eq!(
        selection.positions(&order),
        vec![1, 2],
        "the selection did not come back with the pages"
    );
}

#[test]
fn an_anchor_whose_page_was_deleted_falls_back_to_a_plain_click() {
    let mut order = order();
    let mut selection = Selection::default();
    selection.pick(&order, 0, Pick::Only);
    assert!(order.remove(0));

    selection.pick(&order, 3, Pick::Range);
    assert_eq!(
        selection.positions(&order),
        vec![3],
        "a range measured from a page that no longer exists"
    );
}

#[test]
fn clearing_forgets_the_anchor_too() {
    let order = order();
    let mut selection = Selection::default();
    selection.pick(&order, 1, Pick::Only);
    selection.clear();
    selection.pick(&order, 4, Pick::Range);
    assert_eq!(selection.positions(&order), vec![4]);
}

#[test]
fn a_copy_picks_the_same_pages() {
    let order = order();
    let mut selection = Selection::default();
    selection.set_positions(&order, &[1, 4]);
    let mut copy = selection.duplicate();
    assert!(copy.same_as(&selection));
    copy.pick(&order, 2, Pick::Toggle);
    assert!(!copy.same_as(&selection));
    assert_eq!(selection.positions(&order), vec![1, 4]);
    assert_eq!(copy.positions(&order), vec![1, 2, 4]);
}

#[test]
fn the_anchor_is_the_page_last_picked() {
    let order = order();
    let mut selection = Selection::default();
    assert_eq!(selection.anchor_position(&order), None);
    selection.pick(&order, 2, Pick::Only);
    assert_eq!(selection.anchor_position(&order), Some(2));
    selection.pick(&order, 5, Pick::Range);
    assert_eq!(selection.anchor_position(&order), Some(2));
    selection.pick(&order, 3, Pick::Toggle);
    assert_eq!(selection.anchor_position(&order), Some(3));
    assert!(!selection.contains_position(&order, 3));
    assert!(selection.contains_position(&order, 4));
}

#[test]
fn pages_are_picked_among_whatever_is_shown() {
    let shown = [3, 1, 2].map(|page| Source { document: 1, page });
    let mut selection = Selection::default();
    selection.pick_among(&shown, 0, Pick::Only);
    selection.pick_among(&shown, 2, Pick::Range);
    assert_eq!(selection.positions_among(&shown), vec![0, 1, 2]);
    assert!(selection.contains_among(&shown, 1));
    assert!(!selection.contains_among(&shown, 3));
    selection.set_among(&shown, &[2, 7]);
    assert_eq!(selection.positions_among(&shown), vec![2]);
}
