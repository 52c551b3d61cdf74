//! Which pages are shown, and in which order.

use porpoise::order::{PageOrder, Source, UNDO_DEPTH};

fn p(page: usize) -> Source {
    Source::primary(page)
}

fn from_document(document: usize, pages: impl IntoIterator<Item = usize>) -> Vec<Source> {
    pages.into_iter().map(|page| Source { document, page }).collect()
}

fn primary(pages: impl IntoIterator<Item = usize>) -> Vec<Source> {
    from_document(0, pages)
}

#[test]
fn a_fresh_order_is_the_document_as_opened() {
    let order = PageOrder::identity(4);
    assert_eq!(order.as_slice(), primary([0, 1, 2, 3]));
    assert_eq!(order.len(), 4);
    assert_eq!(order.source_lens(), &[4]);
    assert_eq!(order.document_count(), 1);
    assert!(order.is_unedited());
    assert!(!order.can_undo());
}

#[test]
fn a_position_maps_to_a_source_page() {
    let order = PageOrder::identity(3);
    assert_eq!(order.source_of(0), Some(p(0)));
    assert_eq!(order.source_of(2), Some(p(2)));
    assert_eq!(order.source_of(3), None, "past the end");
}

#[test]
fn moving_a_page_forward_shifts_the_rest_back() {
    let mut order = PageOrder::identity(5);
    assert!(order.move_page(0, 2));
    assert_eq!(order.as_slice(), primary([1, 2, 0, 3, 4]));
    assert_eq!(
        order.source_of(2),
        Some(p(0)),
        "the moved page is now shown third"
    );
}

#[test]
fn moving_a_page_backward_shifts_the_rest_forward() {
    let mut order = PageOrder::identity(5);
    assert!(order.move_page(3, 1));
    assert_eq!(order.as_slice(), primary([0, 3, 1, 2, 4]));
}

#[test]
fn moving_the_last_page_to_the_front_reverses_nothing_else() {
    let mut order = PageOrder::identity(3);
    assert!(order.move_page(2, 0));
    assert_eq!(order.as_slice(), primary([2, 0, 1]));
}

#[test]
fn a_move_that_changes_nothing_reports_so() {
    let mut order = PageOrder::identity(3);
    assert!(!order.move_page(1, 1), "moved a page onto itself");
    assert!(!order.move_page(0, 9), "moved past the end");
    assert!(!order.move_page(9, 0), "moved from past the end");
    assert_eq!(order.as_slice(), primary([0, 1, 2]));
    assert!(
        !order.can_undo(),
        "a move that did nothing still recorded history"
    );
}

#[test]
fn deleting_a_page_drops_it_from_the_order() {
    let mut order = PageOrder::identity(4);
    assert!(order.remove(1));
    assert_eq!(order.as_slice(), primary([0, 2, 3]));
    assert_eq!(order.len(), 3);
    assert_eq!(
        order.source_lens(),
        &[4],
        "the source document still has four pages"
    );
}

#[test]
fn the_last_page_cannot_be_deleted() {
    let mut order = PageOrder::identity(1);
    assert!(!order.remove(0));
    assert_eq!(order.len(), 1);
}

#[test]
fn deleting_past_the_end_changes_nothing() {
    let mut order = PageOrder::identity(3);
    assert!(!order.remove(7));
    assert_eq!(order.as_slice(), primary([0, 1, 2]));
}

#[test]
fn a_group_moves_as_a_block_and_keeps_its_order() {
    let mut order = PageOrder::identity(6);
    assert!(order.move_pages(&[0, 1], 3));
    assert_eq!(order.as_slice(), primary([2, 3, 4, 0, 1, 5]));
    assert_eq!(
        order.source_of(3),
        Some(p(0)),
        "the group should start where it was asked to"
    );
}

#[test]
fn a_group_moving_backward_lands_where_asked() {
    let mut order = PageOrder::identity(6);
    assert!(order.move_pages(&[3, 4], 1));
    assert_eq!(order.as_slice(), primary([0, 3, 4, 1, 2, 5]));
}

#[test]
fn a_scattered_group_is_gathered_together() {
    let mut order = PageOrder::identity(6);
    assert!(order.move_pages(&[0, 2, 4], 2));
    assert_eq!(order.as_slice(), primary([1, 3, 0, 2, 4, 5]));
}

#[test]
fn a_group_dropped_past_the_end_lands_flush_against_it() {
    let mut order = PageOrder::identity(5);
    assert!(order.move_pages(&[0, 1, 2], 4));
    assert_eq!(order.as_slice(), primary([3, 4, 0, 1, 2]));
}

#[test]
fn a_single_page_group_moves_exactly_like_move_page() {
    for from in 0..5 {
        for to in 0..5 {
            let mut one = PageOrder::identity(5);
            let mut group = PageOrder::identity(5);
            assert_eq!(
                one.move_page(from, to),
                group.move_pages(&[from], to),
                "{from} -> {to} disagreed about whether anything changed"
            );
            assert_eq!(one.as_slice(), group.as_slice(), "{from} -> {to}");
        }
    }
}

#[test]
fn moving_a_group_onto_itself_changes_nothing() {
    let mut order = PageOrder::identity(5);
    assert!(!order.move_pages(&[1, 2], 1));
    assert_eq!(order.as_slice(), primary([0, 1, 2, 3, 4]));
    assert!(
        !order.can_undo(),
        "a move that did nothing recorded history"
    );
}

#[test]
fn moving_every_page_at_once_changes_nothing() {
    let mut order = PageOrder::identity(4);
    assert!(!order.move_pages(&[0, 1, 2, 3], 0));
    assert_eq!(order.as_slice(), primary([0, 1, 2, 3]));
}

#[test]
fn a_group_edit_is_one_undo_step() {
    let mut order = PageOrder::identity(6);
    order.move_pages(&[0, 1, 2], 3);
    assert_eq!(order.as_slice(), primary([3, 4, 5, 0, 1, 2]));
    assert!(order.undo());
    assert_eq!(order.as_slice(), primary([0, 1, 2, 3, 4, 5]));
    assert!(!order.can_undo(), "one drag left more than one step behind");
}

#[test]
fn a_group_delete_is_one_undo_step() {
    let mut order = PageOrder::identity(6);
    assert!(order.remove_pages(&[1, 3, 5]));
    assert_eq!(order.as_slice(), primary([0, 2, 4]));
    assert!(order.undo());
    assert_eq!(order.as_slice(), primary([0, 1, 2, 3, 4, 5]));
    assert!(!order.can_undo());
}

#[test]
fn duplicate_and_unordered_positions_are_accepted() {
    let mut order = PageOrder::identity(6);
    assert!(order.move_pages(&[4, 0, 4, 0], 2));
    assert_eq!(order.as_slice(), primary([1, 2, 0, 4, 3, 5]));
}

#[test]
fn deleting_every_page_is_refused() {
    let mut order = PageOrder::identity(3);
    assert!(!order.remove_pages(&[0, 1, 2]));
    assert_eq!(order.as_slice(), primary([0, 1, 2]));
    assert!(!order.can_undo());
}

#[test]
fn one_bad_position_makes_the_whole_group_edit_a_no_op() {
    let mut order = PageOrder::identity(4);
    assert!(!order.move_pages(&[0, 1, 9], 2));
    assert_eq!(order.as_slice(), primary([0, 1, 2, 3]));
    assert!(!order.remove_pages(&[0, 9]));
    assert_eq!(order.as_slice(), primary([0, 1, 2, 3]));
}

#[test]
fn an_empty_group_changes_nothing() {
    let mut order = PageOrder::identity(3);
    assert!(!order.move_pages(&[], 1));
    assert!(!order.remove_pages(&[]));
    assert_eq!(order.as_slice(), primary([0, 1, 2]));
}

#[test]
fn a_group_edit_never_loses_or_duplicates_a_page() {
    let mut order = PageOrder::identity(8);
    order.move_pages(&[0, 3, 7], 2);
    order.remove_pages(&[1, 4]);
    order.move_pages(&[0, 1], 4);

    let mut seen = order.as_slice().to_vec();
    let count = seen.len();
    seen.sort_unstable();
    seen.dedup();
    assert_eq!(seen.len(), count, "a page appeared twice: {order:?}");
    for &source in order.as_slice() {
        assert!(
            source.page < order.source_lens()[source.document],
            "invented page {source:?}"
        );
    }
}

#[test]
fn undo_goes_back_one_edit_at_a_time() {
    let mut order = PageOrder::identity(4);
    order.move_page(0, 3); // [1,2,3,0]
    order.remove(0); // [2,3,0]
    assert_eq!(order.as_slice(), primary([2, 3, 0]));

    assert!(order.undo());
    assert_eq!(order.as_slice(), primary([1, 2, 3, 0]), "one step back");

    assert!(order.undo());
    assert_eq!(order.as_slice(), primary([0, 1, 2, 3]), "back to the start");
    assert!(order.is_unedited());
}

#[test]
fn undo_past_the_beginning_is_a_no_op() {
    let mut order = PageOrder::identity(2);
    assert!(!order.undo());
    assert_eq!(order.as_slice(), primary([0, 1]));
}

#[test]
fn appending_another_documents_pages_extends_the_order() {
    let mut order = PageOrder::identity(3);
    assert!(order.append(order.document_count(), 2));

    let mut expected = primary([0, 1, 2]);
    expected.extend(from_document(1, [0, 1]));
    assert_eq!(order.as_slice(), expected);
    assert_eq!(order.len(), 5);
    assert_eq!(order.document_count(), 2);
    assert_eq!(order.source_lens(), &[3, 2]);
}

#[test]
fn appending_zero_pages_changes_nothing() {
    let mut order = PageOrder::identity(3);
    assert!(!order.append(1, 0));
    assert_eq!(
        order.document_count(),
        1,
        "an append that did nothing still counted a document"
    );
    assert!(!order.can_undo());
}

#[test]
fn appending_is_its_own_undo_step() {
    let mut order = PageOrder::identity(3);
    assert!(order.append(1, 2));
    assert_eq!(order.len(), 5);

    assert!(order.undo());
    assert_eq!(order.as_slice(), primary([0, 1, 2]));
    assert_eq!(order.len(), 3, "the undo did not remove the appended pages");
}

#[test]
fn an_appended_document_makes_the_order_edited() {
    let mut order = PageOrder::identity(3);
    let written = order.as_slice().to_vec();
    order.mark_saved(0, &written);
    assert!(order.is_unedited());

    order.append(1, 2);
    assert!(!order.is_unedited(), "inserted pages are unsaved changes");
}

#[test]
fn an_inserted_page_can_be_moved_and_deleted_like_any_other() {
    let mut order = PageOrder::identity(2);
    assert!(order.append(1, 2));

    assert!(order.move_page(2, 0));
    assert_eq!(
        order.source_of(0),
        Some(Source { document: 1, page: 0 }),
        "the first inserted page moved to the front like any other page would"
    );

    assert!(order.remove(0));
    assert_eq!(order.len(), 3);
}

#[test]
fn a_third_and_later_document_gets_its_own_index() {
    let mut order = PageOrder::identity(1);
    order.append(order.document_count(), 1);
    order.append(order.document_count(), 1);
    assert_eq!(order.document_count(), 3);
    assert_eq!(
        order.as_slice(),
        vec![Source { document: 0, page: 0 }, Source { document: 1, page: 0 }, Source {
            document: 2,
            page: 0
        }]
    );
}

#[test]
fn each_documents_bound_is_checked_against_its_own_length() {
    let mut order = PageOrder::identity(2);
    order.append(1, 5);
    assert_eq!(order.source_lens(), &[2, 5]);
    for &source in order.as_slice() {
        assert!(
            source.page < order.source_lens()[source.document],
            "{source:?} is out of range for its own document"
        );
    }
}

#[test]
fn staging_a_document_does_not_touch_the_order_or_history() {
    let mut order = PageOrder::identity(3);
    assert!(order.stage(order.document_count(), 5));

    assert_eq!(order.as_slice(), primary([0, 1, 2]), "staging is not an edit");
    assert_eq!(order.document_count(), 2, "the staged document is still known");
    assert_eq!(order.source_lens(), &[3, 5]);
    assert!(!order.can_undo(), "staging recorded an undo step");
    assert!(order.is_unedited(), "staging alone should not be an edit");
}

#[test]
fn staging_zero_pages_changes_nothing() {
    let mut order = PageOrder::identity(3);
    assert!(!order.stage(1, 0));
    assert_eq!(
        order.document_count(),
        1,
        "a stage that did nothing still counted a document"
    );
}

#[test]
fn a_staged_documents_pages_are_on_disk_before_any_are_placed() {
    let mut order = PageOrder::identity(2);
    assert!(order.stage(1, 3));
    assert_eq!(order.on_disk(1), Some(from_document(1, [0, 1, 2]).as_slice()));
}

#[test]
fn inserting_staged_pages_lands_them_at_the_requested_position() {
    let mut order = PageOrder::identity(3); // [0,1,2]
    assert!(order.stage(1, 2));
    assert!(order.insert_pages(1, &[0], 1));

    let mut expected = primary([0]);
    expected.extend(from_document(1, [0]));
    expected.extend(primary([1, 2]));
    assert_eq!(order.as_slice(), expected);
    assert_eq!(order.len(), 4);
}

#[test]
fn inserting_several_pages_at_once_is_one_undo_step() {
    let mut order = PageOrder::identity(2); // [0,1]
    assert!(order.stage(1, 3));
    assert!(order.insert_pages(1, &[2, 0], 1));

    let mut expected = primary([0]);
    expected.extend(from_document(1, [2, 0]));
    expected.extend(primary([1]));
    assert_eq!(order.as_slice(), expected);

    assert!(order.undo());
    assert_eq!(order.as_slice(), primary([0, 1]), "one undo removed the whole group");
}

#[test]
fn inserted_pages_keep_the_order_they_were_given_in() {
    let mut order = PageOrder::identity(1);
    assert!(order.stage(1, 4));
    assert!(order.insert_pages(1, &[3, 1, 2], 1));
    assert_eq!(
        order.as_slice(),
        [p(0)].into_iter().chain(from_document(1, [3, 1, 2])).collect::<Vec<_>>()
    );
}

#[test]
fn inserting_at_the_very_end_is_allowed() {
    let mut order = PageOrder::identity(2);
    assert!(order.stage(1, 1));
    assert!(order.insert_pages(1, &[0], order.len()));
    let mut expected = primary([0, 1]);
    expected.extend(from_document(1, [0]));
    assert_eq!(order.as_slice(), expected);
}

#[test]
fn inserting_into_an_unstaged_document_is_refused() {
    let mut order = PageOrder::identity(2);
    assert!(!order.insert_pages(1, &[0], 1), "document 1 was never staged");
    assert_eq!(order.as_slice(), primary([0, 1]));
    assert!(!order.can_undo());
}

#[test]
fn a_page_out_of_range_for_its_document_refuses_the_whole_insert() {
    let mut order = PageOrder::identity(2);
    assert!(order.stage(1, 2));
    assert!(
        !order.insert_pages(1, &[0, 9], 1),
        "page 9 does not exist in a 2-page staged document"
    );
    assert_eq!(order.as_slice(), primary([0, 1]), "the whole call was refused");
    assert!(!order.can_undo(), "a refused insert should not be undoable");
}

#[test]
fn inserting_past_the_end_of_the_order_is_refused() {
    let mut order = PageOrder::identity(2);
    assert!(order.stage(1, 2));
    assert!(!order.insert_pages(1, &[0], 9));
    assert_eq!(order.as_slice(), primary([0, 1]));
}

#[test]
fn inserting_zero_pages_changes_nothing() {
    let mut order = PageOrder::identity(2);
    assert!(order.stage(1, 2));
    assert!(!order.insert_pages(1, &[], 0));
    assert_eq!(order.as_slice(), primary([0, 1]));
    assert!(!order.can_undo());
}

#[test]
fn the_same_staged_page_can_be_inserted_more_than_once() {
    let mut order = PageOrder::identity(1);
    assert!(order.stage(1, 1));
    assert!(order.insert_pages(1, &[0], 1));
    assert!(order.insert_pages(1, &[0], 2));
    assert_eq!(order.as_slice(), [p(0), Source { document: 1, page: 0 }, Source {
        document: 1,
        page: 0
    }]);
}

#[test]
fn a_staged_document_can_be_drawn_from_by_more_than_one_insert() {
    let mut order = PageOrder::identity(1);
    assert!(order.stage(1, 3));
    assert!(order.insert_pages(1, &[0], 0));
    assert!(order.insert_pages(1, &[2], order.len()));
    assert_eq!(
        order.as_slice(),
        [Source { document: 1, page: 0 }, p(0), Source { document: 1, page: 2 }]
    );
}

#[test]
fn an_inserted_page_is_an_ordinary_entry_afterward() {
    let mut order = PageOrder::identity(2);
    assert!(order.stage(1, 2));
    assert!(order.insert_pages(1, &[0], 1));

    assert!(order.move_page(1, 0));
    assert_eq!(order.source_of(0), Some(Source { document: 1, page: 0 }));

    assert!(order.remove(0));
    assert_eq!(order.len(), 2);
}

#[test]
fn an_inserted_page_makes_the_order_edited() {
    let mut order = PageOrder::identity(2);
    let written = order.as_slice().to_vec();
    order.mark_saved(0, &written);
    assert!(order.is_unedited());

    assert!(order.stage(1, 1));
    assert!(order.insert_pages(1, &[0], 0));
    assert!(!order.is_unedited(), "an inserted page is an unsaved change");
}

#[test]
fn inserted_pages_never_invent_or_duplicate_a_position() {
    let mut order = PageOrder::identity(4);
    assert!(order.stage(1, 3));
    assert!(order.insert_pages(1, &[2, 0], 2));
    assert!(order.move_page(0, 5));
    assert!(order.remove(1));

    let mut seen = order.as_slice().to_vec();
    let count = seen.len();
    seen.sort_unstable();
    seen.dedup();
    assert_eq!(seen.len(), count, "a page appeared twice: {order:?}");
    for &source in order.as_slice() {
        assert!(
            source.page < order.source_lens()[source.document],
            "invented page {source:?}"
        );
    }
}

#[test]
fn saving_makes_the_order_unedited_again() {
    let mut order = PageOrder::identity(4);
    order.move_page(0, 3);
    assert!(!order.is_unedited());

    let written = order.as_slice().to_vec();
    order.mark_saved(0, &written);
    assert!(
        order.is_unedited(),
        "still dirty after saving that exact order"
    );
}

#[test]
fn editing_after_a_save_is_unsaved_again() {
    let mut order = PageOrder::identity(4);
    order.move_page(0, 3);
    let written = order.as_slice().to_vec();
    order.mark_saved(0, &written);

    order.move_page(1, 2);
    assert!(!order.is_unedited(), "an edit after a save reported clean");
}

#[test]
fn an_edit_made_while_the_save_was_running_is_still_unsaved() {
    let mut order = PageOrder::identity(5);
    order.move_page(0, 4);
    let written = order.as_slice().to_vec(); // what the save thread took

    order.move_page(1, 2);
    order.mark_saved(0, &written);

    assert!(
        !order.is_unedited(),
        "claimed the later move was written when the save never saw it"
    );

    assert!(order.undo());
    assert!(
        order.is_unedited(),
        "back to the written order but reported dirty"
    );
}

#[test]
fn undoing_back_to_the_saved_order_counts_as_unedited() {
    let mut order = PageOrder::identity(3);
    order.move_page(0, 2);
    let written = order.as_slice().to_vec();
    order.mark_saved(0, &written);
    order.remove(1);
    assert!(!order.is_unedited());

    assert!(order.undo());
    assert!(
        order.is_unedited(),
        "undo back to the file's order reported dirty"
    );
}

#[test]
fn a_fresh_document_matches_its_file() {
    assert!(PageOrder::identity(7).is_unedited());
    assert!(PageOrder::identity(0).is_unedited());
}

#[test]
fn an_order_that_has_been_edited_and_put_back_counts_as_unedited() {
    let mut order = PageOrder::identity(3);
    order.move_page(0, 2);
    assert!(!order.is_unedited());
    order.move_page(2, 0);
    assert!(order.is_unedited());
}

#[test]
fn deleting_a_page_always_counts_as_edited() {
    let mut order = PageOrder::identity(3);
    order.remove(2);
    assert!(
        !order.is_unedited(),
        "a shorter document than the source is edited by definition"
    );
}

#[test]
fn history_is_bounded() {
    let mut order = PageOrder::identity(3);
    for _ in 0..(UNDO_DEPTH * 2) {
        order.move_page(0, 1);
        order.move_page(1, 0);
    }
    assert_eq!(order.undo_steps(), UNDO_DEPTH);

    let mut steps = 0;
    while order.undo() {
        steps += 1;
    }
    assert_eq!(steps, UNDO_DEPTH);
}

#[test]
fn every_position_maps_to_a_real_source_page_after_any_edit() {
    let mut order = PageOrder::identity(6);
    order.move_page(5, 0);
    order.remove(3);
    order.move_page(0, 4);
    order.remove(0);

    for position in 0..order.len() {
        let source = order.source_of(position).expect("a source page");
        assert!(
            source.page < order.source_lens()[source.document],
            "position {position} -> {source:?}"
        );
    }
    let mut seen = order.as_slice().to_vec();
    seen.sort_unstable();
    seen.dedup();
    assert_eq!(seen.len(), order.len(), "a page appeared twice: {order:?}");
}

#[test]
fn an_empty_document_has_an_empty_order() {
    let order = PageOrder::identity(0);
    assert!(order.is_empty());
    assert_eq!(order.source_of(0), None);
    assert!(order.is_unedited());
}

#[test]
fn a_fresh_document_is_on_disk_as_opened() {
    let order = PageOrder::identity(3);
    assert_eq!(order.on_disk(0), Some(primary([0, 1, 2]).as_slice()));
}

#[test]
fn an_appended_document_is_on_disk_as_identity_until_its_own_save() {
    let mut order = PageOrder::identity(2);
    assert!(order.append(1, 3));
    assert_eq!(order.on_disk(1), Some(from_document(1, [0, 1, 2]).as_slice()));
}

#[test]
fn saving_records_what_the_document_now_physically_holds() {
    let mut order = PageOrder::identity(4);
    assert!(order.remove(0));
    let written = order.as_slice().to_vec();
    order.mark_saved(0, &written);

    assert_eq!(
        order.on_disk(0),
        Some(primary([1, 2, 3]).as_slice()),
        "the file's new physical layout should be exactly what was written"
    );
    assert_eq!(
        order.source_lens(),
        &[4],
        "source_lens still names the document as it was first opened"
    );
}

#[test]
fn a_document_out_of_range_has_no_on_disk_record() {
    let order = PageOrder::identity(3);
    assert_eq!(order.on_disk(1), None);
}

#[test]
fn saving_twice_keeps_on_disk_in_step_with_each_write() {
    let mut order = PageOrder::identity(4);
    assert!(order.remove(0)); // [1,2,3]
    let first_write = order.as_slice().to_vec();
    order.mark_saved(0, &first_write);
    assert_eq!(order.on_disk(0), Some(primary([1, 2, 3]).as_slice()));

    assert!(order.move_page(0, 1)); // [2,1,3]
    let second_write = order.as_slice().to_vec();
    order.mark_saved(0, &second_write);
    assert_eq!(
        order.on_disk(0),
        Some(primary([2, 1, 3]).as_slice()),
        "the second save's layout should replace the first's, not extend it"
    );
}

#[test]
fn a_secondary_documents_on_disk_record_survives_the_primarys_save() {
    let mut order = PageOrder::identity(2);
    assert!(order.append(1, 2));
    assert!(order.remove(0));
    let written = order.as_slice().to_vec();
    order.mark_saved(0, &written);

    assert_eq!(
        order.on_disk(1),
        Some(from_document(1, [0, 1]).as_slice()),
        "a document whose file was not the save's destination keeps its record"
    );
}

#[test]
fn a_move_is_taken_back_by_the_opposite_move() {
    for from in 0..5 {
        for to in 0..5 {
            let mut order = PageOrder::identity(5);
            if order.move_page(from, to) {
                assert!(order.move_page(to, from));
            }
            assert_eq!(order.as_slice(), primary([0, 1, 2, 3, 4]), "{from} to {to} and back");
        }
    }
}

#[test]
fn a_moved_group_lands_together_and_loses_nothing() {
    let mut order = PageOrder::identity(6);
    assert!(order.move_pages(&[5, 1, 3, 1], 1));
    assert_eq!(order.as_slice(), primary([0, 1, 3, 5, 2, 4]));
    assert!(order.undo());
    assert_eq!(order.as_slice(), primary([0, 1, 2, 3, 4, 5]));
}

#[test]
fn placing_all_of_a_staged_document_last_is_appending_it() {
    let mut appended = PageOrder::identity(3);
    assert!(appended.remove(1));
    let mut placed = appended.clone();
    assert!(appended.append(1, 2));
    assert!(placed.stage(1, 2));
    assert!(placed.insert_pages(1, &[0, 1], placed.len()));
    assert_eq!(placed, appended);
}

#[test]
fn without_insertions_no_page_is_shown_twice() {
    let mut order = PageOrder::identity(4);
    assert!(order.append(1, 3));
    assert!(order.move_pages(&[6, 0, 2], 3));
    assert!(order.remove_pages(&[1, 1]));
    assert!(order.undo());
    assert!(order.stage(2, 2));
    for (at, source) in order.as_slice().iter().enumerate() {
        assert!(!order.as_slice()[..at].contains(source), "{source:?} is shown twice");
    }
}
