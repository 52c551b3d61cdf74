//! What can be edited right now.

use porpoise::command::Command;
use porpoise::edits::{Edits, Situation};
use porpoise::view::PageNumber;

fn page(number: usize) -> PageNumber {
    PageNumber::new(number).expect("page numbers in tests start at 1")
}

fn settled() -> Situation {
    Situation {
        current: page(5),
        pages: 10,
        can_undo: false,
        unsaved_changes: false,
        saving: false,
        thumbnails: false,
        selection: Vec::new(),
    }
}

#[test]
fn a_page_in_the_middle_can_move_either_way() {
    let edits = Edits::available(settled());
    assert_eq!(
        edits.move_earlier,
        Some(Command::MovePage {
            from: page(5),
            to: page(4)
        })
    );
    assert_eq!(
        edits.move_later,
        Some(Command::MovePage {
            from: page(5),
            to: page(6)
        })
    );
}

#[test]
fn the_first_page_cannot_move_earlier_and_the_last_cannot_move_later() {
    let first = Edits::available(Situation {
        current: page(1),
        ..settled()
    });
    assert_eq!(first.move_earlier, None);
    assert!(first.move_later.is_some());

    let last = Edits::available(Situation {
        current: page(10),
        ..settled()
    });
    assert!(last.move_earlier.is_some());
    assert_eq!(last.move_later, None);
}

#[test]
fn nothing_can_be_edited_with_no_document() {
    let empty = Edits::available(Situation {
        pages: 0,
        ..settled()
    });
    assert_eq!(empty.move_earlier, None);
    assert_eq!(empty.move_later, None);
    assert_eq!(empty.delete, None);
    assert_eq!(empty.save, None);
}

#[test]
fn a_current_page_past_the_end_is_not_trusted() {
    let stale = Edits::available(Situation {
        current: page(11),
        pages: 10,
        ..settled()
    });
    assert_eq!(stale.move_earlier, None);
    assert_eq!(stale.move_later, None);
    assert_eq!(stale.delete, None);
}

#[test]
fn the_last_remaining_page_cannot_be_deleted() {
    let one = Edits::available(Situation {
        current: page(1),
        pages: 1,
        ..settled()
    });
    assert_eq!(one.delete, None);
    assert_eq!(one.move_earlier, None);
    assert_eq!(one.move_later, None);
}

#[test]
fn undo_needs_something_to_undo() {
    assert_eq!(Edits::available(settled()).undo, None);
    let edited = Edits::available(Situation {
        can_undo: true,
        ..settled()
    });
    assert_eq!(edited.undo, Some(Command::Undo));
}

#[test]
fn saving_needs_changes() {
    assert_eq!(Edits::available(settled()).save, None);
    let dirty = Edits::available(Situation {
        unsaved_changes: true,
        ..settled()
    });
    assert_eq!(dirty.save, Some(Command::Save));
}

#[test]
fn saving_is_unavailable_while_a_save_is_running() {
    let during = Edits::available(Situation {
        unsaved_changes: true,
        saving: true,
        ..settled()
    });
    assert_eq!(
        during.save, None,
        "offered a save while one was already running"
    );
}

#[test]
fn the_page_grid_toggles_to_the_opposite_of_where_it_is() {
    assert_eq!(
        Edits::available(settled()).toggle_thumbnails,
        Command::SetThumbnails { visible: true }
    );
    assert_eq!(
        Edits::available(Situation {
            thumbnails: true,
            ..settled()
        })
        .toggle_thumbnails,
        Command::SetThumbnails { visible: false }
    );
}

#[test]
fn the_grid_can_be_toggled_with_no_document() {
    let empty = Edits::available(Situation {
        pages: 0,
        thumbnails: true,
        ..settled()
    });
    assert_eq!(
        empty.toggle_thumbnails,
        Command::SetThumbnails { visible: false }
    );
}

#[test]
fn delete_takes_every_page_that_is_picked_out() {
    let picked = Edits::available(Situation {
        selection: vec![page(2), page(7)],
        ..settled()
    });
    assert_eq!(picked.delete, Some(Command::DeletePages { pages: vec![page(2), page(7)] }));
    assert!(picked.move_earlier.is_some(), "picking pages out moved the page on screen");
}

#[test]
fn not_every_page_can_be_deleted_at_once() {
    let all = Edits::available(Situation {
        pages: 2,
        current: page(1),
        selection: vec![page(1), page(2)],
        ..settled()
    });
    assert_eq!(all.delete, None);
}
