//! What is done by hand, as commands.

use porpoise::command::Command;
use porpoise::edits::Edits;
use porpoise::gesture::{
    chosen, close_is_asked, command_for, dragged, dragged_staged, drop_inserts, drop_zone, dropped,
    keeps_the_window, marquee, moved, navigated, picked, placed, situation, Drawn,
    DropZone, Gesture,
};
use porpoise::grid::GridMode;
use porpoise::input::DropAction;
use porpoise::picker::Purpose;
use porpoise::selection::Pick;
use porpoise::session::{DispatchResult, Session};
use porpoise::stage::{StageId, StagedName};
use porpoise::view::{PageNumber, ViewCommand};

fn page(number: usize) -> PageNumber {
    PageNumber::new(number).expect("not zero")
}

fn pages(numbers: &[usize]) -> Vec<PageNumber> {
    numbers.iter().map(|number| page(*number)).collect()
}

fn open() -> Session {
    Session::with_document(String::from("a.pdf"), 5)
}

#[test]
fn a_click_picks_out_what_the_keys_held_say() {
    let mut session = open();
    session.dispatch(Command::SetSelection { pages: pages(&[2]) }, false);
    assert_eq!(
        picked(&session, 3, Pick::Toggle),
        Some(Command::SetSelection { pages: pages(&[2, 4]) })
    );
    assert_eq!(
        picked(&session, 3, Pick::Range),
        Some(Command::SetSelection { pages: pages(&[2, 3, 4]) })
    );
    assert_eq!(
        picked(&session, 3, Pick::Only),
        Some(Command::SetSelection { pages: pages(&[4]) })
    );
    assert_eq!(picked(&Session::new(), 0, Pick::Only), None);
}

#[test]
fn a_box_picks_out_what_it_covers() {
    assert_eq!(
        marquee(&open(), &[3, 1, 9]),
        Some(Command::SetSelection { pages: pages(&[2, 4]) })
    );
    assert_eq!(marquee(&Session::new(), &[0]), None);
}

#[test]
fn a_drag_counts_from_one_and_a_drag_of_nothing_means_nothing() {
    assert_eq!(
        moved(&[0, 2], 4),
        Some(Command::MovePages { from: pages(&[1, 3]), to: page(5) })
    );
    assert_eq!(moved(&[], 4), None);
    assert_eq!(
        placed(&[1], 0),
        Some(Command::InsertPages { pages: pages(&[2]), at: page(1) })
    );
    assert_eq!(placed(&[], 0), None);
    assert_eq!(navigated(2), Command::View(ViewCommand::GoToPage { page: page(3) }));
}

#[test]
fn a_chosen_file_is_used_for_what_it_was_asked_for() {
    let path = || String::from("b.pdf");
    assert_eq!(chosen(Purpose::Open, path()), Command::Open { path: path() });
    assert_eq!(chosen(Purpose::Insert, path()), Command::InsertFile { path: path() });
    assert_eq!(chosen(Purpose::Stage, path()), Command::StageDocument { path: path() });
}

#[test]
fn a_drop_asks_for_what_its_hint_says() {
    let path = || String::from("b.pdf");
    for zone in [DropZone::Elsewhere, DropZone::Grid, DropZone::Staging] {
        assert_eq!(
            dropped(DropAction::Open { path: path(), ignored: 1 }, zone),
            Ok(Command::Open { path: path() })
        );
        assert_eq!(
            dropped(DropAction::Refuse { reason: String::from("no") }, zone),
            Err(String::from("no"))
        );
    }
    let insert = || DropAction::Insert { path: path(), ignored: 0 };
    assert_eq!(dropped(insert(), DropZone::Grid), Ok(Command::InsertFile { path: path() }));
    assert_eq!(dropped(insert(), DropZone::Staging), Ok(Command::StageDocument { path: path() }));
}

#[test]
fn a_drop_adds_pages_only_on_a_grid_that_is_showing() {
    let mut session = open();
    assert_eq!(drop_zone(&session, true, true), DropZone::Elsewhere);
    session.dispatch(Command::SetThumbnails { visible: true }, false);
    assert_eq!(drop_zone(&session, true, false), DropZone::Grid);
    assert_eq!(drop_zone(&session, true, true), DropZone::Staging);
    assert_eq!(drop_zone(&session, false, false), DropZone::Elsewhere);
    let mut empty = Session::new();
    empty.dispatch(Command::SetThumbnails { visible: true }, false);
    assert_eq!(drop_zone(&empty, true, true), DropZone::Elsewhere);
    assert!(drop_inserts(DropZone::Grid));
    assert!(drop_inserts(DropZone::Staging));
    assert!(!drop_inserts(DropZone::Elsewhere));
}

#[test]
fn the_window_closes_by_the_same_command() {
    let mut session = open();
    assert!(close_is_asked(&session, true));
    assert!(!close_is_asked(&session, false));
    session.dispatch(Command::Quit, false);
    assert!(!close_is_asked(&session, true), "asked again while it is closing");
    assert!(keeps_the_window(&DispatchResult::NeedsAnswer));
    assert!(!keeps_the_window(&DispatchResult::Quitting));
}

#[test]
fn what_can_be_edited_follows_the_session() {
    let mut session = open();
    session.dispatch(Command::DeletePage { page: page(1) }, false);
    let now = situation(&session, page(2), false);
    assert_eq!(now.pages, 4);
    assert!(now.can_undo && now.unsaved_changes && !now.saving && !now.thumbnails);
    let edits = Edits::available(now);
    assert_eq!(edits.save, Some(Command::Save));
    assert_eq!(edits.delete, Some(Command::DeletePage { page: page(2) }));
    assert_eq!(situation(&Session::new(), page(1), true).pages, 0);

    session.dispatch(Command::SetSelection { pages: vec![page(4), page(1)] }, false);
    let picked = Edits::available(situation(&session, page(2), false));
    assert_eq!(picked.delete, Some(Command::DeletePages { pages: vec![page(1), page(4)] }));
}

#[test]
fn what_was_done_is_taken_out_once_and_in_order() {
    let mut drawn = Drawn {
        picked: Some((1, Pick::Only)),
        navigated: Some(2),
        mode: Some(GridMode::Reorganize),
        clear_staging: true,
        stage_switched: Some(StageId::first()),
        ..Drawn::nothing()
    };
    assert!(matches!(drawn.take_next(), Some(Gesture::Picked(1, Pick::Only))));
    assert!(matches!(drawn.take_next(), Some(Gesture::Navigated(2))));
    assert!(matches!(drawn.take_next(), Some(Gesture::Mode(GridMode::Reorganize))));
    assert!(matches!(drawn.take_next(), Some(Gesture::ClearStaging)));
    assert!(matches!(drawn.take_next(), Some(Gesture::StageSwitched(_))));
    assert!(drawn.take_next().is_none());
    assert!(Drawn::nothing().take_next().is_none());
}

#[test]
fn every_gesture_comes_to_a_command() {
    let mut session = open();
    let step = session.dispatch(Command::StageDocument { path: String::from("b.pdf") }, false);
    let porpoise::session::Step::Read(read) = step else {
        panic!("staging needs the file");
    };
    session.file_read(read, Ok(3));
    let stage = StageId::first();
    assert_eq!(
        command_for(Gesture::SelectAll(stage), &session),
        Some(Command::SetStagedSelection {
            staged: StagedName::Stage(stage),
            pages: pages(&[1, 2, 3]),
        })
    );
    assert_eq!(
        command_for(Gesture::StageSwitched(stage), &session),
        Some(Command::SetActiveStage { stage })
    );
    assert_eq!(
        command_for(Gesture::Query(String::from("2-3")), &session),
        Some(Command::SetPageFilter { query: String::from("2-3") })
    );
    assert_eq!(
        command_for(Gesture::Moved(vec![4], 0), &session),
        Some(Command::MovePages { from: pages(&[5]), to: page(1) })
    );
    assert_eq!(command_for(Gesture::ClearStaging, &session), Some(Command::ClearStaging));
    assert_eq!(command_for(Gesture::Placed(Vec::new(), 0), &session), None);
    assert_eq!(command_for(Gesture::SelectAll(stage), &Session::new()), None);
}

#[test]
fn a_page_that_is_picked_out_takes_the_others_with_it() {
    let mut session = open();
    session.dispatch(Command::SetSelection { pages: pages(&[2, 4]) }, false);
    assert_eq!(dragged(&session, 3), [1, 3]);
    assert_eq!(dragged(&session, 0), [0]);
    assert_eq!(dragged(&Session::new(), 2), [2]);

    let step = session.dispatch(Command::StageDocument { path: String::from("b.pdf") }, false);
    let porpoise::session::Step::Read(read) = step else {
        panic!("staging needs the file");
    };
    session.file_read(read, Ok(3));
    session.cover_staged(&[0, 2]);
    assert_eq!(dragged_staged(&session, 2), [0, 2]);
    assert_eq!(dragged_staged(&session, 1), [1]);
    assert_eq!(dragged_staged(&Session::new(), 1), [1]);
}
