//! What stands around the pages: the toolbar, the status bar and the question box.

use porpoise::chrome::{
    answer_given, choices, question, status, toolbar, Item, Label, Press, StatusDocument, Tone,
    Toolbar,
};
use porpoise::command::Command;
use porpoise::confirm::Answer;
use porpoise::edits::{Edits, Situation};
use porpoise::picker::Purpose;
use porpoise::view::{PageNumber, ScrollMode, ViewCommand, ZoomTarget};

fn state(pages: usize) -> Toolbar {
    Toolbar {
        edits: Edits::available(Situation {
            current: PageNumber::first(),
            pages,
            can_undo: false,
            unsaved_changes: pages > 1,
            saving: false,
            thumbnails: false,
            selection: Vec::new(),
        }),
        zoom_target: ZoomTarget::FitWidth,
        scroll_mode: ScrollMode::Free,
        thumbnails: false,
        picker_open: false,
        document_open: pages > 0,
    }
}

fn button<'a>(items: &'a [Item], wanted: &str) -> &'a Option<Press> {
    items
        .iter()
        .find_map(|item| match item {
            Item::Button { text, produces, .. } if *text == wanted => Some(produces),
            _ => None,
        })
        .unwrap_or_else(|| panic!("no button {wanted}"))
}

fn toggle<'a>(items: &'a [Item], wanted: &str) -> (bool, &'a Press) {
    items
        .iter()
        .find_map(|item| match item {
            Item::Toggle { text, on, produces, .. } if *text == wanted => Some((*on, produces)),
            _ => None,
        })
        .unwrap_or_else(|| panic!("no toggle {wanted}"))
}

#[test]
fn the_toolbar_offers_what_can_be_done() {
    let items = toolbar(state(3));
    assert_eq!(*button(&items, "Save"), Some(Press::Command(Command::Save)));
    assert_eq!(*button(&items, "Undo"), None);
    assert_eq!(
        *button(&items, "Delete"),
        Some(Press::Command(Command::DeletePage { page: PageNumber::first() }))
    );
    assert_eq!(*button(&items, "Open…"), Some(Press::Dialog(Purpose::Open)));
    assert_eq!(*button(&items, "Add pages…"), Some(Press::Dialog(Purpose::Insert)));
    assert_eq!(
        toggle(&items, "Width"),
        (true, &Press::Command(Command::View(ViewCommand::SetZoom { target: ZoomTarget::FitWidth })))
    );
    assert_eq!(
        toggle(&items, "Page"),
        (false, &Press::Command(Command::View(ViewCommand::SetZoom { target: ZoomTarget::FitPage })))
    );
    assert_eq!(
        toggle(&items, "Paged"),
        (
            false,
            &Press::Command(Command::View(ViewCommand::SetScrollMode { mode: ScrollMode::Paged }))
        )
    );
}

#[test]
fn an_empty_window_offers_only_to_open_something() {
    let items = toolbar(state(0));
    assert_eq!(*button(&items, "Open…"), Some(Press::Dialog(Purpose::Open)));
    for text in ["Add pages…", "Save", "Delete", "Undo"] {
        assert_eq!(*button(&items, text), None, "{text} was offered");
    }
}

#[test]
fn a_dialog_that_is_open_is_not_stacked() {
    let items = toolbar(Toolbar { picker_open: true, ..state(3) });
    assert_eq!(*button(&items, "Open…"), None);
    assert_eq!(*button(&items, "Add pages…"), None);
}

#[test]
fn every_control_says_what_it_does() {
    for item in toolbar(state(3)) {
        match item {
            Item::Separator => {}
            Item::Button { text, hover, .. } | Item::Toggle { text, hover, .. } => {
                assert!(!text.is_empty() && !hover.is_empty(), "{text:?} has no hint");
            }
        }
    }
}

fn document() -> StatusDocument {
    StatusDocument {
        current_page: 2,
        page_count: 9,
        zoom: String::from("100%"),
        scroll_mode: String::from("free"),
        cache: String::from("3 pages, 12 MB"),
        workers: 4,
        renders_in_flight: 1,
        timing: String::from("16 ms"),
        abandoned: 0,
        selected: 0,
    }
}

fn label(text: &str, tone: Tone) -> Label {
    Label { text: String::from(text), tone }
}

#[test]
fn the_status_bar_says_where_things_stand() {
    assert_eq!(
        status(Some(document()), None, false, None),
        [
            label("page 2 of 9", Tone::Plain),
            label("100%", Tone::Plain),
            label("free", Tone::Plain),
            label("3 pages, 12 MB", Tone::Plain),
            label("4 workers, 1 in flight", Tone::Plain),
            label("16 ms", Tone::Plain),
        ]
    );
    let busy = StatusDocument { abandoned: 2, selected: 3, ..document() };
    let labels = status(Some(busy), Some("plans/out.pdf"), true, Some("disk full"));
    assert_eq!(
        labels[6..],
        [
            label("3 selected", Tone::Selection),
            label("2 failed", Tone::Error),
            label("saving to out.pdf…", Tone::Plain),
            label("disk full", Tone::Error),
        ]
    );
    assert_eq!(
        status(None, None, true, Some("gone")),
        [
            label("no document — Ctrl+O to open one, or drag one in", Tone::Plain),
            label("unsaved changes", Tone::Warning),
            label("gone", Tone::Error),
        ]
    );
}

#[test]
fn the_question_names_what_would_happen() {
    let asked = question("quit");
    assert!(asked.contains("quit"), "{asked}");
    let offered: Vec<Answer> = choices().iter().map(|choice| choice.answer).collect();
    assert_eq!(offered, [Answer::Save, Answer::Discard, Answer::Cancel]);
}

#[test]
fn dismissing_the_question_is_cancelling() {
    assert_eq!(answer_given(Some(Answer::Save), false), Some(Answer::Save));
    assert_eq!(answer_given(None, true), Some(Answer::Cancel));
    assert_eq!(answer_given(None, false), None);
}
