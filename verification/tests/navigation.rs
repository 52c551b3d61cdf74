//! Where there is to go.

use porpoise::command::Command;
use porpoise::navigation::Navigation;
use porpoise::view::{PageNumber, ViewCommand};

fn page(number: usize) -> PageNumber {
    PageNumber::new(number).expect("page numbers in tests start at 1")
}

fn go(command: ViewCommand) -> Option<Command> {
    Some(command.into())
}

#[test]
fn every_move_is_offered_from_the_middle_of_a_document() {
    let navigation = Navigation::available(page(5), 10);

    assert_eq!(navigation.current, Some(page(5)));
    assert_eq!(navigation.pages, 10);
    assert_eq!(navigation.first, go(ViewCommand::FirstPage));
    assert_eq!(navigation.previous, go(ViewCommand::PreviousPage));
    assert_eq!(navigation.next, go(ViewCommand::NextPage));
    assert_eq!(navigation.last, go(ViewCommand::LastPage));
}

#[test]
fn the_first_page_offers_no_way_back() {
    let navigation = Navigation::available(PageNumber::first(), 10);

    assert_eq!(navigation.first, None);
    assert_eq!(navigation.previous, None);
    assert_eq!(navigation.next, go(ViewCommand::NextPage));
    assert_eq!(navigation.last, go(ViewCommand::LastPage));
}

#[test]
fn the_last_page_offers_no_way_on() {
    let navigation = Navigation::available(page(10), 10);

    assert_eq!(navigation.first, go(ViewCommand::FirstPage));
    assert_eq!(navigation.previous, go(ViewCommand::PreviousPage));
    assert_eq!(navigation.next, None);
    assert_eq!(navigation.last, None);
}

#[test]
fn a_single_page_document_offers_nothing() {
    let navigation = Navigation::available(PageNumber::first(), 1);

    assert_eq!(navigation.current, Some(PageNumber::first()));
    assert_eq!(navigation.first, None);
    assert_eq!(navigation.previous, None);
    assert_eq!(navigation.next, None);
    assert_eq!(navigation.last, None);
}

#[test]
fn with_no_document_there_is_nowhere_to_go_and_no_page_to_show() {
    let navigation = Navigation::available(PageNumber::first(), 0);

    assert_eq!(navigation.current, None);
    assert_eq!(navigation.pages, 0);
    assert_eq!(navigation.first, None);
    assert_eq!(navigation.previous, None);
    assert_eq!(navigation.next, None);
    assert_eq!(navigation.last, None);
}

#[test]
fn a_page_past_the_end_offers_nothing() {
    let navigation = Navigation::available(page(10), 9);

    assert_eq!(navigation.current, None);
    assert_eq!(navigation.first, None);
    assert_eq!(navigation.previous, None);
    assert_eq!(navigation.next, None);
    assert_eq!(navigation.last, None);
}
