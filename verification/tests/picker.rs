//! Waiting for the file dialog.

use std::sync::mpsc::channel;

use porpoise::mail::Arrival;
use porpoise::picker::{settle, FilePicker, Purpose};

#[test]
fn a_fresh_picker_has_nothing_pending() {
    let mut picker = FilePicker::default();
    assert!(!picker.is_open());
    assert_eq!(picker.poll(), None);
}

#[test]
fn a_chosen_path_is_returned_once() {
    let (sender, receiver) = channel();
    let mut picker = FilePicker::with_pending(receiver);
    assert!(picker.is_open());

    sender
        .send(Some(String::from("chosen.pdf")))
        .expect("the picker should still be listening");
    assert_eq!(picker.poll(), Some(String::from("chosen.pdf")));

    assert!(!picker.is_open());
    assert_eq!(picker.poll(), None);
}

#[test]
fn polling_before_an_answer_leaves_the_dialog_open() {
    let (_sender, receiver) = channel();
    let mut picker = FilePicker::with_pending(receiver);
    assert_eq!(picker.poll(), None);
    assert!(picker.is_open(), "gave up on a dialog still being answered");
}

#[test]
fn cancelling_closes_the_dialog_without_a_path() {
    let (sender, receiver) = channel();
    let mut picker = FilePicker::with_pending(receiver);
    sender.send(None).expect("still listening");
    assert_eq!(picker.poll(), None);
    assert!(!picker.is_open());
}

#[test]
fn a_thread_that_dies_without_answering_does_not_wedge_the_picker() {
    let (sender, receiver) = channel();
    let mut picker = FilePicker::with_pending(receiver);
    drop(sender);

    assert_eq!(picker.poll(), None);
    assert!(!picker.is_open(), "a dead dialog thread wedged the picker");
}

#[test]
fn opening_twice_does_not_replace_a_live_dialog() {
    let (sender, receiver) = channel();
    let mut picker = FilePicker::with_pending(receiver);
    let (_second, replacement) = channel();
    assert!(!picker.listen(replacement, Purpose::Insert));
    assert_eq!(picker.purpose(), Purpose::Open);

    sender
        .send(Some(String::from("first.pdf")))
        .expect("the original channel should still be the live one");
    assert_eq!(picker.poll(), Some(String::from("first.pdf")));
}

#[test]
fn a_dialog_knows_what_it_was_opened_for() {
    let mut picker = FilePicker::default();
    let (sender, receiver) = channel();
    assert!(picker.listen(receiver, Purpose::Stage));
    assert!(picker.is_open());
    assert_eq!(picker.purpose(), Purpose::Stage);

    sender.send(Some(String::from("beside.pdf"))).expect("still listening");
    assert_eq!(picker.poll(), Some(String::from("beside.pdf")));
    assert_eq!(picker.purpose(), Purpose::Stage);
}

#[test]
fn only_a_message_settles_with_a_path() {
    assert_eq!(settle(Arrival::Message(Some(String::from("a.pdf")))), (false, Some(String::from("a.pdf"))));
    assert_eq!(settle(Arrival::Message(None)), (false, None));
    assert_eq!(settle(Arrival::Disconnected), (false, None));
    assert_eq!(settle(Arrival::Empty), (true, None));
}

#[test]
fn any_answer_closes_the_dialog() {
    for (arrival, chosen, open) in [
        (Arrival::Message(Some(String::from("a.pdf"))), Some(String::from("a.pdf")), false),
        (Arrival::Message(None), None, false),
        (Arrival::Disconnected, None, false),
        (Arrival::Empty, None, true),
    ] {
        let (_sender, receiver) = channel();
        let mut picker = FilePicker::with_pending(receiver);
        assert_eq!(picker.take_in(arrival), chosen);
        assert_eq!(picker.is_open(), open);
        assert_eq!(picker.purpose(), Purpose::Open);
    }
}
