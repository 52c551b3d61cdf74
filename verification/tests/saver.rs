//! Waiting for a save.

use std::sync::mpsc::channel;

use porpoise::mail::Arrival;
use porpoise::order::PageOrder;
use porpoise::saver::{conclude, Saved, Saver};

#[test]
fn a_fresh_saver_is_idle() {
    let mut saver = Saver::default();
    assert!(!saver.is_busy());
    assert!(saver.poll().is_none());
    assert!(saver.destination().is_none());
}

fn saved(path: &str, order: &PageOrder) -> Saved {
    Saved {
        path: String::from(path),
        written: order.as_slice().to_vec(),
        error: None,
    }
}

#[test]
fn a_report_says_where_it_went_and_what_was_written() {
    let mut order = PageOrder::identity(3);
    assert!(order.move_page(0, 2));
    let expected = order.as_slice().to_vec();

    let (sender, receiver) = channel();
    let mut saver = Saver::default();
    assert!(saver.listen(receiver, "out.pdf"));
    assert!(saver.is_busy(), "reported idle with a save running");
    assert_eq!(saver.destination(), Some("out.pdf"));
    assert!(saver.poll().is_none());
    assert!(saver.is_busy());

    sender.send(saved("out.pdf", &order)).expect("still listening");
    assert!(order.move_page(0, 1));

    let report = saver.poll().expect("a report");
    assert_eq!(report.error, None);
    assert_eq!(report.path, "out.pdf");
    assert_eq!(report.written, expected, "reported an order the write never saw");
    assert!(!saver.is_busy(), "still busy after reporting");
    assert!(saver.destination().is_none());
}

#[test]
fn a_save_is_not_displaced_by_another() {
    let order = PageOrder::identity(3);
    let (first, receiver) = channel();
    let (_second, other) = channel();
    let mut saver = Saver::default();
    assert!(saver.listen(receiver, "first.pdf"));
    assert!(!saver.listen(other, "second.pdf"), "started a second save while one was running");

    first.send(saved("first.pdf", &order)).expect("still listening");
    assert_eq!(saver.poll().expect("a report").path, "first.pdf");

    for round in ["again.pdf", "and-again.pdf"] {
        let (sender, receiver) = channel();
        assert!(saver.listen(receiver, round), "{round} was refused");
        sender.send(saved(round, &order)).expect("still listening");
        assert_eq!(saver.poll().expect("a report").path, round);
    }
}

#[test]
fn a_thread_that_dies_is_a_failed_save() {
    let (sender, receiver) = channel::<Saved>();
    let mut saver = Saver::default();
    assert!(saver.listen(receiver, "out.pdf"));
    drop(sender);

    let report = saver.poll().expect("a report");
    assert_eq!(report.path, "out.pdf");
    assert!(report.written.is_empty());
    assert_eq!(report.error.as_deref(), Some("the save did not report back"));
    assert!(!saver.is_busy());
}

#[test]
fn nothing_yet_is_no_report() {
    assert!(conclude(Arrival::Empty, Some(String::from("out.pdf"))).is_none());
    let lost = conclude(Arrival::Disconnected, None).expect("a report");
    assert_eq!(lost.path, "");
    assert!(lost.error.is_some());
}

#[test]
fn any_way_of_ending_leaves_the_saver_idle() {
    let (_sender, receiver) = channel();
    let mut saver = Saver::default();
    assert!(saver.listen(receiver, "out.pdf"));
    assert!(saver.take_in(Arrival::Empty).is_none());
    assert!(saver.is_busy());
    assert_eq!(saver.destination(), Some("out.pdf"));

    let lost = saver.take_in(Arrival::Disconnected).expect("a report");
    assert_eq!(lost.path, "out.pdf");
    assert_eq!(lost.error.as_deref(), Some("the save did not report back"));
    assert!(!saver.is_busy());
    assert!(saver.destination().is_none());

    let (_sender, receiver) = channel();
    assert!(saver.listen(receiver, "again.pdf"));
    let report = saver.take_in(Arrival::Message(saved("again.pdf", &PageOrder::identity(2))));
    assert_eq!(report.expect("a report").written.len(), 2);
    assert!(!saver.is_busy());
}
