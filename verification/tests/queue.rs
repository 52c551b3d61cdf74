//! Which pages are worth asking the renderer for.

use porpoise::failure::{Failure, RenderError, MAX_RENDER_RETRIES};
use porpoise::order::PageOrder;
use porpoise::queue::{worth_asking_for, CacheKey, Failures, Renders, Tile, ZoomBucket};

fn rung(tag: i64) -> ZoomBucket {
    ZoomBucket::from_tag(tag).expect("a rung that fits")
}

fn panicked() -> RenderError {
    RenderError {
        timed_out: false,
        message: String::from("page 4 panicked the renderer"),
    }
}

fn key(page: usize) -> CacheKey {
    CacheKey::new(0, page, rung(0))
}

fn timed_out() -> RenderError {
    RenderError {
        timed_out: true,
        message: String::from("page 4 did not render within 5000 ms"),
    }
}

#[test]
fn a_page_nobody_has_asked_for_is_worth_asking_for() {
    assert!(worth_asking_for(key(3), &[], &Failures::new()));
}

#[test]
fn a_page_already_in_flight_is_not_asked_for_twice() {
    assert!(!worth_asking_for(key(3), &[key(3)], &Failures::new()));
    assert!(
        worth_asking_for(key(4), &[key(3)], &Failures::new()),
        "a different page must not be blocked by this one"
    );
}

#[test]
fn a_page_at_another_rung_is_a_different_request() {
    let thumbnail = CacheKey::new(0, 3, rung(-20));
    assert!(worth_asking_for(thumbnail, &[key(3)], &Failures::new()));
}

#[test]
fn a_page_that_has_been_given_up_on_is_never_asked_for_again() {
    let mut failures = Failures::new();
    failures.insert(
        key(3),
        Failure::from_error(&panicked(), None),
    );
    assert!(!worth_asking_for(key(3), &[], &failures));
}

#[test]
fn a_timeout_is_worth_asking_for_again_until_the_budget_runs_out() {
    let mut failures: Failures = Failures::new();
    let mut attempts = 0;

    while worth_asking_for(key(3), &[], &failures) {
        attempts += 1;
        assert!(attempts <= 10, "the budget never ran out");
        if let Some(mut failure) = failures.remove(key(3)) {
            failure.take_retry();
            failures.insert(key(3), failure);
        }
        let previous = failures.remove(key(3));
        failures.insert(key(3), Failure::from_error(&timed_out(), previous.as_ref()));
    }

    assert_eq!(
        attempts,
        usize::from(MAX_RENDER_RETRIES) + 1,
        "expected one attempt plus {MAX_RENDER_RETRIES} retries"
    );
}

#[test]
fn a_refused_submission_does_not_cost_a_retry() {
    let mut failures = Failures::new();
    failures.insert(key(3), Failure::from_error(&timed_out(), None));

    for ask in 0..5 {
        assert!(
            worth_asking_for(key(3), &[], &failures),
            "ask {ask} was refused after {ask} submissions that never happened"
        );
    }
}

#[test]
fn a_rung_has_to_fit() {
    assert_eq!(ZoomBucket::from_tag(-32768).map(|bucket| bucket.rung), Some(-32768));
    assert_eq!(ZoomBucket::from_tag(32767).map(|bucket| bucket.rung), Some(32767));
    assert!(ZoomBucket::from_tag(32768).is_none());
    assert!(ZoomBucket::from_tag(-32769).is_none());
}

#[test]
fn a_page_taken_is_on_its_way_until_it_arrives() {
    let mut renders = Renders::new(rung(0));
    assert!(renders.wants(key(3)));
    renders.taken(key(3));
    assert_eq!(renders.in_flight(), 1);
    assert!(!renders.wants(key(3)));
    assert!(renders.wants(key(4)));
    assert_eq!(renders.drawn(key(3), 4, 3, 48), Some((4, 3)));
    assert_eq!(renders.in_flight(), 0);
    assert_eq!(renders.tile(key(3), true), Tile::Image);
}

#[test]
fn a_misshapen_page_is_given_up_on() {
    let mut renders = Renders::new(rung(0));
    renders.taken(key(3));
    assert_eq!(renders.drawn(key(3), 4, 3, 47), None);
    assert_eq!(renders.in_flight(), 0);
    assert!(!renders.wants(key(3)));
    assert_eq!(
        renders.tile(key(3), false),
        Tile::Failed {
            title: String::from("page 4 could not be rendered"),
            message: String::from("renderer returned 47 bytes for a 4x3 page"),
        }
    );
    assert_eq!(renders.tile(key(4), false), Tile::Placeholder);
}

#[test]
fn a_slow_page_is_tried_three_times() {
    let mut renders = Renders::new(rung(0));
    for left in [2, 1] {
        renders.taken(key(3));
        assert!(renders.failed(key(3), &timed_out()), "gave up with {left} attempts left");
        assert!(renders.given_up_on(key(3)).is_none());
        assert!(renders.wants(key(3)));
    }
    renders.taken(key(3));
    assert!(!renders.failed(key(3), &timed_out()));
    assert!(!renders.wants(key(3)));
    assert_eq!(
        renders.given_up_on(key(3)).map(|failure| failure.message.as_str()),
        Some("page 4 did not render within 5000 ms")
    );
}

#[test]
fn failed_pages_are_numbered_from_one_in_order_and_once() {
    let mut renders = Renders::new(rung(0));
    for page in [7, 2] {
        assert!(!renders.failed(key(page), &panicked()));
    }
    assert!(!renders.failed(CacheKey::new(1, 2, rung(0)), &panicked()));
    assert_eq!(renders.abandoned(), 3);
    assert_eq!(renders.failed_pages(), vec![3, 8]);
}

#[test]
fn another_size_forgets_everything() {
    let mut renders = Renders::new(rung(0));
    renders.taken(key(1));
    renders.failed(key(2), &panicked());
    assert!(!renders.at_bucket(rung(0)));
    assert_eq!(renders.in_flight(), 1);
    assert!(renders.at_bucket(rung(1)));
    assert_eq!(renders.in_flight(), 0);
    assert_eq!(renders.abandoned(), 0);
}

#[test]
fn a_position_is_asked_for_as_the_page_shown_there() {
    let mut order = PageOrder::identity(3);
    assert!(order.move_page(0, 2));
    let mut renders = Renders::new(rung(0));
    assert_eq!(renders.candidate(&order, 0), Some(key(1)));
    assert_eq!(renders.candidate(&order, 2), Some(key(0)));
    assert_eq!(renders.candidate(&order, 3), None);
    renders.taken(key(1));
    assert_eq!(renders.candidate(&order, 0), None);
}
