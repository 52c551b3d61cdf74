//! Pages that could not be drawn.

use porpoise::failure::{Failure, RenderError, MAX_RENDER_RETRIES};

fn timed_out() -> RenderError {
    RenderError {
        timed_out: true,
        message: String::from("page 4 did not render within 5000 ms"),
    }
}

fn failed(message: &str) -> RenderError {
    RenderError {
        timed_out: false,
        message: String::from(message),
    }
}

fn panicked() -> RenderError {
    failed("page 4 panicked the renderer")
}

#[test]
fn a_timeout_starts_with_a_retry_budget() {
    let failure = Failure::from_error(&timed_out(), None);
    assert_eq!(failure.retries_left, MAX_RENDER_RETRIES);
    assert!(
        !failure.gave_up(),
        "a first timeout must not abandon the page"
    );
}

#[test]
fn a_deterministic_failure_is_not_retried() {
    for error in [
        panicked(),
        failed("page 4 does not exist; the document has 1"),
        failed("page 4 is 60000 x 30000 pixels, over the limit"),
    ] {
        let failure = Failure::from_error(&error, None);
        assert!(failure.gave_up(), "{error:?} should not be retried");
    }
}

#[test]
fn repeated_timeouts_exhaust_the_budget_and_then_give_up() {
    let mut failure = Failure::from_error(&timed_out(), None);
    let mut attempts = 1;

    while failure.take_retry() {
        attempts += 1;
        failure = Failure::from_error(&timed_out(), Some(&failure));
    }

    assert_eq!(
        attempts,
        usize::from(MAX_RENDER_RETRIES) + 1,
        "expected one initial attempt plus {MAX_RENDER_RETRIES} retries"
    );
    assert!(failure.gave_up());
    assert!(
        !failure.take_retry(),
        "an exhausted failure must stay exhausted"
    );
}

#[test]
fn a_timeout_that_later_panics_stops_being_retried() {
    let first = Failure::from_error(&timed_out(), None);
    let second = Failure::from_error(&panicked(), Some(&first));
    assert!(second.gave_up());
}

#[test]
fn the_failure_message_is_the_renderers_own() {
    let failure = Failure::from_error(&timed_out(), None);
    assert!(
        failure.message.contains("5000 ms"),
        "unhelpful message: {}",
        failure.message
    );
}
