//! Replacing a file whole.

use porpoise::atomic::{Act, Replacement};
use porpoise::save::SaveError;

fn failed(detail: &str) -> Act {
    Act::End(Err(SaveError::Write { path: String::from("out.pdf"), detail: String::from(detail) }))
}

fn partial() -> String {
    String::from("out.pdf.porpoise-partial")
}

#[test]
fn a_file_is_written_beside_the_destination_and_put_in_place() {
    let (mut replacement, first) = Replacement::start("out.pdf");
    assert_eq!(first, Act::Write { to: partial() });
    assert_eq!(
        replacement.next(Ok(())),
        Act::Rename { from: partial(), to: String::from("out.pdf") }
    );
    assert_eq!(replacement.next(Ok(())), Act::End(Ok(())));
}

#[test]
fn a_file_that_cannot_be_written_is_reported() {
    let (mut replacement, _) = Replacement::start("out.pdf");
    assert_eq!(replacement.next(Err(String::from("disk full"))), failed("disk full"));
}

#[test]
fn a_file_that_cannot_be_placed_is_taken_away_again() {
    for removal in [Ok(()), Err(String::from("stuck"))] {
        let (mut replacement, _) = Replacement::start("out.pdf");
        replacement.next(Ok(()));
        assert_eq!(
            replacement.next(Err(String::from("in use"))),
            Act::Remove { path: partial() }
        );
        assert_eq!(replacement.next(removal), failed("in use"));
    }
}
