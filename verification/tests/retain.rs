//! Which pages are kept in memory.

use porpoise::order::Source;
use porpoise::retain::pages_to_keep;

fn p(page: usize) -> Source {
    Source { document: 0, page }
}

fn unedited(pages: usize) -> impl Fn(usize) -> Option<Source> {
    move |position| (position < pages).then(|| p(position))
}

#[test]
fn a_page_the_grid_is_showing_survives_a_distant_viewport() {
    let grid: Vec<Source> = (0..12).map(p).collect();
    let keep = pages_to_keep(&(0..1), 8, grid, unedited(12));
    for page in [9, 10, 11] {
        assert!(
            keep.contains(&p(page)),
            "page {page} would be evicted while the grid is showing it: {keep:?}"
        );
    }
}

#[test]
fn the_column_keeps_a_margin_either_side_of_what_it_shows() {
    let keep = pages_to_keep(&(20..22), 3, Vec::new(), unedited(100));
    for page in 17..25 {
        assert!(keep.contains(&p(page)), "page {page} missing from {keep:?}");
    }
    assert!(!keep.contains(&p(16)), "kept too far above: {keep:?}");
    assert!(!keep.contains(&p(25)), "kept too far below: {keep:?}");
}

#[test]
fn with_the_grid_closed_only_the_column_is_kept() {
    let keep = pages_to_keep(&(0..1), 2, Vec::new(), unedited(12));
    assert_eq!(keep, vec![p(0), p(1), p(2)]);
}

#[test]
fn positions_are_resolved_through_the_order_before_being_kept() {
    let reversed = |position: usize| (position < 12).then(|| p(11 - position));
    let keep = pages_to_keep(&(0..1), 2, Vec::new(), reversed);
    assert_eq!(keep, vec![p(11), p(10), p(9)]);
}

#[test]
fn a_window_running_off_either_end_keeps_what_exists() {
    let keep = pages_to_keep(&(0..1), 8, Vec::new(), unedited(3));
    assert_eq!(keep, vec![p(0), p(1), p(2)]);

    let keep = pages_to_keep(&(2..3), 8, Vec::new(), unedited(3));
    assert_eq!(keep, vec![p(0), p(1), p(2)]);
}

#[test]
fn an_empty_document_keeps_nothing() {
    assert!(pages_to_keep(&(0..0), 8, Vec::new(), unedited(0)).is_empty());
}

#[test]
fn a_page_from_a_second_document_is_kept_independently_of_the_first() {
    let inserted = Source {
        document: 1,
        page: 0,
    };
    let source_of = move |position: usize| match position {
        0 => Some(p(0)),
        1 => Some(inserted),
        _ => None,
    };
    let keep = pages_to_keep(&(0..2), 0, Vec::new(), source_of);
    assert!(keep.contains(&p(0)));
    assert!(keep.contains(&inserted));
    assert_eq!(
        keep.len(),
        2,
        "the two documents' pages collapsed into one: {keep:?}"
    );
}
