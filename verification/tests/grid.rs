//! The page grid: its modes, its rows, and what a click or a drop in it means.

use porpoise::grid::{cell_outcome, mode_asked, rows_for, CellOutcome, GridMode};

#[test]
fn rows_cover_every_page() {
    for pages in [1_usize, 2, 5, 6, 7, 400] {
        for columns in 1..=5 {
            let rows = rows_for(pages, columns);
            assert!(
                rows * columns >= pages,
                "{pages} pages in {columns} columns needs more than {rows} rows"
            );
            assert!(
                (rows.saturating_sub(1)) * columns < pages,
                "{pages} pages in {columns} columns wastes a row at {rows}"
            );
        }
    }
}

#[test]
fn no_columns_does_not_lose_pages() {
    assert_eq!(rows_for(7, 0), 7);
}

#[test]
fn every_mode_is_listed() {
    for mode in GridMode::every() {
        match mode {
            GridMode::Navigate | GridMode::Reorganize => {}
            GridMode::Merge => panic!("merging has a tab of its own"),
        }
    }
    assert_eq!(GridMode::every().len(), 2);
}

#[test]
fn the_grid_opens_in_navigation_mode() {
    assert_eq!(GridMode::default(), GridMode::Navigate);
}

#[test]
fn every_mode_has_a_distinct_wire_name_and_label() {
    let mut names: Vec<&str> = GridMode::every().into_iter().map(|m| m.wire_name()).collect();
    let total = names.len();
    names.sort_unstable();
    names.dedup();
    assert_eq!(names.len(), total, "two modes share a wire name");

    let mut labels: Vec<&str> = GridMode::every().into_iter().map(|m| m.label()).collect();
    labels.sort_unstable();
    labels.dedup();
    assert_eq!(labels.len(), total, "two tabs read the same");
}

#[test]
fn the_error_message_names_every_mode() {
    let listed = GridMode::every_name();
    for mode in GridMode::every() {
        assert!(
            listed.contains(mode.wire_name()),
            "{listed:?} does not mention {}",
            mode.wire_name()
        );
    }
}

#[test]
fn a_mode_round_trips_through_its_wire_name() {
    for mode in GridMode::every() {
        let back = GridMode::from_wire_name(mode.wire_name()).expect("and comes back");
        assert_eq!(back, mode);
    }
}

#[test]
fn a_name_that_is_no_mode_is_none() {
    assert_eq!(GridMode::from_wire_name("reorder"), None);
    assert_eq!(GridMode::from_wire_name(""), None);
    assert_eq!(GridMode::from_wire_name("Navigate"), None);
    assert_eq!(GridMode::every_name(), "navigate, reorganize, merge");
}

#[test]
fn merging_is_a_mode_by_name() {
    assert_eq!(GridMode::from_wire_name("merge"), Some(GridMode::Merge));
    assert_eq!(GridMode::Merge.wire_name(), "merge");
    assert_eq!(GridMode::Merge.label(), "Merge");
    assert_eq!(
        cell_outcome(GridMode::Merge, 3, true, Some(1)),
        CellOutcome { dropped: Some(1), clicked: false }
    );
}

#[test]
fn the_first_mode_is_the_default_one() {
    assert_eq!(GridMode::initial(), GridMode::default());
}

#[test]
fn a_cell_reports_by_its_mode_and_never_twice() {
    assert_eq!(
        cell_outcome(GridMode::Navigate, 3, true, Some(1)),
        CellOutcome { dropped: None, clicked: true }
    );
    assert_eq!(
        cell_outcome(GridMode::Reorganize, 3, true, Some(1)),
        CellOutcome { dropped: Some(1), clicked: false }
    );
    assert_eq!(
        cell_outcome(GridMode::Reorganize, 3, true, Some(3)),
        CellOutcome { dropped: None, clicked: false }
    );
}

#[test]
fn clicking_the_tab_that_is_showing_asks_for_nothing() {
    assert_eq!(mode_asked(GridMode::Navigate, GridMode::Navigate), None);
    assert_eq!(mode_asked(GridMode::Reorganize, GridMode::Navigate), Some(GridMode::Reorganize));
}
