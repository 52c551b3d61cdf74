//! The page search box.

use porpoise::search::{bound, Bound, PageFilter};

fn shown(query: &str) -> Vec<usize> {
    match PageFilter::parse(query, 10) {
        PageFilter::All => (0..10).collect(),
        PageFilter::Only(positions) => positions,
    }
}

#[test]
fn an_empty_query_shows_everything() {
    assert_eq!(PageFilter::parse("", 10), PageFilter::All);
    assert_eq!(PageFilter::parse("   ", 10), PageFilter::All);
    assert!(!PageFilter::parse("", 10).is_narrowed());
    assert_eq!(PageFilter::parse("", 10).shown(10), 10);
}

#[test]
fn a_single_number_shows_that_page() {
    assert_eq!(shown("3"), vec![2]);
}

#[test]
fn a_range_shows_every_page_in_it() {
    assert_eq!(shown("5-9"), vec![4, 5, 6, 7, 8]);
}

#[test]
fn a_list_shows_each_page() {
    assert_eq!(shown("1,4,7"), vec![0, 3, 6]);
}

#[test]
fn lists_and_ranges_combine() {
    assert_eq!(shown("1, 4-6, 9"), vec![0, 3, 4, 5, 8]);
}

#[test]
fn whitespace_is_ignored() {
    assert_eq!(shown("  2 ,  4 - 6 "), vec![1, 3, 4, 5]);
}

#[test]
fn overlapping_parts_are_not_shown_twice() {
    assert_eq!(shown("2-4,3,3-5"), vec![1, 2, 3, 4]);
}

#[test]
fn pages_come_out_in_document_order() {
    assert_eq!(shown("9,1,5"), vec![0, 4, 8]);
}

#[test]
fn a_backwards_range_is_read_the_way_it_was_meant() {
    assert_eq!(shown("9-5"), shown("5-9"));
}

#[test]
fn a_range_with_no_end_yet_is_just_its_start() {
    assert_eq!(shown("5-"), vec![4]);
}

#[test]
fn a_leading_dash_means_from_the_start() {
    assert_eq!(shown("-3"), vec![0, 1, 2]);
}

#[test]
fn every_prefix_of_a_real_query_is_readable() {
    let full = "1, 4-6, 9";
    for end in 0..=full.len() {
        let Some(prefix) = full.get(..end) else {
            continue;
        };
        let filter = PageFilter::parse(prefix, 10);
        let count = filter.shown(10);
        assert!(count <= 10, "prefix {prefix:?} matched {count} of 10 pages");
    }
}

#[test]
fn a_query_that_matches_nothing_is_still_a_filter() {
    let filter = PageFilter::parse("abc", 10);
    assert_eq!(filter, PageFilter::Only(Vec::new()));
    assert!(filter.is_narrowed());
    assert_eq!(filter.shown(10), 0);
}

#[test]
fn page_zero_is_not_a_page() {
    assert_eq!(shown("0"), Vec::<usize>::new());
    assert_eq!(shown("0-0"), Vec::<usize>::new());
    assert_eq!(shown("0-2"), vec![0, 1]);
}

#[test]
fn pages_past_the_end_are_dropped() {
    assert_eq!(shown("11"), Vec::<usize>::new());
    assert_eq!(shown("8-99"), vec![7, 8, 9]);
}

#[test]
fn a_huge_range_does_not_hang() {
    let filter = PageFilter::parse("1-99999999999999999999", 10);
    assert_eq!(filter.shown(10), 10);
    assert_eq!(
        PageFilter::parse(&format!("1-{}", usize::MAX), 10).shown(10),
        10
    );
}

#[test]
fn stray_separators_are_harmless() {
    assert_eq!(shown(",,,"), Vec::<usize>::new());
    assert_eq!(shown("1,,3"), vec![0, 2]);
    assert_eq!(shown("-"), (0..10).collect::<Vec<_>>());
}

#[test]
fn a_negative_number_is_read_as_a_range() {
    assert_eq!(shown("-5"), vec![0, 1, 2, 3, 4]);
}

#[test]
fn an_empty_document_shows_nothing_and_does_not_panic() {
    for query in ["", "1", "1-9", "abc"] {
        let filter = PageFilter::parse(query, 0);
        assert_eq!(filter.shown(0), 0, "query {query:?}");
        assert_eq!(filter.position_at(0, 0), None);
    }
}

#[test]
fn unfiltered_slots_are_positions() {
    let filter = PageFilter::parse("", 10);
    assert_eq!(filter.position_at(0, 10), Some(0));
    assert_eq!(filter.position_at(9, 10), Some(9));
    assert_eq!(filter.position_at(10, 10), None, "past the end");
}

#[test]
fn filtered_slots_map_to_the_pages_that_matched() {
    let filter = PageFilter::parse("4-6", 10);
    assert_eq!(filter.position_at(0, 10), Some(3));
    assert_eq!(filter.position_at(1, 10), Some(4));
    assert_eq!(filter.position_at(2, 10), Some(5));
    assert_eq!(filter.position_at(3, 10), None, "only three pages matched");
}

#[test]
fn an_absent_bound_is_told_apart_from_a_bad_one() {
    assert_eq!(bound("  "), Bound::Missing);
    assert_eq!(bound(" 12 "), Bound::Number(12));
    assert_eq!(bound("0"), Bound::Number(0));
    assert_eq!(bound("1x"), Bound::Nonsense);
    assert_eq!(bound("99999999999999999999999"), Bound::Number(usize::MAX));
}

#[test]
fn a_bad_bound_voids_only_its_own_part() {
    assert_eq!(shown("2,x-4,6"), vec![1, 5]);
    assert_eq!(shown("2-4-6"), Vec::<usize>::new());
}
