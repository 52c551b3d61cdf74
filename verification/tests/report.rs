//! What the command line says of page sizes.

use porpoise::report::{describe_sizes, distinct};

#[test]
fn sizes_are_listed_once_and_in_order() {
    assert_eq!(
        distinct(&[(612, 792), (200, 300), (612, 792), (200, 100)]),
        [(200, 100), (200, 300), (612, 792)]
    );
    assert!(distinct(&[]).is_empty());
}

#[test]
fn one_size_is_uniform() {
    assert_eq!(describe_sizes(&[(612, 792)]), ["  page size:     612x792 pt (uniform)"]);
}

#[test]
fn several_sizes_are_counted_and_listed() {
    assert_eq!(
        describe_sizes(&[(200, 100), (612, 792)]),
        [
            "  page sizes:    2 distinct",
            "                 200x100 pt",
            "                 612x792 pt",
        ]
    );
}

#[test]
fn a_long_list_is_cut_short() {
    let sizes: Vec<(i64, i64)> = (1..=7).map(|width| (width, 10)).collect();
    let lines = describe_sizes(&sizes);
    assert_eq!(lines.len(), 7);
    assert_eq!(lines[0], "  page sizes:    7 distinct");
    assert_eq!(lines[5], "                 5x10 pt");
    assert_eq!(lines[6], "                 ... and 2 more");
}
