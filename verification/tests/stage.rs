//! The ids of staged documents.

use porpoise::stage::StageId;

#[test]
fn there_is_no_stage_zero() {
    assert_eq!(StageId::new(0), None);
}

#[test]
fn next_counts_up_by_one() {
    let first = StageId::first();
    let second = first.next();
    let third = second.next();
    assert_eq!(second.label(), "2");
    assert_eq!(third.label(), "3");
}

#[test]
fn next_never_produces_the_same_id_twice() {
    let mut seen = std::collections::HashSet::new();
    let mut id = StageId::first();
    for _ in 0..100 {
        assert!(seen.insert(id), "{id:?} was handed out twice");
        id = id.next();
    }
}

#[test]
fn next_saturates_rather_than_wrapping_to_zero() {
    let Some(largest) = StageId::new(usize::MAX) else {
        unreachable!("usize::MAX is not zero")
    };
    assert_eq!(largest.next(), largest, "wrapped instead of saturating");
}

#[test]
fn it_displays_as_the_number_a_person_expects() {
    assert_eq!(StageId::first().label(), "1");
    assert_eq!(StageId::first().next().label(), "2");
}

#[test]
fn the_wire_form_is_the_bare_number() {
    let json = serde_json::to_string(&StageId::first().next().get()).expect("serialize");
    assert_eq!(json, "2");
}
