//! Whether a finished page can be handed to the graphics card.

use porpoise::tiles::texture_size;

#[test]
fn a_consistent_buffer_converts() {
    let image = texture_size(4, 3, 4 * 3 * 4).expect("4x3 RGBA should convert");
    assert_eq!(image, (4, 3));
}

#[test]
fn a_short_buffer_is_refused_rather_than_panicking() {
    assert!(texture_size(4, 3, 4 * 3 * 4 - 1).is_none());
}

#[test]
fn a_long_buffer_is_refused_too() {
    assert!(texture_size(4, 3, 4 * 3 * 4 + 1).is_none());
}

#[test]
fn a_zero_sized_page_is_refused() {
    assert!(texture_size(0, 3, 0).is_none());
    assert!(texture_size(4, 0, 0).is_none());
}

#[test]
fn dimensions_that_would_overflow_are_refused() {
    assert!(texture_size(u32::MAX, u32::MAX, 16).is_none());
}
