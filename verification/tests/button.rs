//! The glyphs that buttons are labelled with.

use std::collections::BTreeMap;

use eframe::egui;
use eframe::egui::epaint::text::{FontDefinitions, Fonts, TextOptions};
use porpoise::button::Glyph;

fn drawable() -> BTreeMap<char, Vec<String>> {
    Fonts::new(TextOptions::default(), FontDefinitions::default())
        .fonts
        .font(&egui::FontFamily::Proportional)
        .characters()
        .clone()
}

#[test]
fn every_glyph_is_listed() {
    for glyph in Glyph::every() {
        match glyph {
            Glyph::FirstPage
            | Glyph::LastPage
            | Glyph::ZoomOut
            | Glyph::ZoomIn
            | Glyph::ClearSearch => {}
        }
    }
    assert_eq!(Glyph::every().len(), 5);
}

#[test]
fn every_glyph_can_be_drawn() {
    let drawable = drawable();
    for glyph in Glyph::every() {
        for character in glyph.text().chars() {
            assert!(
                drawable.contains_key(&character),
                "{glyph:?} is {:?}, and U+{:04X} is in none of egui's proportional \
                 fonts — it will draw as an empty box. Pick another character, or a word.",
                glyph.text(),
                character as u32
            );
        }
    }
}

#[test]
fn a_character_no_font_has_is_reported_as_missing() {
    assert!(
        !drawable().contains_key(&'\u{2715}'),
        "egui can now draw U+2715, so this test has outlived its purpose"
    );
}

#[test]
fn has_glyphs_is_not_the_api_for_this() {
    let mut fonts = Fonts::new(TextOptions::default(), FontDefinitions::default());
    assert!(
        !fonts.has_glyphs(&egui::FontId::proportional(14.0), Glyph::ClearSearch.text()),
        "has_glyphs is sound now — `drawable` can go back to using it"
    );
}

#[test]
fn the_non_ascii_in_a_word_label_can_be_drawn() {
    let drawable = drawable();
    for label in ["Open…", "Add pages…", "Stage a file…"] {
        for character in label.chars() {
            assert!(
                drawable.contains_key(&character),
                "{label:?} holds U+{:04X}, which egui draws as an empty box",
                character as u32
            );
        }
    }
}
