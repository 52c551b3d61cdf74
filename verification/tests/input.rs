//! Keys, drops and the wheel.

use porpoise::command::Command;
use porpoise::edits::{Edits, Situation};
use porpoise::input::{
    command_for_edit, command_for_key, drop_action, edit_for_key, on_key, opens_the_picker,
    share_of, wheel_is_for_the_pages, DropAction, EditKey, Key, KeyAction, Modifiers, Movement,
    PageTurns, ScrollRoom, Share, Wheel, ARROW_STEP_PT, VIEWPORT_STEP_FRACTION,
};
use porpoise::label::file_label;
use porpoise::view::{PageNumber, Real, ScrollMode, ViewCommand, ZoomTarget, ONE};

fn number(value: f64) -> Real {
    Real {
        bits: value.to_bits(),
    }
}

fn shift() -> Modifiers {
    Modifiers {
        shift: true,
        ..none()
    }
}

fn movement(delta: f32) -> Movement {
    if !delta.is_finite() {
        Movement::NotFinite
    } else if delta > 0.0 {
        Movement::Forward
    } else if delta < 0.0 {
        Movement::Backward
    } else {
        Movement::Still
    }
}

fn still() -> Wheel {
    Wheel {
        notched: Movement::Still,
        glided: Movement::Still,
        gliding: false,
    }
}

const STRIP: (f32, f32, f32, f32) = (0.0, 22.0, 300.0, 722.0);

fn over(at: Option<(f32, f32)>, strip: Option<(f32, f32, f32, f32)>) -> Option<bool> {
    let ((x, y), (left, top, right, bottom)) = (at?, strip?);
    Some(left <= x && x <= right && top <= y && y <= bottom)
}

fn none() -> Modifiers {
    Modifiers {
        command: false,
        ctrl: false,
        shift: false,
    }
}

fn ctrl() -> Modifiers {
    Modifiers {
        ctrl: true,
        ..none()
    }
}

fn key(key: Key, modifiers: Modifiers, mode: ScrollMode) -> Option<Command> {
    command_for_key(key, modifiers, mode)
}

#[test]
fn ctrl_o_asks_for_the_file_dialog_and_is_not_a_command() {
    assert!(opens_the_picker(Key::O, ctrl()));
    assert!(
        key(Key::O, ctrl(), ScrollMode::Free).is_none(),
        "the dialog is not a command; `command_for_key` must not claim this key"
    );
}

#[test]
fn a_bare_o_does_not_open_the_dialog() {
    assert!(!opens_the_picker(Key::O, none()));
}

#[test]
fn ctrl_with_another_key_does_not_open_the_dialog() {
    assert!(!opens_the_picker(Key::Unbound, ctrl()));
}

fn paths(names: &[&str]) -> Vec<String> {
    names.iter().map(|name| String::from(*name)).collect()
}

#[test]
fn a_dropped_pdf_asks_to_open_it() {
    assert_eq!(
        drop_action(&paths(&["plans/sheet.pdf"]), false),
        Some(DropAction::Open {
            path: String::from("plans/sheet.pdf"),
            ignored: 0,
        })
    );
}

#[test]
fn an_uppercase_extension_is_still_a_pdf() {
    for name in ["sheet.PDF", "sheet.Pdf", "sheet.pDf"] {
        assert!(
            matches!(drop_action(&paths(&[name]), false), Some(DropAction::Open { .. })),
            "{name} was not recognised as a PDF"
        );
    }
}

#[test]
fn nothing_dropped_asks_for_nothing() {
    assert_eq!(drop_action(&[], false), None);
    assert_eq!(drop_action(&[], true), None);
}

#[test]
fn a_dropped_file_that_is_not_a_pdf_is_refused_by_name() {
    let Some(DropAction::Refuse { reason }) =
        drop_action(&paths(&["notes/minutes.docx"]), false)
    else {
        panic!("a .docx should be refused");
    };
    assert!(reason.contains("minutes.docx"), "unhelpful: {reason}");
    assert!(reason.contains("not a PDF"), "unhelpful: {reason}");
}

#[test]
fn a_dropped_folder_is_refused() {
    assert!(matches!(
        drop_action(&paths(&["C:/plans/gdot"]), false),
        Some(DropAction::Refuse { .. })
    ));
}

#[test]
fn the_first_pdf_wins_rather_than_the_first_path() {
    assert_eq!(
        drop_action(&paths(&["readme.txt", "sheet.pdf", "logo.png"]), false),
        Some(DropAction::Open {
            path: String::from("sheet.pdf"),
            ignored: 2,
        })
    );
}

#[test]
fn refusing_several_files_says_how_many() {
    let Some(DropAction::Refuse { reason }) = drop_action(&paths(&["a.txt", "b.png"]), false)
    else {
        panic!("neither is a PDF");
    };
    assert!(reason.contains('2'), "unhelpful: {reason}");
}

#[test]
fn the_hint_names_the_file_that_would_open() {
    let action = drop_action(&paths(&["plans/ROLT14.pdf"]), false).expect("a PDF was dropped");
    let hint = action.hint(false);
    assert!(hint.contains("ROLT14.pdf"), "unhelpful: {hint}");
    assert!(!hint.contains("plans"), "showed the whole path: {hint}");
}

#[test]
fn the_hint_says_when_other_files_will_be_ignored() {
    let action =
        drop_action(&paths(&["sheet.pdf", "other.pdf"]), false).expect("a PDF was dropped");
    let hint = action.hint(false);
    assert!(hint.contains("ignoring 1"), "unhelpful: {hint}");
}

#[test]
fn the_hint_mentions_unsaved_page_changes() {
    let action = drop_action(&paths(&["sheet.pdf"]), false).expect("a PDF was dropped");
    assert!(!action.hint(false).contains("unsaved"));
    let warned = action.hint(true);
    assert!(warned.contains("unsaved"), "unhelpful: {warned}");
    assert!(!warned.contains("lost"), "overstates the stakes: {warned}");
}

#[test]
fn a_pdf_dropped_on_the_grid_asks_to_insert_it() {
    assert_eq!(
        drop_action(&paths(&["plans/sheet.pdf"]), true),
        Some(DropAction::Insert {
            path: String::from("plans/sheet.pdf"),
            ignored: 0,
        })
    );
}

#[test]
fn the_insert_hint_never_mentions_unsaved_changes() {
    let action = drop_action(&paths(&["sheet.pdf"]), true).expect("a PDF was dropped");
    assert!(!action.hint(true).contains("unsaved"));
}

#[test]
fn a_non_pdf_is_still_refused_when_dropped_on_the_grid() {
    assert!(matches!(
        drop_action(&paths(&["notes.docx"]), true),
        Some(DropAction::Refuse { .. })
    ));
}

#[test]
fn the_hint_and_the_drop_never_disagree() {
    let cases = [
        vec![],
        paths(&["sheet.pdf"]),
        paths(&["notes.txt"]),
        paths(&["notes.txt", "sheet.pdf"]),
        paths(&["a.txt", "b.png", "c"]),
    ];
    for case in cases {
        for insert in [false, true] {
            let Some(action) = drop_action(&case, insert) else {
                continue;
            };
            let hint = action.hint(false);
            match &action {
                DropAction::Open { path, .. } => assert!(
                    hint.starts_with("Open ") && hint.contains(&file_label(path)),
                    "{case:?} would open {} but the hint said {hint:?}",
                    path
                ),
                DropAction::Insert { path, .. } => assert!(
                    hint.starts_with("Add pages from ") && hint.contains(&file_label(path)),
                    "{case:?} would insert {} but the hint said {hint:?}",
                    path
                ),
                DropAction::Refuse { reason } => assert_eq!(
                    &hint, reason,
                    "{case:?} refuses but the hint said something else"
                ),
            }
        }
    }
}

#[test]
fn page_down_means_a_page_in_paged_mode_and_a_screenful_in_free_mode() {
    assert_eq!(
        key(Key::PageDown, none(), ScrollMode::Paged),
        Some(ViewCommand::NextPage.into())
    );
    assert_eq!(
        key(Key::PageDown, none(), ScrollMode::Free),
        Some(
            ViewCommand::ScrollByViewports {
                fraction: number(0.9)
            }
            .into()
        )
    );
}

#[test]
fn page_up_reverses_the_direction_in_both_modes() {
    assert_eq!(
        key(Key::PageUp, none(), ScrollMode::Paged),
        Some(ViewCommand::PreviousPage.into())
    );
    assert_eq!(
        key(Key::PageUp, none(), ScrollMode::Free),
        Some(
            ViewCommand::ScrollByViewports {
                fraction: number(-0.9)
            }
            .into()
        )
    );
}

#[test]
fn space_pages_forward_and_shift_space_pages_back() {
    assert_eq!(
        key(Key::Space, none(), ScrollMode::Paged),
        Some(ViewCommand::NextPage.into())
    );
    assert_eq!(
        key(Key::Space, shift(), ScrollMode::Paged),
        Some(ViewCommand::PreviousPage.into())
    );
}

#[test]
fn home_and_end_jump_to_the_ends_regardless_of_mode() {
    for mode in [ScrollMode::Free, ScrollMode::Paged] {
        assert_eq!(
            key(Key::Home, none(), mode),
            Some(ViewCommand::FirstPage.into())
        );
        assert_eq!(
            key(Key::End, none(), mode),
            Some(ViewCommand::LastPage.into())
        );
    }
}

#[test]
fn arrows_scroll_a_small_fixed_step() {
    assert_eq!(
        key(Key::ArrowDown, none(), ScrollMode::Free),
        Some(
            ViewCommand::ScrollBy {
                points: number(48.0)
            }
            .into()
        )
    );
    assert_eq!(
        key(Key::ArrowUp, none(), ScrollMode::Free),
        Some(
            ViewCommand::ScrollBy {
                points: number(-48.0)
            }
            .into()
        )
    );
}

#[test]
fn ctrl_bindings_control_zoom() {
    assert_eq!(
        key(Key::Num0, ctrl(), ScrollMode::Free),
        Some(
            ViewCommand::SetZoom {
                target: ZoomTarget::FitWidth
            }
            .into()
        )
    );
    assert_eq!(
        key(Key::Num1, ctrl(), ScrollMode::Free),
        Some(
            ViewCommand::SetZoom {
                target: ZoomTarget::Fixed(number(1.0))
            }
            .into()
        )
    );
    assert_eq!(
        key(Key::Num2, ctrl(), ScrollMode::Free),
        Some(
            ViewCommand::SetZoom {
                target: ZoomTarget::FitPage
            }
            .into()
        )
    );
    assert_eq!(
        key(Key::Plus, ctrl(), ScrollMode::Free),
        Some(ViewCommand::StepZoom { rungs: 1 }.into())
    );
    assert_eq!(
        key(Key::Minus, ctrl(), ScrollMode::Free),
        Some(ViewCommand::StepZoom { rungs: -1 }.into())
    );
}

#[test]
fn a_ctrl_binding_does_not_also_fire_its_unmodified_meaning() {
    assert_eq!(key(Key::End, ctrl(), ScrollMode::Free), None);
    assert_eq!(key(Key::Space, ctrl(), ScrollMode::Free), None);
}

#[test]
fn unbound_keys_produce_nothing() {
    for k in [Key::Unbound] {
        assert_eq!(key(k, none(), ScrollMode::Free), None, "{k:?} is bound");
    }
}

#[test]
fn every_key_binding_produces_a_command_an_agent_could_also_send() {
    let bindings = [
        (Key::PageDown, none()),
        (Key::PageUp, none()),
        (Key::Space, none()),
        (Key::Home, none()),
        (Key::End, none()),
        (Key::ArrowDown, none()),
        (Key::ArrowUp, none()),
        (Key::Plus, ctrl()),
        (Key::Minus, ctrl()),
        (Key::Num0, ctrl()),
        (Key::Num1, ctrl()),
        (Key::Num2, ctrl()),
    ];
    let names = Command::all_names();
    for (k, modifiers) in bindings {
        for mode in [ScrollMode::Free, ScrollMode::Paged] {
            let command = command_for_key(k, modifiers, mode)
                .unwrap_or_else(|| panic!("{k:?} produced no command"));
            assert!(
                names.contains(&command.name()),
                "{k:?} produced {}, which is not in the command reference",
                command.name()
            );
        }
    }
}

fn stuck() -> ScrollRoom {
    ScrollRoom {
        above: false,
        below: false,
    }
}

fn room_both_ways() -> ScrollRoom {
    ScrollRoom {
        above: true,
        below: true,
    }
}

fn notch(delta: f32) -> Wheel {
    Wheel {
        notched: movement(delta),
        glided: Movement::Still,
        gliding: true,
    }
}

fn glide(delta: f32) -> Wheel {
    Wheel {
        notched: Movement::Still,
        glided: movement(delta),
        gliding: true,
    }
}

fn forward() -> Option<ViewCommand> {
    Some(ViewCommand::ScrollByViewports {
        fraction: number(1.0),
    })
}

fn back() -> Option<ViewCommand> {
    Some(ViewCommand::ScrollByViewports {
        fraction: number(-1.0),
    })
}

#[test]
fn a_notch_at_the_bottom_of_a_page_turns_to_the_next() {
    let mut turns = PageTurns::default();
    assert_eq!(turns.turn(notch(30.0), stuck()), forward());
}

#[test]
fn a_notch_at_the_top_of_a_page_turns_back() {
    let mut turns = PageTurns::default();
    assert_eq!(turns.turn(notch(-30.0), stuck()), back());
}

#[test]
fn every_notch_turns_a_page() {
    let mut turns = PageTurns::default();
    for spin in 0..5 {
        assert_eq!(
            turns.turn(notch(30.0), stuck()),
            forward(),
            "notch {spin} of a spin did not turn a page"
        );
    }
}

#[test]
fn a_notch_with_room_left_in_the_page_is_left_to_the_scroll_area() {
    let mut turns = PageTurns::default();
    assert_eq!(turns.turn(notch(30.0), room_both_ways()), None);
    assert_eq!(turns.turn(notch(-30.0), room_both_ways()), None);
}

#[test]
fn room_is_read_per_direction() {
    let room = ScrollRoom {
        above: true,
        below: false,
    };
    let mut turns = PageTurns::default();
    assert_eq!(turns.turn(notch(30.0), room), forward());
    assert_eq!(turns.turn(notch(-30.0), room), None);
}

#[test]
fn one_swipe_turns_one_page() {
    let mut turns = PageTurns::default();
    assert_eq!(turns.turn(glide(20.0), stuck()), forward());
    for frame in 0..30 {
        assert_eq!(
            turns.turn(glide(20.0), stuck()),
            None,
            "frame {frame} of one swipe turned a second page"
        );
    }
}

#[test]
fn the_next_swipe_turns_again() {
    let mut turns = PageTurns::default();
    assert_eq!(turns.turn(glide(20.0), stuck()), forward());
    assert_eq!(turns.turn(glide(20.0), stuck()), None);
    assert_eq!(turns.turn(still(), stuck()), None);
    assert_eq!(turns.turn(glide(20.0), stuck()), forward());
}

#[test]
fn a_swipe_that_starts_by_scrolling_does_not_also_turn_a_page() {
    let mut turns = PageTurns::default();
    assert_eq!(turns.turn(glide(20.0), room_both_ways()), None);
    for frame in 0..10 {
        assert_eq!(
            turns.turn(glide(20.0), stuck()),
            None,
            "frame {frame} of a scrolling swipe turned a page"
        );
    }
}

#[test]
fn no_movement_does_nothing() {
    let mut turns = PageTurns::default();
    assert_eq!(turns.turn(still(), stuck()), None);
}

#[test]
fn a_non_finite_delta_does_not_turn_a_page() {
    let mut turns = PageTurns::default();
    assert_eq!(turns.turn(notch(f32::NAN), stuck()), None);
    assert_eq!(turns.turn(notch(f32::INFINITY), stuck()), None);
}

#[test]
fn a_gesture_over_the_thumbnail_strip_is_not_a_page_turn() {
    assert!(!wheel_is_for_the_pages(over(Some((150.0, 400.0)), Some(STRIP))));
}

#[test]
fn a_gesture_beside_the_strip_is_a_page_turn() {
    assert!(wheel_is_for_the_pages(over(Some((600.0, 400.0)), Some(STRIP))));
}

#[test]
fn a_gesture_with_no_pointer_at_all_still_turns_the_page() {
    assert!(wheel_is_for_the_pages(over(None, Some(STRIP))));
}

#[test]
fn with_the_strip_hidden_every_gesture_is_a_page_turn() {
    assert!(wheel_is_for_the_pages(over(Some((150.0, 400.0)), None)));
    assert!(wheel_is_for_the_pages(over(None, None)));
}

#[test]
fn a_movement_in_lines_is_a_notch() {
    assert_eq!(share_of(none(), false, true), Some(Share::Notched));
    assert_eq!(share_of(none(), false, false), Some(Share::Notched));
}

#[test]
fn only_a_small_movement_in_points_is_a_glide() {
    assert_eq!(share_of(none(), true, true), Some(Share::Glided));
    assert_eq!(share_of(none(), true, false), Some(Share::Notched));
}

#[test]
fn ctrl_and_shift_wheel_are_not_page_turns() {
    for modifiers in [ctrl(), shift()] {
        assert_eq!(share_of(modifiers, false, false), None, "{modifiers:?}");
        assert_eq!(share_of(modifiers, true, true), None, "{modifiers:?}");
    }
}

#[test]
fn the_steps_are_what_they_say() {
    assert_eq!(f64::from_bits(VIEWPORT_STEP_FRACTION), 0.9);
    assert_eq!(f64::from_bits(ARROW_STEP_PT), 48.0);
    assert_eq!(f64::from_bits(ONE), 1.0);
}

fn edits() -> Edits {
    Edits::available(Situation {
        current: PageNumber::new(2).expect("not zero"),
        pages: 3,
        can_undo: true,
        unsaved_changes: true,
        saving: false,
        thumbnails: false,
        selection: Vec::new(),
    })
}

#[test]
fn edit_keys_mean_what_the_toolbar_offers() {
    let page = |number| PageNumber::new(number).expect("not zero");
    let cases = [
        (Key::ArrowUp, Some(EditKey::MoveEarlier)),
        (Key::ArrowDown, Some(EditKey::MoveLater)),
        (Key::Z, Some(EditKey::Undo)),
        (Key::S, Some(EditKey::Save)),
        (Key::T, Some(EditKey::ToggleThumbnails)),
        (Key::O, None),
    ];
    for (k, edit) in cases {
        assert_eq!(edit_for_key(k, ctrl()), edit, "{k:?}");
        assert_eq!(edit_for_key(k, none()), None, "{k:?} without a modifier");
    }
    assert_eq!(
        command_for_edit(EditKey::MoveEarlier, edits()),
        Some(Command::MovePage { from: page(2), to: page(1) })
    );
    assert_eq!(command_for_edit(EditKey::Undo, edits()), Some(Command::Undo));
    assert_eq!(
        command_for_edit(EditKey::ToggleThumbnails, edits()),
        Some(Command::SetThumbnails { visible: true })
    );
}

#[test]
fn a_key_press_does_one_thing() {
    assert!(matches!(on_key(Key::O, ctrl(), ScrollMode::Free, edits()), KeyAction::Dialog));
    assert!(matches!(
        on_key(Key::S, ctrl(), ScrollMode::Free, edits()),
        KeyAction::Command(Command::Save)
    ));
    assert!(matches!(
        on_key(Key::Home, none(), ScrollMode::Free, edits()),
        KeyAction::Command(Command::View(ViewCommand::FirstPage))
    ));
    let saved = Edits {
        save: None,
        ..edits()
    };
    assert!(matches!(on_key(Key::S, ctrl(), ScrollMode::Free, saved), KeyAction::Nothing));
    assert!(matches!(on_key(Key::Unbound, none(), ScrollMode::Free, edits()), KeyAction::Nothing));
}

#[test]
fn the_hints_read_as_written() {
    let open = drop_action(&paths(&["plans/a.pdf", "b.txt"]), false).expect("a PDF was dropped");
    assert_eq!(
        open.hint(true),
        "Open a.pdf — ignoring 1 other file(s) — you will be asked about your unsaved page changes"
    );
    let insert = drop_action(&paths(&["plans/a.pdf"]), true).expect("a PDF was dropped");
    assert_eq!(insert.hint(true), "Add pages from a.pdf");
}
