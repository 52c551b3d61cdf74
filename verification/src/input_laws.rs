//! What each key and each turn of the wheel asks for, one by one.

use vstd::prelude::*;

use crate::input;
use crate::input::{EditKey, Key, Modifiers, Movement, ScrollRoom, Wheel};
use crate::view::{Real, ScrollMode, ViewCommand, ZoomTarget};

verus! {

/// The other sign is the highest bit the other way round and every other bit as it was.
pub proof fn law_negating_turns_only_the_sign(number: Real)
    ensures
        number.bits < 0x8000_0000_0000_0000 ==> number.spec_negated().bits == number.bits
            + 0x8000_0000_0000_0000,
        number.bits >= 0x8000_0000_0000_0000 ==> number.spec_negated().bits == number.bits
            - 0x8000_0000_0000_0000,
        number.spec_negated().spec_negated() == number,
{
    let bits = number.bits;
    assert(bits < 0x8000_0000_0000_0000u64 ==> bits ^ 0x8000_0000_0000_0000u64 == bits
        + 0x8000_0000_0000_0000u64) by (bit_vector);
    assert(bits >= 0x8000_0000_0000_0000u64 ==> bits ^ 0x8000_0000_0000_0000u64 == bits
        - 0x8000_0000_0000_0000u64) by (bit_vector);
    assert((bits ^ 0x8000_0000_0000_0000u64) ^ 0x8000_0000_0000_0000u64 == bits) by (bit_vector);
}

/// The arrow keys: without a modifier for commands, down and up scroll by forty-eight points and
/// by minus forty-eight, right and left pan by as much, whatever the mode.
pub proof fn law_the_arrow_keys_scroll_and_pan(modifiers: Modifiers, mode: ScrollMode)
    requires
        !modifiers.command,
        !modifiers.ctrl,
    ensures
        input::view_command_asked(Key::ArrowRight, modifiers, mode) == Some(
            ViewCommand::PanBy { points: Real { bits: 0x4048_0000_0000_0000 } },
        ),
        input::view_command_asked(Key::ArrowLeft, modifiers, mode) == Some(
            ViewCommand::PanBy { points: Real { bits: 0xC048_0000_0000_0000 } },
        ),
        input::view_command_asked(Key::ArrowDown, modifiers, mode) == Some(
            ViewCommand::ScrollBy { points: Real { bits: 0x4048_0000_0000_0000 } },
        ),
        input::view_command_asked(Key::ArrowUp, modifiers, mode) == Some(
            ViewCommand::ScrollBy { points: Real { bits: 0xC048_0000_0000_0000 } },
        ),
{
    law_negating_turns_only_the_sign(Real { bits: 0x4048_0000_0000_0000 });
}

/// The keys that turn pages: without a modifier for commands, page down and the space bar go on
/// and page up and the space bar with shift go back, by a page where pages are shown one at a
/// time and by nine tenths of the window where they are not.
pub proof fn law_the_page_keys_go_on_and_back(modifiers: Modifiers)
    requires
        !modifiers.command,
        !modifiers.ctrl,
    ensures
        input::view_command_asked(Key::PageDown, modifiers, ScrollMode::Paged) == Some(
            ViewCommand::NextPage,
        ),
        input::view_command_asked(Key::PageUp, modifiers, ScrollMode::Paged) == Some(
            ViewCommand::PreviousPage,
        ),
        input::view_command_asked(Key::PageDown, modifiers, ScrollMode::Free) == Some(
            ViewCommand::ScrollByViewports { fraction: Real { bits: 0x3FEC_CCCC_CCCC_CCCD } },
        ),
        input::view_command_asked(Key::PageUp, modifiers, ScrollMode::Free) == Some(
            ViewCommand::ScrollByViewports { fraction: Real { bits: 0xBFEC_CCCC_CCCC_CCCD } },
        ),
        forall|mode: ScrollMode| #[trigger]
            input::view_command_asked(Key::Space, modifiers, mode) == input::view_command_asked(
                if modifiers.shift {
                    Key::PageUp
                } else {
                    Key::PageDown
                },
                modifiers,
                mode,
            ),
        forall|mode: ScrollMode| #[trigger]
            input::view_command_asked(Key::Home, modifiers, mode) == Some(ViewCommand::FirstPage),
        forall|mode: ScrollMode| #[trigger]
            input::view_command_asked(Key::End, modifiers, mode) == Some(ViewCommand::LastPage),
{
    law_negating_turns_only_the_sign(Real { bits: 0x3FEC_CCCC_CCCC_CCCD });
}

/// The zoom keys: with a modifier for commands, plus, which needs no shift, and minus step the
/// zoom, nought fits the width, one is full size and two fits the page.
pub proof fn law_the_zoom_keys(modifiers: Modifiers, mode: ScrollMode)
    requires
        modifiers.command || modifiers.ctrl,
    ensures
        input::view_command_asked(Key::Plus, modifiers, mode) == Some(
            ViewCommand::StepZoom { rungs: 1 },
        ),
        input::view_command_asked(Key::Equals, modifiers, mode) == Some(
            ViewCommand::StepZoom { rungs: 1 },
        ),
        input::view_command_asked(Key::Minus, modifiers, mode) == Some(
            ViewCommand::StepZoom { rungs: -1i32 },
        ),
        input::view_command_asked(Key::Num0, modifiers, mode) == Some(
            ViewCommand::SetZoom { target: ZoomTarget::FitWidth },
        ),
        input::view_command_asked(Key::Num1, modifiers, mode) == Some(
            ViewCommand::SetZoom {
                target: ZoomTarget::Fixed(Real { bits: 0x3FF0_0000_0000_0000 }),
            },
        ),
        input::view_command_asked(Key::Num2, modifiers, mode) == Some(
            ViewCommand::SetZoom { target: ZoomTarget::FitPage },
        ),
{
}

/// The keys that edit: with a modifier for commands, up and down move the page earlier and later,
/// Z undoes, S saves and T shows or hides the grid. Without one, and for any other key, nothing
/// is edited.
pub proof fn law_the_edit_keys(key: Key, modifiers: Modifiers)
    ensures
        modifiers.command || modifiers.ctrl ==> {
            &&& input::edit_asked(Key::ArrowUp, modifiers) == Some(EditKey::MoveEarlier)
            &&& input::edit_asked(Key::ArrowDown, modifiers) == Some(EditKey::MoveLater)
            &&& input::edit_asked(Key::Z, modifiers) == Some(EditKey::Undo)
            &&& input::edit_asked(Key::S, modifiers) == Some(EditKey::Save)
            &&& input::edit_asked(Key::T, modifiers) == Some(EditKey::ToggleThumbnails)
        },
        input::edit_asked(key, modifiers) is Some ==> {
            &&& modifiers.command || modifiers.ctrl
            &&& key == Key::ArrowUp || key == Key::ArrowDown || key == Key::Z || key == Key::S
                || key == Key::T
        },
        modifiers.spec_commanding() == (modifiers.command || modifiers.ctrl),
{
}

/// A key that is not among those asks nothing of the view, with a modifier or without.
pub proof fn law_no_other_key_moves_the_view(key: Key, modifiers: Modifiers, mode: ScrollMode)
    requires
        input::view_command_asked(key, modifiers, mode) is Some,
    ensures
        modifiers.command || modifiers.ctrl ==> key == Key::Plus || key == Key::Equals || key
            == Key::Minus || key == Key::Num0 || key == Key::Num1 || key == Key::Num2,
        !modifiers.command && !modifiers.ctrl ==> key == Key::PageDown || key == Key::PageUp || key
            == Key::Space || key == Key::Home || key == Key::End || key == Key::ArrowDown || key
            == Key::ArrowUp || key == Key::ArrowRight || key == Key::ArrowLeft,
{
}

/// At the foot of a page a movement on goes on by one screenful, at its head a movement back goes
/// back by one, and where there is room to scroll that way, or nothing moves, the page stays.
pub proof fn law_a_page_turns_at_its_edge(movement: Movement, room: ScrollRoom)
    ensures
        movement == Movement::Forward && !room.below ==> input::turned(movement, room) == Some(
            ViewCommand::ScrollByViewports { fraction: Real { bits: 0x3FF0_0000_0000_0000 } },
        ),
        movement == Movement::Backward && !room.above ==> input::turned(movement, room) == Some(
            ViewCommand::ScrollByViewports { fraction: Real { bits: 0xBFF0_0000_0000_0000 } },
        ),
        input::turned(movement, room) is Some ==> (movement == Movement::Forward && !room.below)
            || (movement == Movement::Backward && !room.above),
{
    law_negating_turns_only_the_sign(Real { bits: 0x3FF0_0000_0000_0000 });
}

/// The first movement of a swipe acts, and spends it; a swipe that is over leaves nothing spent;
/// and a notch spends nothing.
pub proof fn law_a_swipe_starts_afresh(spent: bool, wheel: Wheel)
    ensures
        wheel.notched == Movement::Still && (!spent || !wheel.gliding) ==> input::movement_of(
            spent,
            wheel,
        ) == wheel.glided,
        wheel.notched == Movement::Still && spent && wheel.gliding ==> input::movement_of(
            spent,
            wheel,
        ) == Movement::Still,
        wheel.notched == Movement::Still && wheel.glided != Movement::Still ==> input::spent_after(
            spent,
            wheel,
        ),
        wheel.glided == Movement::Still || wheel.notched != Movement::Still ==> input::spent_after(
            spent,
            wheel,
        ) == (spent && wheel.gliding),
{
}

} // verus!
