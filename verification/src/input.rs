//! Turning keys, dropped files and the mouse wheel into commands.
//!
//! Nothing here knows the document or the window, so input is a producer of commands like any
//! other: whatever a key does, an outside process can ask for too.

use vstd::prelude::*;
use vstd::string::*;

use crate::command::Command;
use crate::edits::Edits;
use crate::label;
use crate::text;
use crate::view;
use crate::view::{Real, ScrollMode, ViewCommand, ZoomTarget};

verus! {

/// Fraction of the viewport that a page-down moves in free-scroll mode: nine tenths, so that
/// a line or two carries over and it is plain that nothing was skipped.
pub const VIEWPORT_STEP_FRACTION: u64 = 0x3FEC_CCCC_CCCC_CCCD;

/// How far an arrow key scrolls or pans, in points: forty-eight.
pub const ARROW_STEP_PT: u64 = 0x4048_0000_0000_0000;

/// The keys that mean something here. Every other key is [`Key::Unbound`].
#[derive(Debug, Clone, Copy, PartialEq, Eq, Structural)]
pub enum Key {
    ArrowDown,
    ArrowLeft,
    ArrowRight,
    ArrowUp,
    End,
    Equals,
    Home,
    Minus,
    Num0,
    Num1,
    Num2,
    O,
    PageDown,
    PageUp,
    Plus,
    S,
    Space,
    T,
    Z,
    Unbound,
}

/// The keys held down along with another.
#[derive(Debug, Clone, Copy, PartialEq, Eq, Structural)]
pub struct Modifiers {
    /// The platform's own modifier for commands.
    pub command: bool,
    pub ctrl: bool,
    pub shift: bool,
}

impl Modifiers {
    /// Whether a modifier for commands is held down.
    pub open spec fn spec_commanding(self) -> bool {
        self.command || self.ctrl
    }

    /// Whether a modifier for commands is held down.
    pub fn commanding(self) -> (commanding: bool)
        ensures
            commanding == self.spec_commanding(),
    {
        self.command || self.ctrl
    }
}

/// A page edit asked for by a key press. Which page it is about is not known here.
#[derive(Debug, Clone, Copy, PartialEq, Eq, Structural)]
pub enum EditKey {
    /// Move the current page one position earlier.
    MoveEarlier,
    /// Move the current page one position later.
    MoveLater,
    /// Undo the last page edit.
    Undo,
    /// Write the changes over the file.
    Save,
    /// Show or hide the page grid.
    ToggleThumbnails,
}

/// Which page edit a key press asks for. All of them want a modifier, because a bare arrow key
/// scrolls.
pub open spec fn edit_asked(key: Key, modifiers: Modifiers) -> Option<EditKey> {
    if !modifiers.spec_commanding() {
        None
    } else {
        match key {
            Key::ArrowUp => Some(EditKey::MoveEarlier),
            Key::ArrowDown => Some(EditKey::MoveLater),
            Key::Z => Some(EditKey::Undo),
            Key::S => Some(EditKey::Save),
            Key::T => Some(EditKey::ToggleThumbnails),
            _ => None,
        }
    }
}

/// Which page edit, if any, a key press asks for.
pub fn edit_for_key(key: Key, modifiers: Modifiers) -> (edit: Option<EditKey>)
    ensures
        edit == edit_asked(key, modifiers),
{
    if !modifiers.commanding() {
        return None;
    }
    match key {
        Key::ArrowUp => Some(EditKey::MoveEarlier),
        Key::ArrowDown => Some(EditKey::MoveLater),
        Key::Z => Some(EditKey::Undo),
        Key::S => Some(EditKey::Save),
        Key::T => Some(EditKey::ToggleThumbnails),
        _ => None,
    }
}

/// The command for a page edit, out of those possible right now.
pub fn command_for_edit(edit: EditKey, edits: Edits) -> (command: Option<Command>)
    ensures
        command == (match edit {
            EditKey::MoveEarlier => edits.move_earlier,
            EditKey::MoveLater => edits.move_later,
            EditKey::Undo => edits.undo,
            EditKey::Save => edits.save,
            EditKey::ToggleThumbnails => Some(edits.toggle_thumbnails),
        }),
{
    match edit {
        EditKey::MoveEarlier => edits.move_earlier,
        EditKey::MoveLater => edits.move_later,
        EditKey::Undo => edits.undo,
        EditKey::Save => edits.save,
        EditKey::ToggleThumbnails => Some(edits.toggle_thumbnails),
    }
}

/// Whether a key press asks for the file dialog. That is no command: it asks a person.
pub fn opens_the_picker(key: Key, modifiers: Modifiers) -> (asked: bool)
    ensures
        asked == (modifiers.spec_commanding() && key == Key::O),
{
    modifiers.commanding() && key == Key::O
}

/// One screenful or one page, by the mode.
pub open spec fn advancing(mode: ScrollMode, forward: bool) -> ViewCommand {
    match mode {
        ScrollMode::Paged => if forward {
            ViewCommand::NextPage
        } else {
            ViewCommand::PreviousPage
        },
        ScrollMode::Free => {
            let step = Real { bits: VIEWPORT_STEP_FRACTION };
            ViewCommand::ScrollByViewports {
                fraction: if forward {
                    step
                } else {
                    step.spec_negated()
                },
            }
        },
    }
}

/// One screenful or one page, by the mode.
fn advance(mode: ScrollMode, forward: bool) -> (command: ViewCommand)
    ensures
        command == advancing(mode, forward),
{
    match mode {
        ScrollMode::Paged => if forward {
            ViewCommand::NextPage
        } else {
            ViewCommand::PreviousPage
        },
        ScrollMode::Free => {
            let step = Real { bits: VIEWPORT_STEP_FRACTION };
            ViewCommand::ScrollByViewports {
                fraction: if forward {
                    step
                } else {
                    step.negated()
                },
            }
        },
    }
}

/// What a key press asks of the view. A key that means something bare means nothing with a
/// modifier unless it is listed with one.
pub open spec fn view_command_asked(key: Key, modifiers: Modifiers, mode: ScrollMode) -> Option<
    ViewCommand,
> {
    let step = Real { bits: ARROW_STEP_PT };
    if modifiers.spec_commanding() {
        match key {
            Key::Plus | Key::Equals => Some(ViewCommand::StepZoom { rungs: 1 }),
            Key::Minus => Some(ViewCommand::StepZoom { rungs: -1i32 }),
            Key::Num0 => Some(ViewCommand::SetZoom { target: ZoomTarget::FitWidth }),
            Key::Num1 => Some(
                ViewCommand::SetZoom { target: ZoomTarget::Fixed(Real { bits: view::ONE }) },
            ),
            Key::Num2 => Some(ViewCommand::SetZoom { target: ZoomTarget::FitPage }),
            _ => None,
        }
    } else {
        match key {
            Key::PageDown => Some(advancing(mode, true)),
            Key::PageUp => Some(advancing(mode, false)),
            Key::Space => Some(advancing(mode, !modifiers.shift)),
            Key::Home => Some(ViewCommand::FirstPage),
            Key::End => Some(ViewCommand::LastPage),
            Key::ArrowDown => Some(ViewCommand::ScrollBy { points: step }),
            Key::ArrowUp => Some(ViewCommand::ScrollBy { points: step.spec_negated() }),
            Key::ArrowRight => Some(ViewCommand::PanBy { points: step }),
            Key::ArrowLeft => Some(ViewCommand::PanBy { points: step.spec_negated() }),
            _ => None,
        }
    }
}

/// Turns a key press into a command.
///
/// The mode decides here what a page-down is, so that the commands themselves always mean the
/// same.
pub fn command_for_key(key: Key, modifiers: Modifiers, mode: ScrollMode) -> (command: Option<
    Command,
>)
    ensures
        command == (match view_command_asked(key, modifiers, mode) {
            Some(asked) => Some(Command::View(asked)),
            None => None,
        }),
{
    if modifiers.commanding() {
        let asked = match key {
            Key::Plus | Key::Equals => ViewCommand::StepZoom { rungs: 1 },
            Key::Minus => ViewCommand::StepZoom { rungs: -1 },
            Key::Num0 => ViewCommand::SetZoom { target: ZoomTarget::FitWidth },
            Key::Num1 => ViewCommand::SetZoom {
                target: ZoomTarget::Fixed(Real { bits: view::ONE }),
            },
            Key::Num2 => ViewCommand::SetZoom { target: ZoomTarget::FitPage },
            _ => {
                return None;
            },
        };
        return Some(Command::View(asked));
    }
    let step = Real { bits: ARROW_STEP_PT };
    let asked = match key {
        Key::PageDown => advance(mode, true),
        Key::PageUp => advance(mode, false),
        Key::Space => advance(mode, !modifiers.shift),
        Key::Home => ViewCommand::FirstPage,
        Key::End => ViewCommand::LastPage,
        Key::ArrowDown => ViewCommand::ScrollBy { points: step },
        Key::ArrowUp => ViewCommand::ScrollBy { points: step.negated() },
        Key::ArrowRight => ViewCommand::PanBy { points: step },
        Key::ArrowLeft => ViewCommand::PanBy { points: step.negated() },
        _ => {
            return None;
        },
    };
    Some(Command::View(asked))
}

/// What a key press comes to.
#[derive(Debug, PartialEq, Eq)]
pub enum KeyAction {
    /// The file dialog.
    Dialog,
    /// A command.
    Command(Command),
    /// Nothing: the key is not bound, or what it asks for is not possible right now.
    Nothing,
}

/// What a key press comes to, with the edits that are possible right now.
pub fn on_key(key: Key, modifiers: Modifiers, mode: ScrollMode, edits: Edits) -> (action: KeyAction)
    ensures
        ({
            let asked = match edit_asked(key, modifiers) {
                Some(EditKey::MoveEarlier) => edits.move_earlier,
                Some(EditKey::MoveLater) => edits.move_later,
                Some(EditKey::Undo) => edits.undo,
                Some(EditKey::Save) => edits.save,
                Some(EditKey::ToggleThumbnails) => Some(edits.toggle_thumbnails),
                None => match view_command_asked(key, modifiers, mode) {
                    Some(asked) => Some(Command::View(asked)),
                    None => None,
                },
            };
            if modifiers.spec_commanding() && key == Key::O {
                action == KeyAction::Dialog
            } else {
                match asked {
                    Some(command) => action == KeyAction::Command(command),
                    None => action == KeyAction::Nothing,
                }
            }
        }),
{
    if opens_the_picker(key, modifiers) {
        return KeyAction::Dialog;
    }
    let asked = match edit_for_key(key, modifiers) {
        Some(edit) => command_for_edit(edit, edits),
        None => command_for_key(key, modifiers, mode),
    };
    match asked {
        Some(command) => KeyAction::Command(command),
        None => KeyAction::Nothing,
    }
}

/// No key press asks for two things at once: the file dialog, a page edit and a change of the
/// view exclude each other.
pub proof fn law_a_key_press_means_one_thing(key: Key, modifiers: Modifiers, mode: ScrollMode)
    ensures
        modifiers.spec_commanding() && key == Key::O ==> edit_asked(key, modifiers) is None
            && view_command_asked(key, modifiers, mode) is None,
        edit_asked(key, modifiers) is Some ==> view_command_asked(key, modifiers, mode) is None,
{
}

/// What dropping files on the window would do.
///
/// One decision for the hint painted while the drag is in the air and for the drop itself, so
/// that the window cannot promise one thing and do another.
#[derive(Debug, Clone, PartialEq, Eq)]
pub enum DropAction {
    /// Open this document, replacing whatever is open. `ignored` other files came with it.
    Open { path: String, ignored: usize },
    /// Add this document's pages to the one already open. `ignored` other files came with it.
    Insert { path: String, ignored: usize },
    /// Nothing dropped can be opened, for a reason that a person can read.
    Refuse { reason: String },
}

/// What dropping files would do, by its texts.
#[verifier::ext_equal]
pub enum DropActionView {
    Open { path: Seq<char>, ignored: nat },
    Insert { path: Seq<char>, ignored: nat },
    Refuse { reason: Seq<char> },
}

impl View for DropAction {
    type V = DropActionView;

    open spec fn view(&self) -> DropActionView {
        match self {
            DropAction::Open { path, ignored } => DropActionView::Open {
                path: path@,
                ignored: *ignored as nat,
            },
            DropAction::Insert { path, ignored } => DropActionView::Insert {
                path: path@,
                ignored: *ignored as nat,
            },
            DropAction::Refuse { reason } => DropActionView::Refuse { reason: reason@ },
        }
    }
}

/// What stands between the parts of a hint.
pub open spec fn dash() -> Seq<char> {
    " — "@
}

/// The part of a hint that mentions other files, if there are any.
pub open spec fn mention_of(ignored: nat) -> Seq<char> {
    if ignored > 0 {
        dash() + "ignoring "@ + text::decimal_text(ignored) + " other file(s)"@
    } else {
        Seq::empty()
    }
}

impl DropActionView {
    /// The sentence to show over the window.
    pub open spec fn hint(self, unsaved_changes: bool) -> Seq<char> {
        match self {
            DropActionView::Open { path, ignored } => {
                let hint = "Open "@ + label::label_of(path) + mention_of(ignored);
                if unsaved_changes {
                    hint + dash() + "you will be asked about your unsaved page changes"@
                } else {
                    hint
                }
            },
            DropActionView::Insert { path, ignored } => "Add pages from "@ + label::label_of(path)
                + mention_of(ignored),
            DropActionView::Refuse { reason } => reason,
        }
    }
}

/// Adds the mention of other files, if there are any.
fn mention(hint: &mut String, ignored: usize)
    ensures
        final(hint)@ == old(hint)@ + mention_of(ignored as nat),
{
    if ignored > 0 {
        hint.append(" — ");
        hint.append("ignoring ");
        hint.append(text::decimal(ignored).as_str());
        hint.append(" other file(s)");
        proof {
            assert(hint@ =~= old(hint)@ + mention_of(ignored as nat));
        }
    } else {
        proof {
            assert(hint@ =~= old(hint)@ + mention_of(ignored as nat));
        }
    }
}

impl DropAction {
    /// The sentence to show over the window.
    ///
    /// `unsaved_changes` says that an open will be interrupted by a question, which is worth
    /// saying while the drag can still be abandoned. Adding pages loses nothing.
    pub fn hint(&self, unsaved_changes: bool) -> (hint: String)
        ensures
            hint@ == self@.hint(unsaved_changes),
    {
        match self {
            DropAction::Open { path, ignored } => {
                let mut hint = String::from_str("Open ");
                hint.append(label::file_label(path.as_str()).as_str());
                mention(&mut hint, *ignored);
                if unsaved_changes {
                    hint.append(" — ");
                    hint.append("you will be asked about your unsaved page changes");
                }
                hint
            },
            DropAction::Insert { path, ignored } => {
                let mut hint = String::from_str("Add pages from ");
                hint.append(label::file_label(path.as_str()).as_str());
                mention(&mut hint, *ignored);
                hint
            },
            DropAction::Refuse { reason } => String::from_str(reason.as_str()),
        }
    }
}

/// Whether `at` is where the first PDF stands.
pub open spec fn first_pdf(paths: Seq<String>, at: int) -> bool {
    &&& 0 <= at < paths.len()
    &&& label::names_a_pdf(paths[at]@)
    &&& forall|i: int| 0 <= i < at ==> !label::names_a_pdf((#[trigger] paths[i])@)
}

/// Whether none of the paths names a PDF.
pub open spec fn no_pdf(paths: Seq<String>) -> bool {
    forall|i: int| 0 <= i < paths.len() ==> !label::names_a_pdf((#[trigger] paths[i])@)
}

/// Why a drop without a PDF is refused.
pub open spec fn refusal(paths: Seq<String>) -> Seq<char> {
    if paths.len() == 1 {
        label::label_of(paths[0]@) + " is not a PDF"@
    } else {
        "none of those "@ + text::decimal_text(paths.len()) + " files is a PDF"@
    }
}

/// Decides what a set of dropped or hovered paths means.
///
/// The first PDF counts, not the first path. `insert` says that the drop lands where it means
/// "add to what is open" rather than "replace it".
pub fn drop_action(paths: &[String], insert: bool) -> (action: Option<DropAction>)
    ensures
        action is None == (paths@.len() == 0),
        action is Some && no_pdf(paths@) ==> action->0@ == (DropActionView::Refuse {
            reason: refusal(paths@),
        }),
        forall|at: int|
            #![trigger first_pdf(paths@, at)]
            first_pdf(paths@, at) ==> {
                let path = paths@[at]@;
                let ignored = (paths@.len() - 1) as nat;
                action->0@ == (if insert {
                    DropActionView::Insert { path, ignored }
                } else {
                    DropActionView::Open { path, ignored }
                })
            },
{
    if paths.len() == 0 {
        return None;
    }
    let mut at: usize = 0;
    while at < paths.len() && !label::is_pdf(paths[at].as_str())
        invariant
            at <= paths.len(),
            forall|i: int| 0 <= i < at ==> !label::names_a_pdf((#[trigger] paths@[i])@),
        decreases paths.len() - at,
    {
        at += 1;
    }
    if at < paths.len() {
        let path = String::from_str(paths[at].as_str());
        let ignored = paths.len() - 1;
        proof {
            assert(first_pdf(paths@, at as int));
            assert forall|other: int| first_pdf(paths@, other) implies other == at by {
                if other < at {
                    assert(!label::names_a_pdf(paths@[other]@));
                }
                if at < other {
                    assert(!label::names_a_pdf(paths@[at as int]@));
                }
            }
        }
        return Some(
            if insert {
                DropAction::Insert { path, ignored }
            } else {
                DropAction::Open { path, ignored }
            },
        );
    }
    let reason = if paths.len() == 1 {
        text::joined(label::file_label(paths[0].as_str()).as_str(), " is not a PDF")
    } else {
        let mut reason = String::from_str("none of those ");
        reason.append(text::decimal(paths.len()).as_str());
        reason.append(" files is a PDF");
        reason
    };
    Some(DropAction::Refuse { reason })
}

/// Every drop either has a first PDF, which is opened or inserted, or has none and is refused.
pub proof fn law_every_drop_opens_inserts_or_is_refused(paths: Seq<String>)
    ensures
        no_pdf(paths) || exists|at: int| first_pdf(paths, at),
    decreases paths.len(),
{
    if paths.len() > 0 {
        let front = paths.drop_last();
        law_every_drop_opens_inserts_or_is_refused(front);
        if exists|at: int| first_pdf(front, at) {
            let at = choose|at: int| first_pdf(front, at);
            assert forall|i: int| 0 <= i < at implies !label::names_a_pdf(
                (#[trigger] paths[i])@,
            ) by {
                assert(front[i] == paths[i]);
            }
            assert(front[at] == paths[at]);
            assert(first_pdf(paths, at));
        } else {
            assert forall|i: int| 0 <= i < front.len() implies !label::names_a_pdf(
                (#[trigger] paths[i])@,
            ) by {
                assert(front[i] == paths[i]);
            }
            if label::names_a_pdf(paths.last()@) {
                assert(first_pdf(paths, paths.len() - 1));
            }
        }
    }
}

/// Which way something moves.
#[derive(Debug, Clone, Copy, PartialEq, Eq, Structural)]
pub enum Movement {
    /// Not at all.
    Still,
    /// Further into the document.
    Forward,
    /// Back towards its start.
    Backward,
    /// By something that is no number.
    NotFinite,
}

/// One frame of wheel input.
///
/// A mouse wheel sends one event per notch, and each should turn a page. A trackpad sends a
/// stream of small ones, and a swipe should turn one page however many it is made of.
#[derive(Debug, Clone, Copy, PartialEq, Eq, Structural)]
pub struct Wheel {
    /// Movement from notches.
    pub notched: Movement,
    /// Movement from a continuous gesture.
    pub glided: Movement,
    /// Whether a scroll is still in progress.
    pub gliding: bool,
}

/// What a wheel event counts toward.
#[derive(Debug, Clone, Copy, PartialEq, Eq, Structural)]
pub enum Share {
    Notched,
    Glided,
}

/// What a wheel event counts toward, if anything. One with a modifier zooms, or scrolls
/// sideways; small movements measured in points come from a trackpad, and all others are
/// notches.
pub fn share_of(modifiers: Modifiers, in_points: bool, small: bool) -> (share: Option<Share>)
    ensures
        share == (if modifiers.spec_commanding() || modifiers.shift {
            None
        } else if in_points && small {
            Some(Share::Glided)
        } else {
            Some(Share::Notched)
        }),
{
    if modifiers.commanding() || modifiers.shift {
        None
    } else if in_points && small {
        Some(Share::Glided)
    } else {
        Some(Share::Notched)
    }
}

/// Whether a wheel gesture belongs to the pages rather than to the page grid.
///
/// `over_the_grid` is `None` where the pointer's position is not known or the grid is not
/// showing. The grid is the only other place that scrolls, so whatever is not over it belongs
/// to the pages.
pub fn wheel_is_for_the_pages(over_the_grid: Option<bool>) -> (ours: bool)
    ensures
        ours == (over_the_grid != Some(true)),
{
    match over_the_grid {
        Some(over) => !over,
        None => true,
    }
}

/// Where there is room left to scroll inside the page.
#[derive(Debug, Clone, Copy, PartialEq, Eq, Structural)]
pub struct ScrollRoom {
    pub above: bool,
    pub below: bool,
}

/// Turns wheel gestures into page turns at the edges of a page, while one page is shown at a
/// time.
#[derive(Debug)]
pub struct PageTurns {
    spent: bool,
}

impl Default for PageTurns {
    /// No gesture is in progress.
    fn default() -> (turns: PageTurns)
        ensures
            !turns.spec_spent(),
    {
        PageTurns { spent: false }
    }
}

/// Whether a gesture is still spent at the start of a frame: it is over once nothing moves.
pub open spec fn still_spent(spent: bool, wheel: Wheel) -> bool {
    spent && wheel.gliding
}

/// The movement that this frame may act on. A notch always may; a continuous gesture only
/// once.
pub open spec fn movement_of(spent: bool, wheel: Wheel) -> Movement {
    if wheel.notched != Movement::Still {
        wheel.notched
    } else if !still_spent(spent, wheel) {
        wheel.glided
    } else {
        Movement::Still
    }
}

/// Whether the gesture is spent after a frame. It is from its first movement on, whether or
/// not that turned a page: one gesture does one thing.
pub open spec fn spent_after(spent: bool, wheel: Wheel) -> bool {
    still_spent(spent, wheel) || (wheel.notched == Movement::Still && wheel.glided
        != Movement::Still)
}

/// What a movement does at the edge of a page, or `None` where there is room to scroll.
pub open spec fn turned(movement: Movement, room: ScrollRoom) -> Option<ViewCommand> {
    let screenful = Real { bits: view::ONE };
    match movement {
        Movement::Forward => if room.below {
            None
        } else {
            Some(ViewCommand::ScrollByViewports { fraction: screenful })
        },
        Movement::Backward => if room.above {
            None
        } else {
            Some(ViewCommand::ScrollByViewports { fraction: screenful.spec_negated() })
        },
        Movement::Still | Movement::NotFinite => None,
    }
}

impl PageTurns {
    /// Whether the gesture in progress has already had its turn.
    pub closed spec fn spec_spent(&self) -> bool {
        self.spent
    }

    /// What this frame's wheel should do, or `None` to leave it to the scrolling itself.
    pub fn turn(&mut self, wheel: Wheel, room: ScrollRoom) -> (command: Option<ViewCommand>)
        ensures
            command == turned(movement_of(old(self).spec_spent(), wheel), room),
            final(self).spec_spent() == spent_after(old(self).spec_spent(), wheel),
    {
        if !wheel.gliding {
            self.spent = false;
        }
        let movement = if wheel.notched != Movement::Still {
            wheel.notched
        } else if wheel.glided != Movement::Still && !self.spent {
            self.spent = true;
            wheel.glided
        } else {
            return None;
        };
        let screenful = Real { bits: view::ONE };
        match movement {
            Movement::Forward => if room.below {
                None
            } else {
                Some(ViewCommand::ScrollByViewports { fraction: screenful })
            },
            Movement::Backward => if room.above {
                None
            } else {
                Some(ViewCommand::ScrollByViewports { fraction: screenful.negated() })
            },
            _ => None,
        }
    }
}

/// Whether a gesture that started in `spent` is still spent after the given frames.
pub open spec fn spent_over(spent: bool, frames: Seq<Wheel>) -> bool
    decreases frames.len(),
{
    if frames.len() == 0 {
        spent
    } else {
        spent_after(spent_over(spent, frames.drop_last()), frames.last())
    }
}

/// One swipe turns at most one page: after its first movement, no later frame of the same
/// gesture acts, however many there are and wherever the page ends.
pub proof fn law_one_swipe_does_one_thing(
    spent: bool,
    first: Wheel,
    rest: Seq<Wheel>,
    last: Wheel,
)
    requires
        first.notched == Movement::Still,
        first.glided != Movement::Still,
        forall|i: int|
            0 <= i < rest.len() ==> (#[trigger] rest[i]).gliding && rest[i].notched
                == Movement::Still,
        last.gliding,
        last.notched == Movement::Still,
    ensures
        spent_over(spent_after(spent, first), rest),
        movement_of(spent_over(spent_after(spent, first), rest), last) == Movement::Still,
    decreases rest.len(),
{
    if rest.len() > 0 {
        let front = rest.drop_last();
        assert forall|i: int| 0 <= i < front.len() implies (#[trigger] front[i]).gliding
            && front[i].notched == Movement::Still by {
            assert(front[i] == rest[i]);
        }
        law_one_swipe_does_one_thing(spent, first, front, rest.last());
    }
}

/// Every notch acts, whatever gesture is in progress.
pub proof fn law_every_notch_acts(spent: bool, wheel: Wheel)
    requires
        wheel.notched != Movement::Still,
    ensures
        movement_of(spent, wheel) == wheel.notched,
{
}

} // verus!
