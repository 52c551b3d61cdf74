//! What gestures in the page grid and elsewhere ask for.
//!
//! A gesture works out which pages it means and hands them over as a command, so that a click
//! and an outside process take exactly the same path.

use vstd::prelude::*;

use crate::command::{Command, CommandView};
use crate::edits::Situation;
use crate::grid::GridMode;
use crate::input::{DropAction, DropActionView};
use crate::order::Source;
use crate::picker::Purpose;
use crate::selection::Pick;
use crate::session::{DispatchResult, ResultView, Session, SessionView};
use crate::snapshot;
use crate::stage::{StageId, StagedName, StagedNameView};
use crate::view;
use crate::view::{PageNumber, ViewCommand};

verus! {

/// A click on a page in the grid: the pages that are picked out after it. Nothing without a
/// document.
pub fn picked(session: &Session, position: usize, pick: Pick) -> (command: Option<Command>)
    ensures
        match session@.open {
            None => command is None,
            Some(document) => command is Some && command->0@ == (CommandView::SetSelection {
                pages: snapshot::picked(
                    document.order.order,
                    session@.selection.picked(document.order.order, position, pick).chosen,
                ),
            }),
        },
{
    match session.open() {
        None => None,
        Some(document) => {
            let mut wanted = session.selection().duplicate();
            wanted.pick(document.order(), position, pick);
            let positions = wanted.positions(document.order());
            Some(Command::SetSelection { pages: view::pages_at(positions.as_slice()) })
        },
    }
}

/// A box drawn around pages in the grid: those it covers are picked out, and no others.
pub fn marquee(session: &Session, covered: &[usize]) -> (command: Option<Command>)
    ensures
        match session@.open {
            None => command is None,
            Some(document) => command is Some && command->0@ == (CommandView::SetSelection {
                pages: snapshot::picked(
                    document.order.order,
                    crate::selection::sources_at(document.order.order, covered@),
                ),
            }),
        },
{
    match session.open() {
        None => None,
        Some(document) => {
            let mut wanted = session.selection().duplicate();
            wanted.set_positions(document.order(), covered);
            let positions = wanted.positions(document.order());
            Some(Command::SetSelection { pages: view::pages_at(positions.as_slice()) })
        },
    }
}

/// The pages that move with one that is dragged: all that are picked out if it is one of them,
/// and no other otherwise.
pub open spec fn moving_with(shown: Seq<Source>, chosen: Set<Source>, from: usize) -> Seq<usize> {
    if from < shown.len() && chosen.contains(shown[from as int]) {
        crate::selection::chosen_positions(shown, chosen)
    } else {
        seq![from]
    }
}

/// One position.
fn alone(position: usize) -> (positions: Vec<usize>)
    ensures
        positions@ == seq![position],
{
    let mut positions: Vec<usize> = Vec::new();
    positions.push(position);
    proof {
        assert(positions@ =~= seq![position]);
    }
    positions
}

/// The pages that move with the one at `from`.
pub fn dragged(session: &Session, from: usize) -> (positions: Vec<usize>)
    ensures
        positions@ == (match session@.open {
            Some(document) => moving_with(
                document.order.order,
                session@.selection.chosen,
                from,
            ),
            None => seq![from],
        }),
{
    match session.open() {
        Some(document) => if session.selection().contains_position(document.order(), from) {
            session.selection().positions(document.order())
        } else {
            alone(from)
        },
        None => alone(from),
    }
}

/// The pages of the staged document that is showing that move with the one at `from`.
pub open spec fn staged_moving_with(session: SessionView, from: usize) -> Seq<usize> {
    match (session.open, session.active_stage) {
        (Some(document), Some(stage)) => match document.staged_sources(stage) {
            Some(shown) => moving_with(shown, session.staged_selection(stage).chosen, from),
            None => seq![from],
        },
        _ => seq![from],
    }
}

/// The pages of the staged document that is showing that move with the one at `from`.
pub fn dragged_staged(session: &Session, from: usize) -> (positions: Vec<usize>)
    requires
        session@.wf(),
    ensures
        positions@ == staged_moving_with(session@, from),
{
    match (session.open(), session.active_stage()) {
        (Some(document), Some(stage)) => match document.staged_sources(stage) {
            Some(shown) => {
                let picked = session.staged_selection(stage);
                if picked.contains_among(shown.as_slice(), from) {
                    picked.positions_among(shown.as_slice())
                } else {
                    alone(from)
                }
            },
            None => alone(from),
        },
        _ => alone(from),
    }
}

/// Pages dragged to a slot of the grid. Dragging none means nothing.
pub fn moved(from: &[usize], to: usize) -> (command: Option<Command>)
    ensures
        command is None == (from@.len() == 0),
        command is Some ==> command->0@ == (CommandView::MovePages {
            from: view::numbered(from@),
            to: view::numbered(seq![to])[0],
        }),
{
    if from.len() == 0 {
        return None;
    }
    Some(Command::MovePages { from: view::pages_at(from), to: PageNumber::from_index(to) })
}

/// Pages dragged out of the staged document that is showing, to a slot of the grid.
pub fn placed(pages: &[usize], at: usize) -> (command: Option<Command>)
    ensures
        command is None == (pages@.len() == 0),
        command is Some ==> command->0@ == (CommandView::InsertPages {
            pages: view::numbered(pages@),
            at: view::numbered(seq![at])[0],
        }),
{
    if pages.len() == 0 {
        return None;
    }
    Some(Command::InsertPages { pages: view::pages_at(pages), at: PageNumber::from_index(at) })
}

/// A click on a page while clicking navigates.
pub fn navigated(position: usize) -> (command: Command)
    ensures
        command matches Command::View(ViewCommand::GoToPage { page }) && page.spec_get()
            == view::numbered(seq![position])[0],
{
    Command::View(ViewCommand::GoToPage { page: PageNumber::from_index(position) })
}

/// What a file chosen in a dialog is for.
pub fn chosen(purpose: Purpose, path: String) -> (command: Command)
    ensures
        command@ == (match purpose {
            Purpose::Open => CommandView::Open { path: path@ },
            Purpose::Insert => CommandView::InsertFile { path: path@ },
            Purpose::Stage => CommandView::StageDocument { path: path@ },
        }),
{
    match purpose {
        Purpose::Open => Command::Open { path },
        Purpose::Insert => Command::InsertFile { path },
        Purpose::Stage => Command::StageDocument { path },
    }
}

/// What a file dropped on part of the window asks for, or why it is refused. One that would add
/// to what is open is staged where it lands among the staged pages.
pub fn dropped(action: DropAction, zone: DropZone) -> (asked: Result<Command, String>)
    ensures
        match action@ {
            DropActionView::Open { path, .. } => asked matches Ok(command) && command@ == (
            CommandView::Open { path }),
            DropActionView::Insert { path, .. } => asked matches Ok(command) && command@ == (
            if zone == DropZone::Staging {
                CommandView::StageDocument { path }
            } else {
                CommandView::InsertFile { path }
            }),
            DropActionView::Refuse { reason } => asked matches Err(message) && message@ == reason,
        },
{
    match action {
        DropAction::Open { path, .. } => Ok(Command::Open { path }),
        DropAction::Insert { path, .. } => if zone == DropZone::Staging {
            Ok(Command::StageDocument { path })
        } else {
            Ok(Command::InsertFile { path })
        },
        DropAction::Refuse { reason } => Err(reason),
    }
}

/// Which part of the window a drop lands on, as far as that changes what it means.
#[derive(Debug, Clone, Copy, PartialEq, Eq, Structural)]
pub enum DropZone {
    /// Anywhere that means nothing in particular: a document dropped there is opened.
    Elsewhere,
    /// The page grid: a document dropped there is added to what is open.
    Grid,
    /// The staged pages, which are inside the grid: a document dropped there is staged.
    Staging,
}

/// Which part of the window a drop lands on. Without a document open, or with the grid put
/// away, every part means the same.
pub fn drop_zone(session: &Session, over_the_grid: bool, over_the_staging: bool) -> (zone:
    DropZone)
    ensures
        zone == (if session@.open is None || !session@.thumbnails {
            DropZone::Elsewhere
        } else if over_the_staging {
            DropZone::Staging
        } else if over_the_grid {
            DropZone::Grid
        } else {
            DropZone::Elsewhere
        }),
{
    if session.open().is_none() || !session.thumbnails() {
        DropZone::Elsewhere
    } else if over_the_staging {
        DropZone::Staging
    } else if over_the_grid {
        DropZone::Grid
    } else {
        DropZone::Elsewhere
    }
}

/// Whether a drop on this part of the window adds to what is open.
pub fn drop_inserts(zone: DropZone) -> (inserts: bool)
    ensures
        inserts == (zone != DropZone::Elsewhere),
{
    zone != DropZone::Elsewhere
}

/// Whether a request by the window to close is to be turned into a command. One that the
/// program itself caused is not.
pub fn close_is_asked(session: &Session, requested: bool) -> (asked: bool)
    ensures
        asked == (requested && !session@.quitting),
{
    requested && !session.quitting()
}

/// Whether the window has to be kept from closing after `Quit` was dispatched: a question is
/// up.
pub fn keeps_the_window(result: &DispatchResult) -> (keeps: bool)
    ensures
        keeps == (result@ == ResultView::NeedsAnswer),
{
    match result {
        DispatchResult::NeedsAnswer => true,
        _ => false,
    }
}

/// What the edits that are possible depend on.
pub open spec fn situation_in(
    situation: Situation,
    session: SessionView,
    current: PageNumber,
    saving: bool,
) -> bool {
    &&& situation.current == current
    &&& situation.pages == (match session.open {
        Some(document) => document.order.order.len(),
        None => 0,
    })
    &&& situation.can_undo == (session.open matches Some(document)
        && document.order.history.len() > 0)
    &&& situation.unsaved_changes == session.unsaved()
    &&& situation.saving == saving
    &&& situation.thumbnails == session.thumbnails
    &&& view::numbers(situation.selection@) == snapshot::selected_in(session)
}

/// What the edits that are possible right now depend on. The keyboard and the toolbar both ask
/// [`crate::edits::Edits::available`] about it, so they cannot disagree.
pub fn situation(session: &Session, current: PageNumber, saving: bool) -> (situation: Situation)
    ensures
        situation_in(situation, session@, current, saving),
{
    let (pages, can_undo) = match session.open() {
        Some(document) => (document.order().len(), document.order().can_undo()),
        None => (0, false),
    };
    Situation {
        current,
        pages,
        can_undo,
        unsaved_changes: session.unsaved_changes(),
        saving,
        thumbnails: session.thumbnails(),
        selection: snapshot::selected_pages(session),
    }
}

/// What was done in the page grid in one frame.
#[derive(Debug)]
pub struct Drawn {
    /// A page clicked while clicking picks pages out.
    pub picked: Option<(usize, Pick)>,
    /// A box drawn around pages.
    pub marquee: Option<Vec<usize>>,
    /// Pages dragged to a slot.
    pub moved: Option<(Vec<usize>, usize)>,
    /// Pages dragged out of the staged document that is showing, to a slot.
    pub placed: Option<(Vec<usize>, usize)>,
    /// A page clicked while clicking navigates.
    pub navigated: Option<usize>,
    /// A tab clicked.
    pub mode: Option<GridMode>,
    /// Something typed in the search box.
    pub query: Option<String>,
    /// The staged document that is showing put away.
    pub clear_staging: bool,
    /// Every page of a staged document picked out.
    pub select_all: Option<StageId>,
    /// Another staged document to show.
    pub stage_switched: Option<StageId>,
}

impl Drawn {
    /// Nothing was done.
    pub fn nothing() -> (drawn: Drawn)
        ensures
            drawn.spec_left() == 0,
    {
        Drawn {
            picked: None,
            marquee: None,
            moved: None,
            placed: None,
            navigated: None,
            mode: None,
            query: None,
            clear_staging: false,
            select_all: None,
            stage_switched: None,
        }
    }

    /// How many things are left to be turned into commands.
    pub open spec fn spec_left(&self) -> nat {
        let one = |there: bool| if there {
            1nat
        } else {
            0
        };
        one(self.picked is Some) + one(self.marquee is Some) + one(self.moved is Some) + one(
            self.placed is Some,
        ) + one(self.navigated is Some) + one(self.mode is Some) + one(self.query is Some) + one(
            self.clear_staging,
        ) + one(self.select_all is Some) + one(self.stage_switched is Some)
    }

    /// Takes out what is to be turned into a command next. Picking comes first: a drag that
    /// begins on a page not picked out reports both, and what is picked out has to be right
    /// before the move reads it.
    pub fn take_next(&mut self) -> (gesture: Option<Gesture>)
        ensures
            gesture == old(self).spec_next(),
            *final(self) == old(self).spec_rest(),
            gesture is Some ==> final(self).spec_left() + 1 == old(self).spec_left(),
            gesture is None ==> old(self).spec_left() == 0,
    {
        if let Some((position, pick)) = self.picked.take() {
            return Some(Gesture::Picked(position, pick));
        }
        if let Some(covered) = self.marquee.take() {
            return Some(Gesture::Marquee(covered));
        }
        if let Some((from, to)) = self.moved.take() {
            return Some(Gesture::Moved(from, to));
        }
        if let Some((pages, at)) = self.placed.take() {
            return Some(Gesture::Placed(pages, at));
        }
        if let Some(position) = self.navigated.take() {
            return Some(Gesture::Navigated(position));
        }
        if let Some(mode) = self.mode.take() {
            return Some(Gesture::Mode(mode));
        }
        if let Some(query) = self.query.take() {
            return Some(Gesture::Query(query));
        }
        if self.clear_staging {
            self.clear_staging = false;
            return Some(Gesture::ClearStaging);
        }
        if let Some(stage) = self.select_all.take() {
            return Some(Gesture::SelectAll(stage));
        }
        if let Some(stage) = self.stage_switched.take() {
            return Some(Gesture::StageSwitched(stage));
        }
        None
    }

    /// What is left once that has been taken out.
    pub open spec fn spec_rest(self) -> Drawn {
        if self.picked is Some {
            Drawn { picked: None, ..self }
        } else if self.marquee is Some {
            Drawn { marquee: None, ..self }
        } else if self.moved is Some {
            Drawn { moved: None, ..self }
        } else if self.placed is Some {
            Drawn { placed: None, ..self }
        } else if self.navigated is Some {
            Drawn { navigated: None, ..self }
        } else if self.mode is Some {
            Drawn { mode: None, ..self }
        } else if self.query is Some {
            Drawn { query: None, ..self }
        } else if self.clear_staging {
            Drawn { clear_staging: false, ..self }
        } else if self.select_all is Some {
            Drawn { select_all: None, ..self }
        } else {
            Drawn { stage_switched: None, ..self }
        }
    }

    /// What is to be turned into a command next.
    pub open spec fn spec_next(&self) -> Option<Gesture> {
        if let Some((position, pick)) = self.picked {
            Some(Gesture::Picked(position, pick))
        } else if let Some(covered) = self.marquee {
            Some(Gesture::Marquee(covered))
        } else if let Some((from, to)) = self.moved {
            Some(Gesture::Moved(from, to))
        } else if let Some((pages, at)) = self.placed {
            Some(Gesture::Placed(pages, at))
        } else if let Some(position) = self.navigated {
            Some(Gesture::Navigated(position))
        } else if let Some(mode) = self.mode {
            Some(Gesture::Mode(mode))
        } else if let Some(query) = self.query {
            Some(Gesture::Query(query))
        } else if self.clear_staging {
            Some(Gesture::ClearStaging)
        } else if let Some(stage) = self.select_all {
            Some(Gesture::SelectAll(stage))
        } else if let Some(stage) = self.stage_switched {
            Some(Gesture::StageSwitched(stage))
        } else {
            None
        }
    }
}

/// One thing done in the page grid.
#[derive(Debug)]
pub enum Gesture {
    Picked(usize, Pick),
    Marquee(Vec<usize>),
    Moved(Vec<usize>, usize),
    Placed(Vec<usize>, usize),
    Navigated(usize),
    Mode(GridMode),
    Query(String),
    ClearStaging,
    SelectAll(StageId),
    StageSwitched(StageId),
}

/// The numbers of every page of a document of so many pages.
pub open spec fn all_numbers(count: usize) -> Seq<usize> {
    Seq::new(count as nat, |i: int| (i + 1) as usize)
}

/// The numbers of every page of a document of so many pages.
fn every_page(count: usize) -> (pages: Vec<PageNumber>)
    ensures
        view::numbers(pages@) == all_numbers(count),
{
    let mut pages: Vec<PageNumber> = Vec::new();
    let mut i: usize = 0;
    proof {
        assert(view::numbers(pages@) =~= Seq::empty());
    }
    while i < count
        invariant
            i <= count,
            pages@.len() == i,
            forall|j: int| 0 <= j < i ==> (#[trigger] pages@[j]).spec_get() == j + 1,
        decreases count - i,
    {
        pages.push(PageNumber::from_index(i));
        i += 1;
    }
    proof {
        assert(view::numbers(pages@) =~= all_numbers(count));
    }
    pages
}

/// The command that a gesture comes to.
pub open spec fn command_of(gesture: Gesture, session: SessionView) -> Option<CommandView> {
    match gesture {
        Gesture::Picked(position, pick) => match session.open {
            None => None,
            Some(document) => Some(
                CommandView::SetSelection {
                    pages: snapshot::picked(
                        document.order.order,
                        session.selection.picked(document.order.order, position, pick).chosen,
                    ),
                },
            ),
        },
        Gesture::Marquee(covered) => match session.open {
            None => None,
            Some(document) => Some(
                CommandView::SetSelection {
                    pages: snapshot::picked(
                        document.order.order,
                        crate::selection::sources_at(document.order.order, covered@),
                    ),
                },
            ),
        },
        Gesture::Moved(from, to) => if from@.len() == 0 {
            None
        } else {
            Some(
                CommandView::MovePages {
                    from: view::numbered(from@),
                    to: view::numbered(seq![to])[0],
                },
            )
        },
        Gesture::Placed(pages, at) => if pages@.len() == 0 {
            None
        } else {
            Some(
                CommandView::InsertPages {
                    pages: view::numbered(pages@),
                    at: view::numbered(seq![at])[0],
                },
            )
        },
        Gesture::Navigated(position) => Some(
            CommandView::View(
                ViewCommand::GoToPage {
                    page: PageNumber::numbered(view::numbered(seq![position])[0]),
                },
            ),
        ),
        Gesture::Mode(mode) => Some(CommandView::SetGridMode { mode }),
        Gesture::Query(query) => Some(CommandView::SetPageFilter { query: query@ }),
        Gesture::ClearStaging => Some(CommandView::ClearStaging),
        Gesture::SelectAll(stage) => match session.open {
            None => None,
            Some(document) => Some(
                CommandView::SetStagedSelection {
                    staged: StagedNameView::Stage(stage.spec_get()),
                    pages: all_numbers(document.staged_page_count(stage.spec_get())),
                },
            ),
        },
        Gesture::StageSwitched(stage) => Some(
            CommandView::SetActiveStage { stage: stage.spec_get() },
        ),
    }
}

/// Turns a gesture into the command that an outside process would send for it, if it comes to
/// one.
pub fn command_for(gesture: Gesture, session: &Session) -> (command: Option<Command>)
    requires
        session@.wf(),
    ensures
        match command {
            Some(command) => command_of(gesture, session@) == Some(command@),
            None => command_of(gesture, session@) is None,
        },
{
    match gesture {
        Gesture::Picked(position, pick) => picked(session, position, pick),
        Gesture::Marquee(covered) => marquee(session, covered.as_slice()),
        Gesture::Moved(from, to) => moved(from.as_slice(), to),
        Gesture::Placed(pages, at) => placed(pages.as_slice(), at),
        Gesture::Navigated(position) => {
            let command = navigated(position);
            proof {
                if let Command::View(ViewCommand::GoToPage { page }) = command {
                    PageNumber::lemma_by_number(page);
                }
            }
            Some(command)
        },
        Gesture::Mode(mode) => Some(Command::SetGridMode { mode }),
        Gesture::Query(query) => Some(Command::SetPageFilter { query }),
        Gesture::ClearStaging => Some(Command::ClearStaging),
        Gesture::SelectAll(stage) => match session.open() {
            None => None,
            Some(document) => Some(
                Command::SetStagedSelection {
                    staged: StagedName::Stage(stage),
                    pages: every_page(document.staged_page_count(stage)),
                },
            ),
        },
        Gesture::StageSwitched(stage) => Some(Command::SetActiveStage { stage }),
    }
}

} // verus!
