//! What is open, and what carrying out a command does to it.
//!
//! Nothing reaches the state except through a command: a key press, a toolbar click and a
//! message from an outside process all end up in [`Session::dispatch`]. What needs the disk or
//! the window is not done here but asked for, as a [`Step`].

use std::collections::HashMap;

use vstd::prelude::*;
use vstd::string::*;

use crate::command::{Command, CommandView};
use crate::confirm;
use crate::confirm::{Answer, Guard, GuardView, Intent, IntentView};
use crate::document;
use crate::document::{DocumentView, OpenDocument, PageEdit, PageEditView};
use crate::grid::GridMode;
use crate::order::Source;
use crate::picker::Purpose;
use crate::save::Overwrite;
use crate::saver::Saved;
use crate::selection::{Pick, Selection, SelectionView};
use crate::stage::{StageId, StagedName, StagedNameView};
use crate::text;
use crate::view;
use crate::view::{Outcome, PageNumber, ViewCommand};

verus! {

broadcast use vstd::std_specs::hash::group_hash_axioms;

/// What a command did. Whoever needs more reads the state afterwards.
#[derive(Debug, Clone, PartialEq, Eq)]
pub enum DispatchResult {
    /// The view took it, or something that is only looked at changed.
    View(Outcome),
    Opened,
    Closed,
    /// A capture has started. There is no picture yet.
    CaptureStarted,
    /// A page edit took effect. The file is unchanged.
    Edited,
    /// A save has started. There is no file yet.
    Saving,
    /// Held back because it would discard unsaved page changes.
    NeedsAnswer,
    /// Something held back was abandoned.
    Cancelled,
    /// It asked for something that was already so.
    Unchanged,
    Quitting,
    Failed(String),
}

/// What a command did, by its text.
#[verifier::ext_equal]
pub enum ResultView {
    View(Outcome),
    Opened,
    Closed,
    CaptureStarted,
    Edited,
    Saving,
    NeedsAnswer,
    Cancelled,
    Unchanged,
    Quitting,
    Failed(Seq<char>),
}

impl View for DispatchResult {
    type V = ResultView;

    open spec fn view(&self) -> ResultView {
        match self {
            DispatchResult::View(outcome) => ResultView::View(*outcome),
            DispatchResult::Opened => ResultView::Opened,
            DispatchResult::Closed => ResultView::Closed,
            DispatchResult::CaptureStarted => ResultView::CaptureStarted,
            DispatchResult::Edited => ResultView::Edited,
            DispatchResult::Saving => ResultView::Saving,
            DispatchResult::NeedsAnswer => ResultView::NeedsAnswer,
            DispatchResult::Cancelled => ResultView::Cancelled,
            DispatchResult::Unchanged => ResultView::Unchanged,
            DispatchResult::Quitting => ResultView::Quitting,
            DispatchResult::Failed(message) => ResultView::Failed(message@),
        }
    }
}

/// What is left to be done outside once a command has been carried out.
#[derive(Debug, PartialEq, Eq)]
pub enum Effect {
    Nothing,
    /// Lay the pages out again: there are so many now.
    Relayout { pages: usize },
    /// Start writing the document.
    Save { destination: String, overwrite: Overwrite },
    /// Close the window, for real.
    CloseWindow,
    /// Show the document that was opened, from its start.
    ShowDocument { path: String, pages: usize },
    /// Show an empty window.
    ShowNothing,
    /// Start a capture.
    Capture { path: String },
}

/// What is left to be done outside, by its texts.
#[verifier::ext_equal]
pub enum EffectView {
    Nothing,
    Relayout { pages: nat },
    Save { destination: Seq<char>, overwrite: Overwrite },
    CloseWindow,
    ShowDocument { path: Seq<char>, pages: usize },
    ShowNothing,
    Capture { path: Seq<char> },
}

impl View for Effect {
    type V = EffectView;

    open spec fn view(&self) -> EffectView {
        match self {
            Effect::Nothing => EffectView::Nothing,
            Effect::Relayout { pages } => EffectView::Relayout { pages: *pages as nat },
            Effect::Save { destination, overwrite } => EffectView::Save {
                destination: destination@,
                overwrite: *overwrite,
            },
            Effect::CloseWindow => EffectView::CloseWindow,
            Effect::ShowDocument { path, pages } => EffectView::ShowDocument {
                path: path@,
                pages: *pages,
            },
            Effect::ShowNothing => EffectView::ShowNothing,
            Effect::Capture { path } => EffectView::Capture { path: path@ },
        }
    }
}

/// A file that has to be read before a command can go on.
#[derive(Debug, PartialEq, Eq)]
pub struct ReadRequest {
    pub path: String,
    /// What its pages are for.
    pub purpose: Purpose,
    /// Whether failing to read it is reported as the last error. It is, unless it is read
    /// because a save has just finished.
    pub reported: bool,
}

/// A file that has to be read, by its text.
#[verifier::ext_equal]
pub struct ReadView {
    pub path: Seq<char>,
    pub purpose: Purpose,
    pub reported: bool,
}

impl View for ReadRequest {
    type V = ReadView;

    open spec fn view(&self) -> ReadView {
        ReadView { path: self.path@, purpose: self.purpose, reported: self.reported }
    }
}

/// How carrying out a command goes on.
#[derive(Debug, PartialEq, Eq)]
pub enum Step {
    /// It is done, but for an effect outside.
    Done { result: DispatchResult, effect: Effect },
    /// The view has to apply it; its outcome is the result.
    Apply(ViewCommand),
    /// A file has to be read, and handed to [`Session::file_read`].
    Read(ReadRequest),
}

/// How carrying out a command goes on, by its texts.
#[verifier::ext_equal]
pub enum StepView {
    Done { result: ResultView, effect: EffectView },
    Apply(ViewCommand),
    Read(ReadView),
}

impl View for Step {
    type V = StepView;

    open spec fn view(&self) -> StepView {
        match self {
            Step::Done { result, effect } => StepView::Done { result: result@, effect: effect@ },
            Step::Apply(command) => StepView::Apply(*command),
            Step::Read(read) => StepView::Read(read@),
        }
    }
}

/// What a [`Session`] holds.
#[verifier::ext_equal]
pub struct SessionView {
    /// What is open, if anything.
    pub open: Option<DocumentView>,
    /// Whether the page grid is showing.
    pub thumbnails: bool,
    /// What a click in the grid does.
    pub grid_mode: GridMode,
    /// Pages picked out in the grid.
    pub selection: SelectionView,
    /// Pages picked out in each staged document.
    pub staged_selections: Map<usize, SelectionView>,
    /// Which staged document is showing.
    pub active_stage: Option<usize>,
    /// What is typed in the grid's search box.
    pub page_filter: Seq<char>,
    /// Something held back because it would discard unsaved page changes.
    pub guard: Option<GuardView>,
    /// Whether the window has been told to close for real.
    pub quitting: bool,
    /// Why the last command failed.
    pub last_error: Option<Seq<char>>,
}

/// The state after a step, and the step.
#[verifier::ext_equal]
pub struct After {
    pub session: SessionView,
    pub step: StepView,
}

/// What a command that needs a document says without one.
pub open spec fn nothing_open() -> Seq<char> {
    "nothing is open"@
}

/// The positions that page numbers name.
pub open spec fn positions(numbers: Seq<usize>) -> Seq<usize> {
    numbers.map_values(|number: usize| (number - 1) as usize)
}

/// What is said of a stage that is not there.
pub open spec fn not_staged(stage: usize) -> Seq<char> {
    "stage "@ + text::decimal_text(stage as nat) + " is not currently staged"@
}

impl SessionView {
    /// Nothing is open, and nothing has been asked for.
    pub open spec fn empty() -> SessionView {
        SessionView {
            open: None,
            thumbnails: false,
            grid_mode: GridMode::Navigate,
            selection: SelectionView::none(),
            staged_selections: Map::empty(),
            active_stage: None,
            page_filter: Seq::empty(),
            guard: None,
            quitting: false,
            last_error: None,
        }
    }

    /// What is open is in order.
    pub open spec fn wf(self) -> bool {
        self.open matches Some(document) ==> document.wf()
    }

    /// Whether the page order differs from the file it came from.
    pub open spec fn unsaved(self) -> bool {
        self.open matches Some(document) && document.unsaved()
    }

    /// Done, with nothing left to do outside.
    pub open spec fn done(self, result: ResultView) -> After {
        After { session: self, step: StepView::Done { result, effect: EffectView::Nothing } }
    }

    /// Refused, with a reason.
    pub open spec fn failed(self, message: Seq<char>) -> After {
        self.done(ResultView::Failed(message))
    }

    /// A page edit. With nothing open it fails, and one that changes nothing says so.
    pub open spec fn edited(self, edit: PageEditView) -> After {
        match self.open {
            None => self.failed(nothing_open()),
            Some(document) => if edit.changes(document.order) {
                let order = edit.applied(document.order);
                After {
                    session: SessionView { open: Some(document.with_order(order)), ..self },
                    step: StepView::Done {
                        result: ResultView::Edited,
                        effect: EffectView::Relayout { pages: order.order.len() },
                    },
                }
            } else {
                self.done(ResultView::Unchanged)
            },
        }
    }

    /// A request to write the document. There is nothing to write where it is unedited and its
    /// own file is meant, and that is said even while a save is running; otherwise one save
    /// runs at a time.
    pub open spec fn save_begun(
        self,
        destination: Seq<char>,
        overwrite: Overwrite,
        saving: bool,
    ) -> After {
        match self.open {
            None => self.failed(nothing_open()),
            Some(document) => if !document.unsaved() && destination == document.primary_path() {
                self.done(ResultView::Unchanged)
            } else if saving {
                self.failed("a save is already running"@)
            } else {
                After {
                    session: self,
                    step: StepView::Done {
                        result: ResultView::Saving,
                        effect: EffectView::Save { destination, overwrite },
                    },
                }
            },
        }
    }

    /// The staged document that is showing put away; the one staged most recently of those
    /// left shows instead.
    pub open spec fn staging_cleared(self) -> After {
        match self.open {
            None => self.failed(nothing_open()),
            Some(_) => match self.active_stage {
                None => self.done(ResultView::Unchanged),
                Some(stage) => self.stage_closed(stage),
            },
        }
    }

    /// A staged document put away, with what was picked out of it. Where it was the one
    /// showing, the one staged most recently of those left shows instead.
    pub open spec fn stage_closed(self, stage: usize) -> After {
        match self.open {
            None => self.failed(nothing_open()),
            Some(document) => {
                let rest = document.without_stage(stage);
                if rest.staging.len() == document.staging.len() {
                    self.done(ResultView::Unchanged)
                } else {
                    (SessionView {
                        open: Some(rest),
                        staged_selections: self.staged_selections.remove(stage),
                        active_stage: if self.active_stage == Some(stage) {
                            document::latest(rest.staging)
                        } else {
                            self.active_stage
                        },
                        ..self
                    }).done(ResultView::View(Outcome::Changed))
                }
            },
        }
    }

    /// Which contributing document is staged and showing, if one is.
    pub open spec fn showing(self) -> Option<usize> {
        match (self.open, self.active_stage) {
            (Some(document), Some(stage)) => document::document_of(document.staging, stage),
            _ => None,
        }
    }

    /// Pages of the staged document that is showing placed into the open one.
    pub open spec fn pages_inserted(self, pages: Seq<usize>, at: usize) -> After {
        match self.open {
            None => self.failed(nothing_open()),
            Some(_) => match self.showing() {
                None => self.failed("nothing is staged"@),
                Some(document) => self.edited(
                    PageEditView::Insert {
                        document,
                        pages: positions(pages),
                        at: (at - 1) as usize,
                    },
                ),
            },
        }
    }

    /// Pages picked out in the grid.
    pub open spec fn selected(self, pages: Seq<usize>) -> After {
        match self.open {
            None => self.failed(nothing_open()),
            Some(document) => {
                let wanted = SelectionView::set_to(document.order.order, positions(pages));
                if wanted == self.selection {
                    self.done(ResultView::Unchanged)
                } else {
                    (SessionView { selection: wanted, ..self }).done(
                        ResultView::View(Outcome::Changed),
                    )
                }
            },
        }
    }

    /// What is picked out in a staged document.
    pub open spec fn staged_selection(self, stage: usize) -> SelectionView {
        if self.staged_selections.contains_key(stage) {
            self.staged_selections[stage]
        } else {
            SelectionView::none()
        }
    }

    /// The stage that a command means, or what is wrong with it.
    pub open spec fn stage_named(self, staged: StagedNameView) -> Result<usize, Seq<char>> {
        match self.open {
            None => Err(nothing_open()),
            Some(document) => match staged {
                StagedNameView::Stage(stage) => if document::document_of(
                    document.staging,
                    stage,
                ) is Some {
                    Ok(stage)
                } else {
                    Err(not_staged(stage))
                },
                StagedNameView::Path(path) => if document.staging.len() == 0 {
                    Err("nothing is staged"@)
                } else {
                    match document::staged_from(document.staging, document.files, path) {
                        Some(stage) => Ok(stage),
                        None => Err(path + " is not what is staged"@),
                    }
                },
            },
        }
    }

    /// Pages picked out in a staged document.
    pub open spec fn staged_selected(self, staged: StagedNameView, pages: Seq<usize>) -> After {
        match self.stage_named(staged) {
            Err(message) => self.failed(message),
            Ok(stage) => match self.open->0.staged_sources(stage) {
                None => self.failed(not_staged(stage)),
                Some(shown) => {
                    let wanted = SelectionView::set_to(shown, positions(pages));
                    if wanted == self.staged_selection(stage) {
                        self.done(ResultView::Unchanged)
                    } else {
                        (SessionView {
                            staged_selections: self.staged_selections.insert(stage, wanted),
                            ..self
                        }).done(ResultView::View(Outcome::Changed))
                    }
                },
            },
        }
    }

    /// Another staged document showing.
    pub open spec fn activated(self, stage: usize) -> After {
        match self.stage_named(StagedNameView::Stage(stage)) {
            Err(message) => self.failed(message),
            Ok(_) => if self.active_stage == Some(stage) {
                self.done(ResultView::Unchanged)
            } else {
                (SessionView { active_stage: Some(stage), ..self }).done(
                    ResultView::View(Outcome::Changed),
                )
            },
        }
    }

    /// The grid narrowed to a query. Pages hidden by it must not stay picked out: deleting
    /// acts on what is.
    pub open spec fn filtered(self, query: Seq<char>) -> After {
        if self.page_filter == query {
            self.done(ResultView::Unchanged)
        } else {
            (SessionView { page_filter: query, selection: SelectionView::none(), ..self }).done(
                ResultView::View(Outcome::Changed),
            )
        }
    }

    /// The page grid shown or hidden. Hiding it forgets what was picked out in it.
    pub open spec fn thumbnails_set(self, visible: bool) -> After {
        if self.thumbnails == visible {
            self.done(ResultView::Unchanged)
        } else {
            (SessionView {
                thumbnails: visible,
                selection: if visible {
                    self.selection
                } else {
                    SelectionView::none()
                },
                ..self
            }).done(ResultView::View(Outcome::Changed))
        }
    }

    /// What a click in the grid does, changed. Leaving the mode that picks pages out forgets
    /// which were, and so do the staged documents unless they are to be merged.
    pub open spec fn grid_mode_set(self, mode: GridMode) -> After {
        if self.grid_mode == mode {
            self.done(ResultView::Unchanged)
        } else {
            (SessionView {
                grid_mode: mode,
                selection: if mode == GridMode::Reorganize {
                    self.selection
                } else {
                    SelectionView::none()
                },
                staged_selections: if mode == GridMode::Merge {
                    self.staged_selections
                } else {
                    Map::empty()
                },
                ..self
            }).done(ResultView::View(Outcome::Changed))
        }
    }

    /// The document closed.
    pub open spec fn closed(self) -> After {
        After {
            session: SessionView { open: None, ..self },
            step: StepView::Done { result: ResultView::Closed, effect: EffectView::ShowNothing },
        }
    }

    /// The window told to close for real.
    pub open spec fn quit(self) -> After {
        After {
            session: SessionView { quitting: true, ..self },
            step: StepView::Done { result: ResultView::Quitting, effect: EffectView::CloseWindow },
        }
    }

    /// Something held back carried out after all.
    pub open spec fn intended(self, intent: IntentView, reported: bool) -> After {
        match intent {
            IntentView::Quit => self.quit(),
            IntentView::CloseDocument => self.closed(),
            IntentView::Open(path) => After {
                session: self,
                step: StepView::Read(ReadView { path, purpose: Purpose::Open, reported }),
            },
        }
    }

    /// A question answered. With no question up nothing happens. To save first is to wait for
    /// the save, unless there is nothing left to write; where a save cannot start the question
    /// stays up, because going ahead would throw away what was to be kept.
    pub open spec fn answered(self, choice: Answer, saving: bool) -> After {
        match self.guard {
            Some(GuardView::Asking(intent)) => {
                let settled = SessionView { guard: None, ..self };
                match choice {
                    Answer::Cancel => settled.done(ResultView::Cancelled),
                    Answer::Discard => settled.intended(intent, true),
                    Answer::Save => match self.open {
                        None => settled.intended(intent, true),
                        Some(document) => {
                            let begun = settled.save_begun(
                                document.primary_path(),
                                Overwrite::Allow,
                                saving,
                            );
                            match begun.step {
                                StepView::Done { result: ResultView::Unchanged, .. } =>
                                    settled.intended(intent, true),
                                StepView::Done { result: ResultView::Saving, .. } => After {
                                    session: SessionView {
                                        guard: Some(GuardView::Saving(intent)),
                                        ..self
                                    },
                                    step: begun.step,
                                },
                                _ => After { session: self, step: begun.step },
                            }
                        },
                    },
                }
            },
            _ => self.done(ResultView::Unchanged),
        }
    }

    /// A file asked for, which only makes sense with a document open.
    pub open spec fn asked_to_read(self, path: Seq<char>, purpose: Purpose) -> After {
        if self.open is None {
            self.failed(nothing_open())
        } else {
            After {
                session: self,
                step: StepView::Read(ReadView { path, purpose, reported: true }),
            }
        }
    }

    /// A command carried out, as far as that can be done here.
    pub open spec fn carried_out(self, command: CommandView, saving: bool) -> After {
        match command {
            CommandView::View(command) => After { session: self, step: StepView::Apply(command) },
            CommandView::Open { path } => self.intended(IntentView::Open(path), true),
            CommandView::Close => self.closed(),
            CommandView::InsertFile { path } => self.asked_to_read(path, Purpose::Insert),
            CommandView::StageDocument { path } => self.asked_to_read(path, Purpose::Stage),
            CommandView::ClearStaging => self.staging_cleared(),
            CommandView::InsertPages { pages, at } => self.pages_inserted(pages, at),
            CommandView::SetStagedSelection { staged, pages } => self.staged_selected(
                staged,
                pages,
            ),
            CommandView::SetActiveStage { stage } => self.activated(stage),
            CommandView::Capture { path } => After {
                session: self,
                step: StepView::Done {
                    result: ResultView::CaptureStarted,
                    effect: EffectView::Capture { path },
                },
            },
            CommandView::MovePage { from, to } => self.edited(
                PageEditView::Move { positions: positions(seq![from]), to: (to - 1) as usize },
            ),
            CommandView::MovePages { from, to } => self.edited(
                PageEditView::Move { positions: positions(from), to: (to - 1) as usize },
            ),
            CommandView::DeletePage { page } => self.edited(
                PageEditView::Remove { positions: positions(seq![page]) },
            ),
            CommandView::DeletePages { pages } => self.edited(
                PageEditView::Remove { positions: positions(pages) },
            ),
            CommandView::SetPageFilter { query } => self.filtered(query),
            CommandView::SetSelection { pages } => self.selected(pages),
            CommandView::Undo => self.edited(PageEditView::Undo),
            CommandView::Save => match self.open {
                None => self.failed(nothing_open()),
                Some(document) => self.save_begun(
                    document.primary_path(),
                    Overwrite::Allow,
                    saving,
                ),
            },
            CommandView::SaveAs { path } => self.save_begun(path, Overwrite::Refuse, saving),
            CommandView::SetThumbnails { visible } => self.thumbnails_set(visible),
            CommandView::SetGridMode { mode } => self.grid_mode_set(mode),
            CommandView::Answer { choice } => self.answered(choice, saving),
            CommandView::Quit => self.quit(),
        }
    }

    /// Whether a command is held back: it would discard unsaved page changes, and the window
    /// is not closing anyway.
    pub open spec fn holds_back(self, command: CommandView) -> bool {
        self.unsaved() && !self.quitting && confirm::intent_in(command) is Some
    }

    /// A command dispatched. One that is held back raises a question, in place of any that was
    /// up; every other is carried out.
    pub open spec fn dispatched(self, command: CommandView, saving: bool) -> After {
        if self.holds_back(command) {
            (SessionView {
                guard: Some(GuardView::Asking(confirm::intent_in(command)->0)),
                ..self
            }).done(ResultView::NeedsAnswer)
        } else {
            self.carried_out(command, saving).noted()
        }
    }

    /// The pages of the staged document that is showing, if one is.
    pub open spec fn shown_staged(self) -> Option<(usize, Seq<Source>)> {
        match (self.open, self.active_stage) {
            (Some(document), Some(stage)) => match document.staged_sources(stage) {
                Some(shown) => Some((stage, shown)),
                None => None,
            },
            _ => None,
        }
    }

    /// A page clicked in the staged document that is showing.
    pub open spec fn staged_picked(self, position: usize, pick: Pick) -> SessionView {
        match self.shown_staged() {
            Some((stage, shown)) => SessionView {
                staged_selections: self.staged_selections.insert(
                    stage,
                    self.staged_selection(stage).picked(shown, position, pick),
                ),
                ..self
            },
            None => self,
        }
    }

    /// A box drawn around pages of the staged document that is showing.
    pub open spec fn staged_marquee(self, covered: Seq<usize>) -> SessionView {
        match self.shown_staged() {
            Some((stage, shown)) => SessionView {
                staged_selections: self.staged_selections.insert(
                    stage,
                    SelectionView::set_to(shown, covered),
                ),
                ..self
            },
            None => self,
        }
    }

    /// A file that was asked for read, or not. A document without pages cannot be staged.
    pub open spec fn read(self, read: ReadView, outcome: Result<usize, Seq<char>>) -> After {
        match outcome {
            Err(message) => self.failed(message),
            Ok(page_count) => match read.purpose {
                Purpose::Open => After {
                    session: SessionView {
                        open: Some(DocumentView::fresh(read.path, page_count)),
                        ..self
                    },
                    step: StepView::Done {
                        result: ResultView::Opened,
                        effect: EffectView::ShowDocument { path: read.path, pages: page_count },
                    },
                },
                Purpose::Insert => match self.open {
                    None => self.failed(nothing_open()),
                    Some(document) => {
                        let known = document.with_pages_of(read.path, page_count);
                        let session = SessionView { open: Some(known), ..self };
                        if page_count == 0 {
                            session.done(ResultView::Unchanged)
                        } else {
                            After {
                                session,
                                step: StepView::Done {
                                    result: ResultView::Edited,
                                    effect: EffectView::Relayout { pages: known.order.order.len() },
                                },
                            }
                        }
                    },
                },
                Purpose::Stage => if page_count == 0 {
                    self.failed(read.path + " has no pages"@)
                } else {
                    match self.open {
                        None => self.failed(nothing_open()),
                        Some(document) => (SessionView {
                            open: Some(document.with_staged(read.path, page_count)),
                            active_stage: Some(document.next_stage),
                            ..self
                        }).done(ResultView::View(Outcome::Changed)),
                    }
                },
            },
        }
    }

    /// A file that was asked for read, or not, with what that means for the last error.
    pub open spec fn file_read(self, read: ReadView, outcome: Result<usize, Seq<char>>) -> After {
        if read.reported {
            self.read(read, outcome).noted()
        } else {
            self.read(read, outcome)
        }
    }

    /// A save that has finished. The file is the document's own from then on, and holds what
    /// the write saw rather than what is shown now. Whatever waited for the save goes ahead if
    /// it succeeded; if it failed the question comes back. A question that is still being asked
    /// waits for its answer either way.
    pub open spec fn save_finished(
        self,
        path: Seq<char>,
        written: Seq<Source>,
        error: Option<Seq<char>>,
    ) -> (SessionView, Option<StepView>) {
        match error {
            None => {
                let session = SessionView {
                    open: match self.open {
                        Some(document) => Some(document.saved_to(path, written)),
                        None => None,
                    },
                    guard: match self.guard {
                        Some(GuardView::Saving(_)) => None,
                        other => other,
                    },
                    last_error: None,
                    ..self
                };
                match self.guard {
                    Some(GuardView::Saving(intent)) => {
                        let after = session.intended(intent, false);
                        (after.session, Some(after.step))
                    },
                    _ => (session, None),
                }
            },
            Some(error) => (
                SessionView {
                    last_error: Some(error),
                    guard: match self.guard {
                        Some(GuardView::Saving(intent)) => Some(GuardView::Asking(intent)),
                        other => other,
                    },
                    ..self
                },
                None,
            ),
        }
    }
}

impl After {
    /// With the last error kept in step: a failure is reported, and a document opened or closed
    /// makes what was reported before pointless.
    pub open spec fn noted(self) -> After {
        match self.step {
            StepView::Done { result: ResultView::Failed(message), .. } => After {
                session: SessionView { last_error: Some(message), ..self.session },
                ..self
            },
            StepView::Done { result: ResultView::Opened, .. } => After {
                session: SessionView { last_error: None, ..self.session },
                ..self
            },
            StepView::Done { result: ResultView::Closed, .. } => After {
                session: SessionView { last_error: None, ..self.session },
                ..self
            },
            _ => self,
        }
    }
}

/// What is open, and how it is being looked at.
#[derive(Debug)]
pub struct Session {
    open: Option<OpenDocument>,
    thumbnails: bool,
    grid_mode: GridMode,
    selection: Selection,
    staged_selections: HashMap<usize, Selection>,
    active_stage: Option<StageId>,
    page_filter: String,
    guard: Option<Guard>,
    quitting: bool,
    last_error: Option<String>,
}

impl View for Session {
    type V = SessionView;

    closed spec fn view(&self) -> SessionView {
        SessionView {
            open: match self.open {
                Some(document) => Some(document@),
                None => None,
            },
            thumbnails: self.thumbnails,
            grid_mode: self.grid_mode,
            selection: self.selection@,
            staged_selections: self.staged_selections@.map_values(
                |selection: Selection| selection@,
            ),
            active_stage: match self.active_stage {
                Some(stage) => Some(stage.spec_get()),
                None => None,
            },
            page_filter: self.page_filter@,
            guard: match self.guard {
                Some(guard) => Some(guard@),
                None => None,
            },
            quitting: self.quitting,
            last_error: match self.last_error {
                Some(message) => Some(message@),
                None => None,
            },
        }
    }
}

/// Done, with nothing left to do outside.
fn done(result: DispatchResult) -> (step: Step)
    ensures
        step@ == (StepView::Done { result: result@, effect: EffectView::Nothing }),
{
    Step::Done { result, effect: Effect::Nothing }
}

/// Something that is only looked at changed.
fn changed() -> (step: Step)
    ensures
        step@ == (StepView::Done {
            result: ResultView::View(Outcome::Changed),
            effect: EffectView::Nothing,
        }),
{
    done(DispatchResult::View(Outcome::Changed))
}

/// Refused, with a reason.
fn failed(message: &str) -> (step: Step)
    ensures
        step@ == (StepView::Done {
            result: ResultView::Failed(message@),
            effect: EffectView::Nothing,
        }),
{
    done(DispatchResult::Failed(String::from_str(message)))
}

/// What is said of a stage that is not there.
fn say_not_staged(stage: StageId) -> (message: String)
    ensures
        message@ == not_staged(stage.spec_get()),
{
    let mut message = String::from_str("stage ");
    message.append(stage.label().as_str());
    message.append(" is not currently staged");
    message
}

/// The positions that pages name.
fn positions_in(pages: &[PageNumber]) -> (found: Vec<usize>)
    ensures
        found@ == positions(view::numbers(pages@)),
{
    let found = view::positions_of(pages);
    proof {
        assert(found@ =~= positions(view::numbers(pages@)));
    }
    found
}

/// The position that a page names, alone in a list.
fn position_in(page: PageNumber) -> (found: Vec<usize>)
    ensures
        found@ == positions(seq![page.spec_get()]),
{
    let mut found: Vec<usize> = Vec::new();
    found.push(page.index());
    proof {
        assert(found@ =~= positions(seq![page.spec_get()]));
    }
    found
}

impl Session {
    /// Nothing is open, and nothing has been asked for.
    pub fn new() -> (session: Session)
        ensures
            session@ == SessionView::empty(),
            session@.wf(),
    {
        let session = Session {
            open: None,
            thumbnails: false,
            grid_mode: GridMode::initial(),
            selection: Selection::default(),
            staged_selections: HashMap::new(),
            active_stage: None,
            page_filter: String::new(),
            guard: None,
            quitting: false,
            last_error: None,
        };
        proof {
            assert(session@.staged_selections =~= Map::empty());
            assert(session@ =~= SessionView::empty());
        }
        session
    }

    /// A document open from the start.
    pub fn with_document(path: String, page_count: usize) -> (session: Session)
        ensures
            session@ == (SessionView {
                open: Some(DocumentView::fresh(path@, page_count)),
                ..SessionView::empty()
            }),
            session@.wf(),
    {
        let mut session = Session::new();
        session.open = Some(OpenDocument::new(path, page_count));
        session
    }

    /// What is open, if anything.
    pub fn open(&self) -> (open: Option<&OpenDocument>)
        ensures
            match open {
                Some(document) => self@.open == Some(document@),
                None => self@.open is None,
            },
    {
        match &self.open {
            Some(document) => Some(document),
            None => None,
        }
    }

    /// Whether the page grid is showing.
    pub fn thumbnails(&self) -> (thumbnails: bool)
        ensures
            thumbnails == self@.thumbnails,
    {
        self.thumbnails
    }

    /// What a click in the grid does.
    pub fn grid_mode(&self) -> (mode: GridMode)
        ensures
            mode == self@.grid_mode,
    {
        self.grid_mode
    }

    /// Pages picked out in the grid.
    pub fn selection(&self) -> (selection: &Selection)
        ensures
            selection@ == self@.selection,
    {
        &self.selection
    }

    /// Which staged document is showing.
    pub fn active_stage(&self) -> (stage: Option<StageId>)
        ensures
            match stage {
                Some(stage) => self@.active_stage == Some(stage.spec_get()),
                None => self@.active_stage is None,
            },
    {
        self.active_stage
    }

    /// What is typed in the grid's search box.
    pub fn page_filter(&self) -> (query: &str)
        ensures
            query@ == self@.page_filter,
    {
        self.page_filter.as_str()
    }

    /// Something held back because it would discard unsaved page changes.
    pub fn guard(&self) -> (guard: Option<&Guard>)
        ensures
            match guard {
                Some(guard) => self@.guard == Some(guard@),
                None => self@.guard is None,
            },
    {
        match &self.guard {
            Some(guard) => Some(guard),
            None => None,
        }
    }

    /// Whether the window has been told to close for real.
    pub fn quitting(&self) -> (quitting: bool)
        ensures
            quitting == self@.quitting,
    {
        self.quitting
    }

    /// Why the last command failed.
    pub fn last_error(&self) -> (message: Option<&str>)
        ensures
            match message {
                Some(message) => self@.last_error == Some(message@),
                None => self@.last_error is None,
            },
    {
        match &self.last_error {
            Some(message) => Some(message.as_str()),
            None => None,
        }
    }

    /// Whether the page order differs from the file it came from.
    pub fn unsaved_changes(&self) -> (unsaved: bool)
        ensures
            unsaved == self@.unsaved(),
    {
        match &self.open {
            Some(document) => !document.order().is_unedited(),
            None => false,
        }
    }

    /// Applies a page edit.
    fn edit(&mut self, edit: PageEdit) -> (step: Step)
        requires
            old(self)@.wf(),
        ensures
            final(self)@.wf(),
            (After { session: final(self)@, step: step@ }) == old(self)@.edited(edit@),
    {
        let mut open: Option<OpenDocument> = None;
        std::mem::swap(&mut open, &mut self.open);
        match open {
            None => failed("nothing is open"),
            Some(document) => {
                let mut document = document;
                let ghost before = document@;
                let edited = document.edit(&edit);
                let pages = document.order().len();
                proof {
                    if !edited {
                        assert(document@ =~= before);
                    }
                }
                self.open = Some(document);
                if edited {
                    Step::Done {
                        result: DispatchResult::Edited,
                        effect: Effect::Relayout { pages },
                    }
                } else {
                    done(DispatchResult::Unchanged)
                }
            },
        }
    }

    /// Asks for the document to be written, unless there is nothing to write or a save is
    /// running.
    fn begin_save(&self, destination: &str, overwrite: Overwrite, saving: bool) -> (step: Step)
        requires
            self@.wf(),
        ensures
            (After { session: self@, step: step@ }) == self@.save_begun(
                destination@,
                overwrite,
                saving,
            ),
    {
        match &self.open {
            None => failed("nothing is open"),
            Some(document) => if document.order().is_unedited() && text::same_text(
                destination,
                document.primary_path(),
            ) {
                done(DispatchResult::Unchanged)
            } else if saving {
                failed("a save is already running")
            } else {
                Step::Done {
                    result: DispatchResult::Saving,
                    effect: Effect::Save { destination: String::from_str(destination), overwrite },
                }
            },
        }
    }

    /// Writes the document over its own file.
    fn save(&self, saving: bool) -> (step: Step)
        requires
            self@.wf(),
        ensures
            self@.open is None ==> (After { session: self@, step: step@ }) == self@.failed(
                nothing_open(),
            ),
            self@.open matches Some(document) ==> (After { session: self@, step: step@ })
                == self@.save_begun(document.primary_path(), Overwrite::Allow, saving),
    {
        match &self.open {
            None => failed("nothing is open"),
            Some(document) => self.begin_save(document.primary_path(), Overwrite::Allow, saving),
        }
    }

    /// Puts away the staged document that is showing.
    fn clear_staging(&mut self) -> (step: Step)
        requires
            old(self)@.wf(),
        ensures
            final(self)@.wf(),
            (After { session: final(self)@, step: step@ }) == old(self)@.staging_cleared(),
    {
        match (&self.open, self.active_stage) {
            (None, _) => failed("nothing is open"),
            (Some(_), None) => done(DispatchResult::Unchanged),
            (Some(_), Some(stage)) => self.close_stage(stage),
        }
    }

    /// Puts away a staged document, whether or not it is the one showing.
    pub fn close_stage(&mut self, stage: StageId) -> (step: Step)
        requires
            old(self)@.wf(),
        ensures
            final(self)@.wf(),
            (After { session: final(self)@, step: step@ }) == old(self)@.stage_closed(
                stage.spec_get(),
            ),
    {
        let showing = match self.active_stage {
            Some(active) => active.get() == stage.get(),
            None => false,
        };
        let mut open: Option<OpenDocument> = None;
        std::mem::swap(&mut open, &mut self.open);
        match open {
            None => failed("nothing is open"),
            Some(document) => {
                let mut document = document;
                if !document.unstage(stage) {
                    self.open = Some(document);
                    return done(DispatchResult::Unchanged);
                }
                if showing {
                    self.active_stage = document.latest();
                }
                self.open = Some(document);
                let _ = self.staged_selections.remove(&stage.get());
                proof {
                    assert(self@.staged_selections =~= old(self)@.staged_selections.remove(
                        stage.spec_get(),
                    ));
                }
                changed()
            },
        }
    }

    /// Places pages of the staged document that is showing.
    fn insert_pages(&mut self, pages: &[PageNumber], at: PageNumber) -> (step: Step)
        requires
            old(self)@.wf(),
        ensures
            final(self)@.wf(),
            (After { session: final(self)@, step: step@ }) == old(self)@.pages_inserted(
                view::numbers(pages@),
                at.spec_get(),
            ),
    {
        let document = match &self.open {
            None => {
                return failed("nothing is open");
            },
            Some(document) => match self.active_stage {
                Some(stage) => document.staged_document(stage),
                None => None,
            },
        };
        match document {
            None => failed("nothing is staged"),
            Some(document) => self.edit(
                PageEdit::Insert { document, pages: positions_in(pages), at: at.index() },
            ),
        }
    }

    /// Picks pages out in the grid.
    fn select(&mut self, pages: &[PageNumber]) -> (step: Step)
        requires
            old(self)@.wf(),
        ensures
            final(self)@.wf(),
            (After { session: final(self)@, step: step@ }) == old(self)@.selected(
                view::numbers(pages@),
            ),
    {
        let wanted = match &self.open {
            None => {
                return failed("nothing is open");
            },
            Some(document) => {
                let mut wanted = self.selection.duplicate();
                wanted.set_positions(document.order(), positions_in(pages).as_slice());
                wanted
            },
        };
        if wanted.same_as(&self.selection) {
            return done(DispatchResult::Unchanged);
        }
        self.selection = wanted;
        changed()
    }

    /// The stage that a command means, or what is wrong with it.
    fn stage_by_name(&self, staged: &StagedName) -> (stage: Result<StageId, String>)
        requires
            self@.wf(),
        ensures
            match stage {
                Ok(stage) => self@.stage_named(staged@) == Ok::<usize, Seq<char>>(
                    stage.spec_get(),
                ),
                Err(message) => self@.stage_named(staged@) == Err::<usize, Seq<char>>(message@),
            },
    {
        let document = match &self.open {
            None => {
                return Err(String::from_str("nothing is open"));
            },
            Some(document) => document,
        };
        match staged {
            StagedName::Stage(stage) => match document.staged_document(*stage) {
                Some(_) => Ok(*stage),
                None => Err(say_not_staged(*stage)),
            },
            StagedName::Path(path) => if document.stages() == 0 {
                Err(String::from_str("nothing is staged"))
            } else {
                match document.staged_from(path.as_str()) {
                    Some(stage) => Ok(stage),
                    None => Err(text::joined(path.as_str(), " is not what is staged")),
                }
            },
        }
    }

    /// What is picked out in a staged document.
    pub fn staged_selection(&self, stage: StageId) -> (selection: Selection)
        ensures
            selection@ == self@.staged_selection(stage.spec_get()),
    {
        match self.staged_selections.get(&stage.get()) {
            Some(selection) => selection.duplicate(),
            None => Selection::default(),
        }
    }

    /// Replaces what is picked out in a staged document.
    fn set_staged_selection(&mut self, stage: StageId, selection: Selection)
        ensures
            final(self)@ == (SessionView {
                staged_selections: old(self)@.staged_selections.insert(
                    stage.spec_get(),
                    selection@,
                ),
                ..old(self)@
            }),
    {
        let ghost wanted = selection@;
        let _ = self.staged_selections.insert(stage.get(), selection);
        proof {
            assert(self@.staged_selections =~= old(self)@.staged_selections.insert(
                stage.spec_get(),
                wanted,
            ));
        }
    }

    /// Picks pages out in a staged document.
    fn select_staged(&mut self, staged: &StagedName, pages: &[PageNumber]) -> (step: Step)
        requires
            old(self)@.wf(),
        ensures
            final(self)@.wf(),
            (After { session: final(self)@, step: step@ }) == old(self)@.staged_selected(
                staged@,
                view::numbers(pages@),
            ),
    {
        let stage = match self.stage_by_name(staged) {
            Ok(stage) => stage,
            Err(message) => {
                return failed(message.as_str());
            },
        };
        let shown = match &self.open {
            Some(document) => document.staged_sources(stage),
            None => None,
        };
        let shown = match shown {
            Some(shown) => shown,
            None => {
                return failed(say_not_staged(stage).as_str());
            },
        };
        let current = self.staged_selection(stage);
        let mut wanted = current.duplicate();
        wanted.set_among(shown.as_slice(), positions_in(pages).as_slice());
        if wanted.same_as(&current) {
            return done(DispatchResult::Unchanged);
        }
        self.set_staged_selection(stage, wanted);
        changed()
    }

    /// Shows another staged document.
    fn activate(&mut self, stage: StageId) -> (step: Step)
        requires
            old(self)@.wf(),
        ensures
            final(self)@.wf(),
            (After { session: final(self)@, step: step@ }) == old(self)@.activated(
                stage.spec_get(),
            ),
    {
        match self.stage_by_name(&StagedName::Stage(stage)) {
            Ok(_) => {},
            Err(message) => {
                return failed(message.as_str());
            },
        }
        let showing = match self.active_stage {
            Some(active) => active.get() == stage.get(),
            None => false,
        };
        if showing {
            return done(DispatchResult::Unchanged);
        }
        self.active_stage = Some(stage);
        changed()
    }

    /// Narrows the grid to a query.
    fn filter(&mut self, query: &str) -> (step: Step)
        requires
            old(self)@.wf(),
        ensures
            final(self)@.wf(),
            (After { session: final(self)@, step: step@ }) == old(self)@.filtered(query@),
    {
        if text::same_text(self.page_filter.as_str(), query) {
            return done(DispatchResult::Unchanged);
        }
        self.page_filter = String::from_str(query);
        self.selection.clear();
        changed()
    }

    /// Shows or hides the page grid.
    fn set_thumbnails(&mut self, visible: bool) -> (step: Step)
        requires
            old(self)@.wf(),
        ensures
            final(self)@.wf(),
            (After { session: final(self)@, step: step@ }) == old(self)@.thumbnails_set(visible),
    {
        if self.thumbnails == visible {
            return done(DispatchResult::Unchanged);
        }
        self.thumbnails = visible;
        if !visible {
            self.selection.clear();
        }
        changed()
    }

    /// Changes what a click in the grid does.
    fn set_grid_mode(&mut self, mode: GridMode) -> (step: Step)
        requires
            old(self)@.wf(),
        ensures
            final(self)@.wf(),
            (After { session: final(self)@, step: step@ }) == old(self)@.grid_mode_set(mode),
    {
        if self.grid_mode == mode {
            return done(DispatchResult::Unchanged);
        }
        self.grid_mode = mode;
        if mode != GridMode::Reorganize {
            self.selection.clear();
        }
        if mode != GridMode::Merge {
            self.staged_selections = HashMap::new();
            proof {
                assert(self@.staged_selections =~= Map::empty());
            }
        }
        changed()
    }

    /// Carries out something that was held back.
    fn carry_out_intent(&mut self, intent: Intent, reported: bool) -> (step: Step)
        requires
            old(self)@.wf(),
        ensures
            final(self)@.wf(),
            (After { session: final(self)@, step: step@ }) == old(self)@.intended(
                intent@,
                reported,
            ),
    {
        match intent {
            Intent::Quit => {
                self.quitting = true;
                Step::Done { result: DispatchResult::Quitting, effect: Effect::CloseWindow }
            },
            Intent::CloseDocument => {
                self.open = None;
                Step::Done { result: DispatchResult::Closed, effect: Effect::ShowNothing }
            },
            Intent::Open(path) => Step::Read(
                ReadRequest { path, purpose: Purpose::Open, reported },
            ),
        }
    }

    /// Answers the question that is up.
    fn answer(&mut self, choice: Answer, saving: bool) -> (step: Step)
        requires
            old(self)@.wf(),
        ensures
            final(self)@.wf(),
            (After { session: final(self)@, step: step@ }) == old(self)@.answered(choice, saving),
    {
        let mut guard: Option<Guard> = None;
        std::mem::swap(&mut guard, &mut self.guard);
        let intent = match guard {
            Some(Guard::Asking(intent)) => intent,
            waiting => {
                self.guard = waiting;
                return done(DispatchResult::Unchanged);
            },
        };
        match choice {
            Answer::Cancel => done(DispatchResult::Cancelled),
            Answer::Discard => self.carry_out_intent(intent, true),
            Answer::Save => {
                if self.open.is_none() {
                    return self.carry_out_intent(intent, true);
                }
                match self.save(saving) {
                    Step::Done { result: DispatchResult::Unchanged, effect: _ } =>
                        self.carry_out_intent(intent, true),
                    Step::Done { result: DispatchResult::Saving, effect } => {
                        self.guard = Some(Guard::Saving(intent));
                        Step::Done { result: DispatchResult::Saving, effect }
                    },
                    refused => {
                        self.guard = Some(Guard::Asking(intent));
                        refused
                    },
                }
            },
        }
    }

    /// Asks for a file, which only makes sense with a document open.
    fn ask_to_read(&self, path: String, purpose: Purpose) -> (step: Step)
        ensures
            (After { session: self@, step: step@ }) == self@.asked_to_read(path@, purpose),
    {
        if self.open.is_none() {
            failed("nothing is open")
        } else {
            Step::Read(ReadRequest { path, purpose, reported: true })
        }
    }

    /// Carries out a command, as far as that can be done here.
    fn carry_out(&mut self, command: Command, saving: bool) -> (step: Step)
        requires
            old(self)@.wf(),
        ensures
            final(self)@.wf(),
            (After { session: final(self)@, step: step@ }) == old(self)@.carried_out(
                command@,
                saving,
            ),
    {
        match command {
            Command::View(asked) => Step::Apply(asked),
            Command::Open { path } => self.carry_out_intent(Intent::Open(path), true),
            Command::Close => self.carry_out_intent(Intent::CloseDocument, true),
            Command::InsertFile { path } => self.ask_to_read(path, Purpose::Insert),
            Command::StageDocument { path } => self.ask_to_read(path, Purpose::Stage),
            Command::ClearStaging => self.clear_staging(),
            Command::InsertPages { pages, at } => self.insert_pages(pages.as_slice(), at),
            Command::SetStagedSelection { staged, pages } => self.select_staged(
                &staged,
                pages.as_slice(),
            ),
            Command::SetActiveStage { stage } => self.activate(stage),
            Command::Capture { path } => Step::Done {
                result: DispatchResult::CaptureStarted,
                effect: Effect::Capture { path },
            },
            Command::MovePage { from, to } => self.edit(
                PageEdit::Move { positions: position_in(from), to: to.index() },
            ),
            Command::MovePages { from, to } => self.edit(
                PageEdit::Move { positions: positions_in(from.as_slice()), to: to.index() },
            ),
            Command::DeletePage { page } => self.edit(
                PageEdit::Remove { positions: position_in(page) },
            ),
            Command::DeletePages { pages } => self.edit(
                PageEdit::Remove { positions: positions_in(pages.as_slice()) },
            ),
            Command::SetPageFilter { query } => self.filter(query.as_str()),
            Command::SetSelection { pages } => self.select(pages.as_slice()),
            Command::Undo => self.edit(PageEdit::Undo),
            Command::Save => self.save(saving),
            Command::SaveAs { path } => self.begin_save(path.as_str(), Overwrite::Refuse, saving),
            Command::SetThumbnails { visible } => self.set_thumbnails(visible),
            Command::SetGridMode { mode } => self.set_grid_mode(mode),
            Command::Answer { choice } => self.answer(choice, saving),
            Command::Quit => self.carry_out_intent(Intent::Quit, true),
        }
    }

    /// Keeps the last error in step with a result.
    fn note(&mut self, step: &Step)
        requires
            old(self)@.wf(),
        ensures
            final(self)@.wf(),
            (After { session: final(self)@, step: step@ }) == (After {
                session: old(self)@,
                step: step@,
            }).noted(),
    {
        match step {
            Step::Done { result: DispatchResult::Failed(message), .. } => {
                self.last_error = Some(String::from_str(message.as_str()));
            },
            Step::Done { result: DispatchResult::Opened, .. } => {
                self.last_error = None;
            },
            Step::Done { result: DispatchResult::Closed, .. } => {
                self.last_error = None;
            },
            _ => {},
        }
    }

    /// Carries out a command, or holds it back and asks. `saving` says whether a save is
    /// running.
    ///
    /// Every producer comes through here, so one check covers the window's close button, the
    /// keyboard, the toolbar, a dropped file and an outside process.
    pub fn dispatch(&mut self, command: Command, saving: bool) -> (step: Step)
        requires
            old(self)@.wf(),
        ensures
            final(self)@.wf(),
            (After { session: final(self)@, step: step@ }) == old(self)@.dispatched(
                command@,
                saving,
            ),
    {
        if self.unsaved_changes() && !self.quitting {
            if let Some(intent) = confirm::intent_of(&command) {
                self.guard = Some(Guard::Asking(intent));
                return done(DispatchResult::NeedsAnswer);
            }
        }
        let step = self.carry_out(command, saving);
        self.note(&step);
        step
    }

    /// Goes on with a command once the file it asked for has been read: it has so many pages,
    /// or could not be read for a reason.
    pub fn file_read(&mut self, read: ReadRequest, outcome: Result<usize, String>) -> (step: Step)
        requires
            old(self)@.wf(),
        ensures
            final(self)@.wf(),
            (After { session: final(self)@, step: step@ }) == old(self)@.file_read(
                read@,
                match outcome {
                    Ok(page_count) => Ok(page_count),
                    Err(message) => Err(message@),
                },
            ),
    {
        let reported = read.reported;
        let step = self.go_on(read, outcome);
        if reported {
            self.note(&step);
        }
        step
    }

    /// Goes on with a command once its file has been read.
    fn go_on(&mut self, read: ReadRequest, outcome: Result<usize, String>) -> (step: Step)
        requires
            old(self)@.wf(),
        ensures
            final(self)@.wf(),
            (After { session: final(self)@, step: step@ }) == old(self)@.read(
                read@,
                match outcome {
                    Ok(page_count) => Ok(page_count),
                    Err(message) => Err(message@),
                },
            ),
    {
        let page_count = match outcome {
            Ok(page_count) => page_count,
            Err(message) => {
                return failed(message.as_str());
            },
        };
        if let Purpose::Open = read.purpose {
            let path = String::from_str(read.path.as_str());
            self.open = Some(OpenDocument::new(read.path, page_count));
            return Step::Done {
                result: DispatchResult::Opened,
                effect: Effect::ShowDocument { path, pages: page_count },
            };
        }
        if let Purpose::Stage = read.purpose {
            if page_count == 0 {
                return failed(text::joined(read.path.as_str(), " has no pages").as_str());
            }
        }
        let mut open: Option<OpenDocument> = None;
        std::mem::swap(&mut open, &mut self.open);
        let mut document = match open {
            Some(document) => document,
            None => {
                return failed("nothing is open");
            },
        };
        if let Purpose::Stage = read.purpose {
            self.active_stage = Some(document.stage(read.path, page_count));
            self.open = Some(document);
            return changed();
        }
        let edited = document.insert_file(read.path, page_count);
        let pages = document.order().len();
        self.open = Some(document);
        if edited {
            Step::Done { result: DispatchResult::Edited, effect: Effect::Relayout { pages } }
        } else {
            done(DispatchResult::Unchanged)
        }
    }

    /// The staged document that is showing and its pages, if one is.
    fn shown_staged(&self) -> (shown: Option<(StageId, Vec<Source>)>)
        requires
            self@.wf(),
        ensures
            match shown {
                Some((stage, shown)) => self@.shown_staged() == Some((stage.spec_get(), shown@)),
                None => self@.shown_staged() is None,
            },
    {
        match (&self.open, self.active_stage) {
            (Some(document), Some(stage)) => match document.staged_sources(stage) {
                Some(shown) => Some((stage, shown)),
                None => None,
            },
            _ => None,
        }
    }

    /// Applies a click on a page of the staged document that is showing.
    pub fn pick_staged(&mut self, position: usize, pick: Pick)
        requires
            old(self)@.wf(),
        ensures
            final(self)@.wf(),
            final(self)@ == old(self)@.staged_picked(position, pick),
    {
        if let Some((stage, shown)) = self.shown_staged() {
            let mut wanted = self.staged_selection(stage);
            wanted.pick_among(shown.as_slice(), position, pick);
            self.set_staged_selection(stage, wanted);
        }
    }

    /// Picks out exactly the pages of the staged document that is showing which a box covers.
    pub fn cover_staged(&mut self, covered: &[usize])
        requires
            old(self)@.wf(),
        ensures
            final(self)@.wf(),
            final(self)@ == old(self)@.staged_marquee(covered@),
    {
        if let Some((stage, shown)) = self.shown_staged() {
            let mut wanted = self.staged_selection(stage);
            wanted.set_among(shown.as_slice(), covered);
            self.set_staged_selection(stage, wanted);
        }
    }

    /// Reports why a dropped file was refused. Nothing became a command, and yet it has to be
    /// seen.
    pub fn refuse(&mut self, reason: &str)
        requires
            old(self)@.wf(),
        ensures
            final(self)@.wf(),
            final(self)@ == (SessionView { last_error: Some(reason@), ..old(self)@ }),
    {
        self.last_error = Some(String::from_str(reason));
    }

    /// Takes in a save that has finished. Reports how to go on with whatever waited for it.
    pub fn save_finished(&mut self, saved: Saved) -> (step: Option<Step>)
        requires
            old(self)@.wf(),
        ensures
            final(self)@.wf(),
            ({
                let finished = old(self)@.save_finished(
                    saved.path@,
                    saved.written@,
                    match saved.error {
                        Some(error) => Some(error@),
                        None => None,
                    },
                );
                &&& final(self)@ == finished.0
                &&& match step {
                    Some(step) => finished.1 == Some(step@),
                    None => finished.1 is None,
                }
            }),
    {
        let mut guard: Option<Guard> = None;
        std::mem::swap(&mut guard, &mut self.guard);
        match saved.error {
            None => {
                self.last_error = None;
                let mut open: Option<OpenDocument> = None;
                std::mem::swap(&mut open, &mut self.open);
                if let Some(document) = open {
                    let mut document = document;
                    document.mark_saved(saved.path, saved.written.as_slice());
                    self.open = Some(document);
                }
                match guard {
                    Some(Guard::Saving(intent)) => Some(self.carry_out_intent(intent, false)),
                    other => {
                        self.guard = other;
                        None
                    },
                }
            },
            Some(error) => {
                self.last_error = Some(error);
                self.guard = match guard {
                    Some(Guard::Saving(intent)) => Some(Guard::Asking(intent)),
                    other => other,
                };
                None
            },
        }
    }
}

} // verus!
