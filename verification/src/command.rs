//! Everything that can be asked of the program.
//!
//! A key press, a toolbar click and a message from an outside process all produce one of
//! these, and carrying one out is the only way to change anything.

use vstd::prelude::*;

use crate::confirm::Answer;
use crate::grid::GridMode;
use crate::stage::{StageId, StagedName, StagedNameView};
use crate::view;
use crate::view::{PageNumber, Real, ScrollMode, ViewCommand, ZoomTarget};

verus! {

/// Anything an operator can ask of the program.
#[derive(Debug, Clone, PartialEq, Eq)]
pub enum Command {
    /// Change what the view shows.
    View(ViewCommand),
    /// Open a PDF, replacing whatever is open.
    Open { path: String },
    /// Close the open document, leaving an empty window.
    Close,
    /// Add every page of another PDF to the end of the open document.
    InsertFile { path: String },
    /// Open another PDF beside the open document, to place pages from.
    StageDocument { path: String },
    /// Put away the staged document that is showing.
    ClearStaging,
    /// Place pages of the staged document that is showing into the open one, so that the
    /// block starts at `at`.
    InsertPages { pages: Vec<PageNumber>, at: PageNumber },
    /// Pick out pages of a staged document, replacing whatever was picked in it before.
    SetStagedSelection { staged: StagedName, pages: Vec<PageNumber> },
    /// Show another one of the staged documents.
    SetActiveStage { stage: StageId },
    /// Write the window's contents to a PNG, once nothing is left to draw.
    Capture { path: String },
    /// Move a page to a different position.
    MovePage { from: PageNumber, to: PageNumber },
    /// Move several pages at once, so that the group ends up starting at `to`.
    MovePages { from: Vec<PageNumber>, to: PageNumber },
    /// Remove a page from the document. Refused for the last one.
    DeletePage { page: PageNumber },
    /// Remove several pages at once. Refused if it would empty the document.
    DeletePages { pages: Vec<PageNumber> },
    /// Narrow the page grid to the pages that a query names; an empty one shows them all.
    SetPageFilter { query: String },
    /// Pick out pages in the grid, replacing whatever was picked before.
    SetSelection { pages: Vec<PageNumber> },
    /// Undo the last page edit.
    Undo,
    /// Write the edited document over the file it came from.
    Save,
    /// Write the edited document to a new file, refusing to replace one.
    SaveAs { path: String },
    /// Show or hide the page grid.
    SetThumbnails { visible: bool },
    /// Choose what clicking a page in the grid does.
    SetGridMode { mode: GridMode },
    /// Answer the question raised when something would discard unsaved page changes.
    Answer { choice: Answer },
    /// Close the window and exit.
    Quit,
}

/// A command, by its texts and numbers.
#[verifier::ext_equal]
pub enum CommandView {
    View(ViewCommand),
    Open { path: Seq<char> },
    Close,
    InsertFile { path: Seq<char> },
    StageDocument { path: Seq<char> },
    ClearStaging,
    InsertPages { pages: Seq<usize>, at: usize },
    SetStagedSelection { staged: StagedNameView, pages: Seq<usize> },
    SetActiveStage { stage: usize },
    Capture { path: Seq<char> },
    MovePage { from: usize, to: usize },
    MovePages { from: Seq<usize>, to: usize },
    DeletePage { page: usize },
    DeletePages { pages: Seq<usize> },
    SetPageFilter { query: Seq<char> },
    SetSelection { pages: Seq<usize> },
    Undo,
    Save,
    SaveAs { path: Seq<char> },
    SetThumbnails { visible: bool },
    SetGridMode { mode: GridMode },
    Answer { choice: Answer },
    Quit,
}

impl View for Command {
    type V = CommandView;

    open spec fn view(&self) -> CommandView {
        match self {
            Command::View(command) => CommandView::View(*command),
            Command::Open { path } => CommandView::Open { path: path@ },
            Command::Close => CommandView::Close,
            Command::InsertFile { path } => CommandView::InsertFile { path: path@ },
            Command::StageDocument { path } => CommandView::StageDocument { path: path@ },
            Command::ClearStaging => CommandView::ClearStaging,
            Command::InsertPages { pages, at } => CommandView::InsertPages {
                pages: view::numbers(pages@),
                at: at.spec_get(),
            },
            Command::SetStagedSelection { staged, pages } => CommandView::SetStagedSelection {
                staged: staged@,
                pages: view::numbers(pages@),
            },
            Command::SetActiveStage { stage } => CommandView::SetActiveStage {
                stage: stage.spec_get(),
            },
            Command::Capture { path } => CommandView::Capture { path: path@ },
            Command::MovePage { from, to } => CommandView::MovePage {
                from: from.spec_get(),
                to: to.spec_get(),
            },
            Command::MovePages { from, to } => CommandView::MovePages {
                from: view::numbers(from@),
                to: to.spec_get(),
            },
            Command::DeletePage { page } => CommandView::DeletePage { page: page.spec_get() },
            Command::DeletePages { pages } => CommandView::DeletePages {
                pages: view::numbers(pages@),
            },
            Command::SetPageFilter { query } => CommandView::SetPageFilter { query: query@ },
            Command::SetSelection { pages } => CommandView::SetSelection {
                pages: view::numbers(pages@),
            },
            Command::Undo => CommandView::Undo,
            Command::Save => CommandView::Save,
            Command::SaveAs { path } => CommandView::SaveAs { path: path@ },
            Command::SetThumbnails { visible } => CommandView::SetThumbnails { visible: *visible },
            Command::SetGridMode { mode } => CommandView::SetGridMode { mode: *mode },
            Command::Answer { choice } => CommandView::Answer { choice: *choice },
            Command::Quit => CommandView::Quit,
        }
    }
}

/// The wire names of the view commands, in the order they are listed.
pub open spec fn view_names() -> Seq<Seq<char>> {
    seq![
        "first_page"@,
        "previous_page"@,
        "next_page"@,
        "last_page"@,
        "go_to_page"@,
        "scroll_by"@,
        "scroll_to"@,
        "scroll_by_viewports"@,
        "pan_by"@,
        "set_zoom"@,
        "step_zoom"@,
        "set_scroll_mode"@,
    ]
}

/// The wire names of the other commands, in the order they are listed.
pub open spec fn shell_names() -> Seq<Seq<char>> {
    seq![
        "open"@,
        "close"@,
        "insert_file"@,
        "stage_document"@,
        "clear_staging"@,
        "insert_pages"@,
        "set_staged_selection"@,
        "set_active_stage"@,
        "capture"@,
        "move_page"@,
        "move_pages"@,
        "delete_page"@,
        "delete_pages"@,
        "set_page_filter"@,
        "set_selection"@,
        "undo"@,
        "save"@,
        "save_as"@,
        "set_thumbnails"@,
        "set_grid_mode"@,
        "answer"@,
        "quit"@,
    ]
}

/// The wire name of a command.
pub open spec fn name_in(command: Command) -> Seq<char> {
    match command {
        Command::View(view) => view.spec_name()@,
        Command::Open { .. } => "open"@,
        Command::Close => "close"@,
        Command::InsertFile { .. } => "insert_file"@,
        Command::StageDocument { .. } => "stage_document"@,
        Command::ClearStaging => "clear_staging"@,
        Command::InsertPages { .. } => "insert_pages"@,
        Command::SetStagedSelection { .. } => "set_staged_selection"@,
        Command::SetActiveStage { .. } => "set_active_stage"@,
        Command::Capture { .. } => "capture"@,
        Command::MovePage { .. } => "move_page"@,
        Command::MovePages { .. } => "move_pages"@,
        Command::DeletePage { .. } => "delete_page"@,
        Command::DeletePages { .. } => "delete_pages"@,
        Command::SetPageFilter { .. } => "set_page_filter"@,
        Command::SetSelection { .. } => "set_selection"@,
        Command::Undo => "undo"@,
        Command::Save => "save"@,
        Command::SaveAs { .. } => "save_as"@,
        Command::SetThumbnails { .. } => "set_thumbnails"@,
        Command::SetGridMode { .. } => "set_grid_mode"@,
        Command::Answer { .. } => "answer"@,
        Command::Quit => "quit"@,
    }
}

/// The texts of a list of names.
pub open spec fn texts(names: Seq<&'static str>) -> Seq<Seq<char>> {
    names.map_values(|name: &'static str| name@)
}

/// A list with one page number in it.
fn one_page() -> (pages: Vec<PageNumber>)
    ensures
        pages@.len() == 1,
{
    let mut pages: Vec<PageNumber> = Vec::new();
    pages.push(PageNumber::first());
    pages
}

impl ViewCommand {
    /// One of each view command, for the reference list. Only which one it is matters; the
    /// arguments stand for any.
    pub fn every() -> (commands: Vec<ViewCommand>)
        ensures
            commands@.len() == view_names().len(),
            forall|i: int|
                0 <= i < commands@.len() ==> (#[trigger] commands@[i]).spec_name()@
                    == view_names()[i],
    {
        let one = Real { bits: view::ONE };
        let mut commands: Vec<ViewCommand> = Vec::new();
        commands.push(ViewCommand::FirstPage);
        commands.push(ViewCommand::PreviousPage);
        commands.push(ViewCommand::NextPage);
        commands.push(ViewCommand::LastPage);
        commands.push(ViewCommand::GoToPage { page: PageNumber::first() });
        commands.push(ViewCommand::ScrollBy { points: one });
        commands.push(ViewCommand::ScrollTo { points: one });
        commands.push(ViewCommand::ScrollByViewports { fraction: one });
        commands.push(ViewCommand::PanBy { points: one });
        commands.push(ViewCommand::SetZoom { target: ZoomTarget::FitWidth });
        commands.push(ViewCommand::StepZoom { rungs: 1 });
        commands.push(ViewCommand::SetScrollMode { mode: ScrollMode::Free });
        commands
    }
}

impl Command {
    /// The wire name of this command. That it wraps a view command does not show.
    pub fn name(&self) -> (name: &'static str)
        ensures
            name@ == name_in(*self),
    {
        match self {
            Command::View(view) => view.name(),
            Command::Open { .. } => "open",
            Command::Close => "close",
            Command::InsertFile { .. } => "insert_file",
            Command::StageDocument { .. } => "stage_document",
            Command::ClearStaging => "clear_staging",
            Command::InsertPages { .. } => "insert_pages",
            Command::SetStagedSelection { .. } => "set_staged_selection",
            Command::SetActiveStage { .. } => "set_active_stage",
            Command::Capture { .. } => "capture",
            Command::MovePage { .. } => "move_page",
            Command::MovePages { .. } => "move_pages",
            Command::DeletePage { .. } => "delete_page",
            Command::DeletePages { .. } => "delete_pages",
            Command::SetPageFilter { .. } => "set_page_filter",
            Command::SetSelection { .. } => "set_selection",
            Command::Undo => "undo",
            Command::Save => "save",
            Command::SaveAs { .. } => "save_as",
            Command::SetThumbnails { .. } => "set_thumbnails",
            Command::SetGridMode { .. } => "set_grid_mode",
            Command::Answer { .. } => "answer",
            Command::Quit => "quit",
        }
    }

    /// One of each command that is not a view command, for the reference list. Only which one
    /// it is matters; the arguments stand for any.
    pub fn shell_commands() -> (commands: Vec<Command>)
        ensures
            commands@.len() == shell_names().len(),
            forall|i: int|
                0 <= i < commands@.len() ==> name_in(#[trigger] commands@[i]) == shell_names()[i],
    {
        let mut commands: Vec<Command> = Vec::new();
        commands.push(Command::Open { path: String::new() });
        commands.push(Command::Close);
        commands.push(Command::InsertFile { path: String::new() });
        commands.push(Command::StageDocument { path: String::new() });
        commands.push(Command::ClearStaging);
        commands.push(Command::InsertPages { pages: one_page(), at: PageNumber::first() });
        commands.push(
            Command::SetStagedSelection {
                staged: StagedName::Stage(StageId::first()),
                pages: one_page(),
            },
        );
        commands.push(Command::SetActiveStage { stage: StageId::first() });
        commands.push(Command::Capture { path: String::new() });
        commands.push(
            Command::MovePage { from: PageNumber::first(), to: PageNumber::first() },
        );
        commands.push(Command::MovePages { from: one_page(), to: PageNumber::first() });
        commands.push(Command::DeletePage { page: PageNumber::first() });
        commands.push(Command::DeletePages { pages: one_page() });
        commands.push(Command::SetPageFilter { query: String::new() });
        commands.push(Command::SetSelection { pages: one_page() });
        commands.push(Command::Undo);
        commands.push(Command::Save);
        commands.push(Command::SaveAs { path: String::new() });
        commands.push(Command::SetThumbnails { visible: true });
        commands.push(Command::SetGridMode { mode: GridMode::Navigate });
        commands.push(Command::Answer { choice: Answer::Cancel });
        commands.push(Command::Quit);
        commands
    }

    /// The name of every command, so that an outside process can ask what the program does
    /// instead of being told some other way.
    pub fn all_names() -> (names: Vec<&'static str>)
        ensures
            texts(names@) == view_names() + shell_names(),
    {
        let mut names: Vec<&'static str> = Vec::new();
        let views = ViewCommand::every();
        let mut i: usize = 0;
        while i < views.len()
            invariant
                i <= views.len(),
                views@.len() == view_names().len(),
                forall|j: int|
                    0 <= j < views@.len() ==> (#[trigger] views@[j]).spec_name()@
                        == view_names()[j],
                texts(names@) == view_names().take(i as int),
            decreases views.len() - i,
        {
            let ghost before = names@;
            names.push(views[i].name());
            i += 1;
            proof {
                assert(texts(names@) =~= texts(before).push(names@.last()@));
                assert(view_names().take(i as int) =~= view_names().take(i - 1).push(
                    view_names()[i - 1],
                ));
            }
        }
        proof {
            assert(view_names().take(i as int) =~= view_names());
            assert(view_names() + shell_names().take(0) =~= view_names());
        }
        let shell = Command::shell_commands();
        let mut k: usize = 0;
        while k < shell.len()
            invariant
                k <= shell.len(),
                shell@.len() == shell_names().len(),
                forall|j: int|
                    0 <= j < shell@.len() ==> name_in(#[trigger] shell@[j]) == shell_names()[j],
                texts(names@) == view_names() + shell_names().take(k as int),
            decreases shell.len() - k,
        {
            let ghost before = names@;
            names.push(shell[k].name());
            k += 1;
            proof {
                assert(texts(names@) =~= texts(before).push(names@.last()@));
                assert(view_names() + shell_names().take(k as int) =~= (view_names()
                    + shell_names().take(k - 1)).push(shell_names()[k - 1]));
            }
        }
        proof {
            assert(shell_names().take(k as int) =~= shell_names());
        }
        names
    }
}

impl vstd::std_specs::convert::FromSpecImpl<ViewCommand> for Command {
    open spec fn obeys_from_spec() -> bool {
        true
    }

    open spec fn from_spec(view: ViewCommand) -> Command {
        Command::View(view)
    }
}

impl From<ViewCommand> for Command {
    fn from(view: ViewCommand) -> (command: Command) {
        Command::View(view)
    }
}

/// Every command is advertised under its own name.
pub proof fn law_every_command_is_advertised(command: Command)
    ensures
        (view_names() + shell_names()).contains(name_in(command)),
{
    let all = view_names() + shell_names();
    let name = name_in(command);
    match command {
        Command::View(view) => {
            match view {
                ViewCommand::FirstPage => assert(all[0] == name),
                ViewCommand::PreviousPage => assert(all[1] == name),
                ViewCommand::NextPage => assert(all[2] == name),
                ViewCommand::LastPage => assert(all[3] == name),
                ViewCommand::GoToPage { .. } => assert(all[4] == name),
                ViewCommand::ScrollBy { .. } => assert(all[5] == name),
                ViewCommand::ScrollTo { .. } => assert(all[6] == name),
                ViewCommand::ScrollByViewports { .. } => assert(all[7] == name),
                ViewCommand::PanBy { .. } => assert(all[8] == name),
                ViewCommand::SetZoom { .. } => assert(all[9] == name),
                ViewCommand::StepZoom { .. } => assert(all[10] == name),
                ViewCommand::SetScrollMode { .. } => assert(all[11] == name),
            }
        },
        Command::Open { .. } => assert(all[12] == name),
        Command::Close => assert(all[13] == name),
        Command::InsertFile { .. } => assert(all[14] == name),
        Command::StageDocument { .. } => assert(all[15] == name),
        Command::ClearStaging => assert(all[16] == name),
        Command::InsertPages { .. } => assert(all[17] == name),
        Command::SetStagedSelection { .. } => assert(all[18] == name),
        Command::SetActiveStage { .. } => assert(all[19] == name),
        Command::Capture { .. } => assert(all[20] == name),
        Command::MovePage { .. } => assert(all[21] == name),
        Command::MovePages { .. } => assert(all[22] == name),
        Command::DeletePage { .. } => assert(all[23] == name),
        Command::DeletePages { .. } => assert(all[24] == name),
        Command::SetPageFilter { .. } => assert(all[25] == name),
        Command::SetSelection { .. } => assert(all[26] == name),
        Command::Undo => assert(all[27] == name),
        Command::Save => assert(all[28] == name),
        Command::SaveAs { .. } => assert(all[29] == name),
        Command::SetThumbnails { .. } => assert(all[30] == name),
        Command::SetGridMode { .. } => assert(all[31] == name),
        Command::Answer { .. } => assert(all[32] == name),
        Command::Quit => assert(all[33] == name),
    }
}

} // verus!
