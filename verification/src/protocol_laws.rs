//! That everything which can be asked for can be sent.

use vstd::prelude::*;

use crate::command;
use crate::command::{Command, CommandView};
use crate::protocol;
use crate::protocol::{BodyView, Members};
use crate::view::{PageNumber, ViewCommand};

verus! {

/// Whether `members` carry the arguments of a view command.
pub open spec fn carries_view(command: ViewCommand, members: Members) -> bool {
    match command {
        ViewCommand::FirstPage
        | ViewCommand::PreviousPage
        | ViewCommand::NextPage
        | ViewCommand::LastPage => true,
        ViewCommand::GoToPage { page } => protocol::page_in(members, "page"@) == Some(page.spec_get()),
        ViewCommand::ScrollBy { points } => protocol::real_in(members, "points"@) == Some(points),
        ViewCommand::ScrollTo { points } => protocol::real_in(members, "points"@) == Some(points),
        ViewCommand::ScrollByViewports { fraction } => protocol::real_in(members, "fraction"@) == Some(
            fraction,
        ),
        ViewCommand::PanBy { points } => protocol::real_in(members, "points"@) == Some(points),
        ViewCommand::SetZoom { target } => protocol::target_in(members) == Some(target),
        ViewCommand::StepZoom { rungs } => protocol::integer_in(members, "rungs"@) == Some(rungs),
        ViewCommand::SetScrollMode { mode } => protocol::scroll_mode_in(members) == Some(mode),
    }
}

/// Whether `members` carry the arguments of a command.
pub open spec fn carries(command: CommandView, members: Members) -> bool {
    match command {
        CommandView::View(command) => carries_view(command, members),
        CommandView::Open { path }
        | CommandView::InsertFile { path }
        | CommandView::StageDocument { path }
        | CommandView::Capture { path }
        | CommandView::SaveAs { path } => protocol::text_in(members, "path"@) == Some(path),
        CommandView::Close
        | CommandView::ClearStaging
        | CommandView::Undo
        | CommandView::Save
        | CommandView::Quit => true,
        CommandView::InsertPages { pages, at } => protocol::pages_in(members, "pages"@) == Some(pages)
            && protocol::page_in(members, "at"@) == Some(at),
        CommandView::SetStagedSelection { staged, pages } => protocol::staged_in(members) == Some(staged)
            && protocol::pages_in(members, "pages"@) == Some(pages),
        CommandView::SetActiveStage { stage } => protocol::page_in(members, "stage"@) == Some(stage),
        CommandView::MovePage { from, to } => protocol::page_in(members, "from"@) == Some(from) && protocol::page_in(
            members,
            "to"@,
        ) == Some(to),
        CommandView::MovePages { from, to } => protocol::pages_in(members, "from"@) == Some(from)
            && protocol::page_in(members, "to"@) == Some(to),
        CommandView::DeletePage { page } => protocol::page_in(members, "page"@) == Some(page),
        CommandView::DeletePages { pages } => protocol::pages_in(members, "pages"@) == Some(pages),
        CommandView::SetPageFilter { query } => protocol::query_in(members) == Some(query),
        CommandView::SetSelection { pages } => protocol::pages_in(members, "pages"@) == Some(pages),
        CommandView::SetThumbnails { visible } => protocol::truth_in(members, "visible"@) == Some(visible),
        CommandView::SetGridMode { mode } => protocol::text_in(members, "mode"@) == Some(
            mode.spec_wire_name(),
        ),
        CommandView::Answer { choice } => protocol::text_in(members, "choice"@) == Some(
            choice.spec_wire_name(),
        ),
    }
}

/// No view command has the name of another request.
proof fn lemma_view_names_are_their_own(name: Seq<char>, members: Members)
    requires
        name == "first_page"@
            || name == "previous_page"@
            || name == "next_page"@
            || name == "last_page"@
            || name == "go_to_page"@
            || name == "scroll_by"@
            || name == "scroll_to"@
            || name == "scroll_by_viewports"@
            || name == "pan_by"@
            || name == "set_zoom"@
            || name == "step_zoom"@
            || name == "set_scroll_mode"@,
    ensures
        name != "snapshot"@,
        name != "commands"@,
        protocol::bare_command(name) is None,
        protocol::path_command(name, Seq::empty()) is None,
        protocol::page_command_in(name, members) is None,
        protocol::setting_in(name, members) is None,
{
    reveal_strlit("snapshot");
    reveal_strlit("commands");
    reveal_strlit("close");
    reveal_strlit("clear_staging");
    reveal_strlit("undo");
    reveal_strlit("save");
    reveal_strlit("quit");
    reveal_strlit("open");
    reveal_strlit("insert_file");
    reveal_strlit("stage_document");
    reveal_strlit("capture");
    reveal_strlit("save_as");
    reveal_strlit("move_page");
    reveal_strlit("move_pages");
    reveal_strlit("delete_page");
    reveal_strlit("delete_pages");
    reveal_strlit("set_selection");
    reveal_strlit("insert_pages");
    reveal_strlit("set_staged_selection");
    reveal_strlit("set_active_stage");
    reveal_strlit("set_page_filter");
    reveal_strlit("set_thumbnails");
    reveal_strlit("set_grid_mode");
    reveal_strlit("answer");
    reveal_strlit("first_page");
    reveal_strlit("previous_page");
    reveal_strlit("next_page");
    reveal_strlit("last_page");
    reveal_strlit("go_to_page");
    reveal_strlit("scroll_by");
    reveal_strlit("scroll_to");
    reveal_strlit("scroll_by_viewports");
    reveal_strlit("pan_by");
    reveal_strlit("set_zoom");
    reveal_strlit("step_zoom");
    reveal_strlit("set_scroll_mode");
    assert("snapshot"@.len() == 8);
    assert("commands"@.len() == 8);
    assert("close"@.len() == 5);
    assert("clear_staging"@.len() == 13);
    assert("undo"@.len() == 4);
    assert("save"@.len() == 4);
    assert("quit"@.len() == 4);
    assert("open"@.len() == 4);
    assert("insert_file"@.len() == 11);
    assert("stage_document"@.len() == 14);
    assert("capture"@.len() == 7);
    assert("save_as"@.len() == 7);
    assert("move_page"@.len() == 9);
    assert("move_pages"@.len() == 10);
    assert("delete_page"@.len() == 11);
    assert("delete_pages"@.len() == 12);
    assert("set_selection"@.len() == 13);
    assert("insert_pages"@.len() == 12);
    assert("set_staged_selection"@.len() == 20);
    assert("set_active_stage"@.len() == 16);
    assert("set_page_filter"@.len() == 15);
    assert("set_thumbnails"@.len() == 14);
    assert("set_grid_mode"@.len() == 13);
    assert("answer"@.len() == 6);
    assert("first_page"@.len() == 10);
    assert("previous_page"@.len() == 13);
    assert("next_page"@.len() == 9);
    assert("last_page"@.len() == 9);
    assert("go_to_page"@.len() == 10);
    assert("scroll_by"@.len() == 9);
    assert("scroll_to"@.len() == 9);
    assert("scroll_by_viewports"@.len() == 19);
    assert("pan_by"@.len() == 6);
    assert("set_zoom"@.len() == 8);
    assert("step_zoom"@.len() == 9);
    assert("set_scroll_mode"@.len() == 15);
    assert("first_page"@[0] != "move_pages"@[0]);
    assert("previous_page"@[0] != "clear_staging"@[0]);
    assert("previous_page"@[0] != "set_selection"@[0]);
    assert("previous_page"@[0] != "set_grid_mode"@[0]);
    assert("next_page"@[0] != "move_page"@[0]);
    assert("last_page"@[0] != "move_page"@[0]);
    assert("go_to_page"@[0] != "move_pages"@[0]);
    assert("scroll_by"@[0] != "move_page"@[0]);
    assert("scroll_to"@[0] != "move_page"@[0]);
    assert("pan_by"@[0] != "answer"@[0]);
    assert("set_zoom"@[1] != "snapshot"@[1]);
    assert("set_zoom"@[0] != "commands"@[0]);
    assert("step_zoom"@[0] != "move_page"@[0]);
    assert("set_scroll_mode"@[4] != "set_page_filter"@[4]);
}

/// A view command is decoded to itself.
proof fn lemma_view_command_is_read(command: ViewCommand, members: Members)
    requires
        carries_view(command, members),
    ensures
        protocol::view_command_in(command.spec_name()@, members) == Some(
            Ok::<ViewCommand, Seq<char>>(command),
        ),
{
    reveal_strlit("first_page");
    reveal_strlit("previous_page");
    reveal_strlit("next_page");
    reveal_strlit("last_page");
    reveal_strlit("go_to_page");
    reveal_strlit("scroll_by");
    reveal_strlit("scroll_to");
    reveal_strlit("scroll_by_viewports");
    reveal_strlit("pan_by");
    reveal_strlit("set_zoom");
    reveal_strlit("step_zoom");
    reveal_strlit("set_scroll_mode");
    assert("first_page"@.len() == 10);
    assert("previous_page"@.len() == 13);
    assert("next_page"@.len() == 9);
    assert("last_page"@.len() == 9);
    assert("go_to_page"@.len() == 10);
    assert("scroll_by"@.len() == 9);
    assert("scroll_to"@.len() == 9);
    assert("scroll_by_viewports"@.len() == 19);
    assert("pan_by"@.len() == 6);
    assert("set_zoom"@.len() == 8);
    assert("step_zoom"@.len() == 9);
    assert("set_scroll_mode"@.len() == 15);
    assert("first_page"@[0] != "go_to_page"@[0]);
    assert("next_page"@[0] != "last_page"@[0]);
    assert("next_page"@[0] != "scroll_by"@[0]);
    assert("next_page"@[0] != "scroll_to"@[0]);
    assert("next_page"@[0] != "step_zoom"@[0]);
    assert("last_page"@[0] != "scroll_by"@[0]);
    assert("last_page"@[0] != "scroll_to"@[0]);
    assert("last_page"@[0] != "step_zoom"@[0]);
    assert("scroll_by"@[7] != "scroll_to"@[7]);
    assert("scroll_by"@[1] != "step_zoom"@[1]);
    assert("scroll_to"@[1] != "step_zoom"@[1]);
    if let ViewCommand::GoToPage { page } = command {
        PageNumber::lemma_by_number(page);
    }
}

/// Every command can be sent: under its own name and with its own arguments it is decoded to
/// itself. So no two commands share a name either.
pub proof fn law_every_command_can_be_sent(command: Command, members: Members)
    requires
        carries(command@, members),
    ensures
        protocol::body_in(command::name_in(command), members) == Some(
            Ok::<BodyView, Seq<char>>(BodyView::Command(command@)),
        ),
{
    match command {
        Command::View(asked) => {
            lemma_view_names_are_their_own(asked.spec_name()@, members);
            lemma_view_command_is_read(asked, members);
        },
        _ => {
            lemma_shell_command_is_read(command, members);
        },
    }
}

/// A command that is no view command is decoded to itself.
proof fn lemma_shell_command_is_read(command: Command, members: Members)
    requires
        !(command is View),
        carries(command@, members),
    ensures
        protocol::body_in(command::name_in(command), members) == Some(
            Ok::<BodyView, Seq<char>>(BodyView::Command(command@)),
        ),
{
    reveal_strlit("snapshot");
    reveal_strlit("commands");
    reveal_strlit("close");
    reveal_strlit("clear_staging");
    reveal_strlit("undo");
    reveal_strlit("save");
    reveal_strlit("quit");
    reveal_strlit("open");
    reveal_strlit("insert_file");
    reveal_strlit("stage_document");
    reveal_strlit("capture");
    reveal_strlit("save_as");
    reveal_strlit("move_page");
    reveal_strlit("move_pages");
    reveal_strlit("delete_page");
    reveal_strlit("delete_pages");
    reveal_strlit("set_selection");
    reveal_strlit("insert_pages");
    reveal_strlit("set_staged_selection");
    reveal_strlit("set_active_stage");
    reveal_strlit("set_page_filter");
    reveal_strlit("set_thumbnails");
    reveal_strlit("set_grid_mode");
    reveal_strlit("answer");
    reveal_strlit("navigate");
    reveal_strlit("reorganize");
    reveal_strlit("merge");
    reveal_strlit("discard");
    reveal_strlit("cancel");
    assert("snapshot"@.len() == 8);
    assert("commands"@.len() == 8);
    assert("close"@.len() == 5);
    assert("clear_staging"@.len() == 13);
    assert("undo"@.len() == 4);
    assert("save"@.len() == 4);
    assert("quit"@.len() == 4);
    assert("open"@.len() == 4);
    assert("insert_file"@.len() == 11);
    assert("stage_document"@.len() == 14);
    assert("capture"@.len() == 7);
    assert("save_as"@.len() == 7);
    assert("move_page"@.len() == 9);
    assert("move_pages"@.len() == 10);
    assert("delete_page"@.len() == 11);
    assert("delete_pages"@.len() == 12);
    assert("set_selection"@.len() == 13);
    assert("insert_pages"@.len() == 12);
    assert("set_staged_selection"@.len() == 20);
    assert("set_active_stage"@.len() == 16);
    assert("set_page_filter"@.len() == 15);
    assert("set_thumbnails"@.len() == 14);
    assert("set_grid_mode"@.len() == 13);
    assert("answer"@.len() == 6);
    assert("navigate"@.len() == 8);
    assert("reorganize"@.len() == 10);
    assert("merge"@.len() == 5);
    assert("discard"@.len() == 7);
    assert("cancel"@.len() == 6);
    assert("snapshot"@[0] != "commands"@[0]);
    assert("clear_staging"@[0] != "set_selection"@[0]);
    assert("clear_staging"@[0] != "set_grid_mode"@[0]);
    assert("undo"@[0] != "save"@[0]);
    assert("undo"@[0] != "quit"@[0]);
    assert("undo"@[0] != "open"@[0]);
    assert("save"@[0] != "quit"@[0]);
    assert("save"@[0] != "open"@[0]);
    assert("quit"@[0] != "open"@[0]);
    assert("insert_file"@[0] != "delete_page"@[0]);
    assert("stage_document"@[1] != "set_thumbnails"@[1]);
    assert("capture"@[0] != "save_as"@[0]);
    assert("delete_pages"@[0] != "insert_pages"@[0]);
    assert("set_selection"@[4] != "set_grid_mode"@[4]);
}

/// No command's name is ever called unknown, whatever comes with it: at worst its arguments are
/// refused.
pub proof fn law_every_command_is_known(command: Command, members: Members)
    ensures
        protocol::body_in(command::name_in(command), members) is Some,
{
}

} // verus!
