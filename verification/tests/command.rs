//! The names of commands.

use porpoise::command::Command;
use porpoise::view::{PageNumber, ViewCommand};

#[test]
fn shell_commands_are_named() {
    assert_eq!(
        Command::Open {
            path: String::from("a.pdf")
        }
        .name(),
        "open"
    );
    assert_eq!(Command::Close.name(), "close");
    assert_eq!(Command::Quit.name(), "quit");
}

#[test]
fn a_wrapped_view_command_keeps_its_own_name() {
    assert_eq!(Command::View(ViewCommand::NextPage).name(), "next_page");
}

#[test]
fn the_reference_list_covers_view_and_shell_commands() {
    let names = Command::all_names();
    assert!(names.contains(&"next_page"), "missing a view command");
    assert!(names.contains(&"open"), "missing a shell command");
    assert!(names.contains(&"move_page"), "missing an edit command");
    assert!(names.contains(&"save_as"));
    assert!(names.contains(&"quit"));

    assert_eq!(
        names.len(),
        ViewCommand::every().len() + Command::shell_commands().len()
    );
}

#[test]
fn the_edit_commands_are_named() {
    assert_eq!(
        Command::MovePage {
            from: PageNumber::first(),
            to: PageNumber::first()
        }
        .name(),
        "move_page"
    );
    assert_eq!(
        Command::DeletePage {
            page: PageNumber::first()
        }
        .name(),
        "delete_page"
    );
    assert_eq!(Command::Undo.name(), "undo");
    assert_eq!(Command::Save.name(), "save");
    assert_eq!(
        Command::SaveAs {
            path: String::from("out.pdf")
        }
        .name(),
        "save_as"
    );
}

#[test]
fn every_name_is_distinct() {
    let mut names = Command::all_names();
    let total = names.len();
    names.sort_unstable();
    names.dedup();
    assert_eq!(names.len(), total, "two commands share a wire name");
}

#[test]
fn every_shell_command_is_listed_once() {
    let names: Vec<&str> = Command::shell_commands().iter().map(|command| command.name()).collect();
    assert_eq!(
        names,
        [
            "open", "close", "insert_file", "stage_document", "clear_staging", "insert_pages",
            "set_staged_selection", "set_active_stage", "capture", "move_page", "move_pages",
            "delete_page", "delete_pages", "set_page_filter", "set_selection", "undo", "save",
            "save_as", "set_thumbnails", "set_grid_mode", "answer", "quit",
        ]
    );
}

#[test]
fn every_view_command_is_listed_first() {
    let names = Command::all_names();
    assert_eq!(
        names[..12].to_vec(),
        [
            "first_page", "previous_page", "next_page", "last_page", "go_to_page", "scroll_by",
            "scroll_to", "scroll_by_viewports", "pan_by", "set_zoom", "step_zoom", "set_scroll_mode",
        ]
    );
    assert_eq!(names.len(), 34);
}
