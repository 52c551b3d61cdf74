//! Decoding one line of the control channel.

use porpoise::command::Command;
use porpoise::confirm::Answer;
use porpoise::grid::GridMode;
use porpoise::protocol::{
    body_of, decode, receive, DecodeError, Refusal, Request, RequestBody, MAX_LINE_BYTES,
};
use porpoise::reply::Reply;
use porpoise::stage::{StageId, StagedName};
use porpoise::view::{PageNumber, Real, Rejection, ScrollMode, ViewCommand, ZoomTarget};

fn page(number: usize) -> PageNumber {
    PageNumber::new(number).expect("page numbers in tests start at 1")
}

fn pages(numbers: &[usize]) -> Vec<PageNumber> {
    numbers.iter().map(|number| page(*number)).collect()
}

fn number(value: f64) -> Real {
    Real {
        bits: value.to_bits(),
    }
}

fn decoded(line: &str) -> Request {
    decode(line)
        .unwrap_or_else(|error| panic!("{line} failed to decode: {}", error.message()))
        .unwrap_or_else(|| panic!("{line} decoded to nothing"))
}

fn command(line: &str) -> Command {
    match decoded(line).body {
        RequestBody::Command(command) => command,
        other => panic!("{line} decoded to {other:?}, not a command"),
    }
}

#[test]
fn a_view_command_decodes_flat_without_a_wrapper() {
    assert_eq!(
        command(r#"{"command":"next_page"}"#),
        Command::View(ViewCommand::NextPage)
    );
    assert_eq!(
        command(r#"{"command":"go_to_page","page":4}"#),
        Command::View(ViewCommand::GoToPage { page: page(4) })
    );
}

#[test]
fn shell_commands_decode_with_their_arguments() {
    assert_eq!(
        command(r#"{"command":"open","path":"a/b.pdf"}"#),
        Command::Open {
            path: String::from("a/b.pdf")
        }
    );
    assert_eq!(
        command(r#"{"command":"capture","path":"out.png"}"#),
        Command::Capture {
            path: String::from("out.png")
        }
    );
    assert_eq!(command(r#"{"command":"close"}"#), Command::Close);
    assert_eq!(command(r#"{"command":"quit"}"#), Command::Quit);
}

#[test]
fn queries_are_not_commands() {
    assert_eq!(
        decoded(r#"{"command":"snapshot"}"#).body,
        RequestBody::Snapshot
    );
    assert_eq!(
        decoded(r#"{"command":"commands"}"#).body,
        RequestBody::Commands
    );
}

#[test]
fn an_id_is_optional_and_preserved() {
    assert_eq!(decoded(r#"{"command":"next_page"}"#).id, None);
    assert_eq!(decoded(r#"{"id":7,"command":"next_page"}"#).id, Some(7));
    assert_eq!(decoded(r#"{"id":null,"command":"next_page"}"#).id, None);
}

#[test]
fn nested_enum_arguments_decode() {
    assert_eq!(
        command(r#"{"command":"set_zoom","target":"fit_page"}"#),
        Command::View(ViewCommand::SetZoom {
            target: ZoomTarget::FitPage
        })
    );
    assert_eq!(
        command(r#"{"command":"set_zoom","target":{"fixed":1.5}}"#),
        Command::View(ViewCommand::SetZoom {
            target: ZoomTarget::Fixed(number(1.5))
        })
    );
    assert_eq!(
        command(r#"{"command":"set_scroll_mode","mode":"paged"}"#),
        Command::View(ViewCommand::SetScrollMode {
            mode: ScrollMode::Paged
        })
    );
}

#[test]
fn a_blank_line_is_ignored_rather_than_rejected() {
    for line in ["", "   ", "\t", "\n"] {
        assert_eq!(decode(line), Ok(None), "{line:?} should be ignored");
    }
}

#[test]
fn a_leading_byte_order_mark_is_ignored() {
    assert_eq!(
        command("\u{feff}{\"command\":\"next_page\"}"),
        Command::View(ViewCommand::NextPage)
    );
    assert_eq!(decode("\u{feff}"), Ok(None));
}

#[test]
fn surrounding_whitespace_is_tolerated() {
    assert_eq!(
        command("  {\"command\":\"first_page\"}\t"),
        Command::View(ViewCommand::FirstPage)
    );
}

#[test]
fn an_unknown_command_lists_the_valid_ones() {
    let error = decode(r#"{"command":"teleport"}"#).expect_err("should be refused");
    match error {
        DecodeError::UnknownCommand { name, valid } => {
            assert_eq!(name, "teleport");
            assert!(valid.contains("next_page"), "valid list was: {valid}");
            assert!(valid.contains("open"), "valid list was: {valid}");
        }
        other => panic!("expected UnknownCommand, got {other:?}"),
    }
}

#[test]
fn a_recognised_command_with_bad_arguments_says_which_command() {
    let error =
        decode(r#"{"command":"go_to_page","page":"four"}"#).expect_err("should be refused");
    match error {
        DecodeError::BadArguments { command, .. } => assert_eq!(command, "go_to_page"),
        other => panic!("expected BadArguments, got {other:?}"),
    }
}

#[test]
fn a_missing_path_argument_names_the_field() {
    let error = decode(r#"{"command":"open"}"#).expect_err("should be refused");
    assert!(error.message().contains("path"), "unhelpful: {}", error.message());
}

#[test]
fn structurally_invalid_input_is_refused_without_panicking() {
    let cases = [
        (r"not json at all", "bare text"),
        (r"{", "truncated object"),
        (r"[1,2,3]", "array"),
        (r#""a string""#, "bare string"),
        (r"42", "bare number"),
        (r"null", "null"),
        (r"{}", "empty object"),
        (r#"{"command":5}"#, "non-string command"),
        (r#"{"id":-1,"command":"next_page"}"#, "negative id"),
        (r#"{"id":"x","command":"next_page"}"#, "non-numeric id"),
        (r#"{"id":1.5,"command":"next_page"}"#, "fractional id"),
    ];
    for (line, what) in cases {
        assert!(decode(line).is_err(), "{what} ({line}) was accepted");
    }
}

#[test]
fn an_over_long_line_is_refused_before_being_parsed() {
    let line = format!(
        r#"{{"command":"next_page","pad":"{}"}}"#,
        "x".repeat(MAX_LINE_BYTES)
    );
    assert_eq!(decode(&line), Err(DecodeError::TooLong));
}

#[test]
fn deeply_nested_json_does_not_blow_the_stack() {
    let deep = format!("{}{}", "[".repeat(2000), "]".repeat(2000));
    assert!(decode(&deep).is_err());
}

#[test]
fn a_non_ascii_path_survives_decoding() {
    match command(r#"{"command":"open","path":"café/naïve.pdf"}"#) {
        Command::Open { path } => {
            let shown = path;
            assert!(shown.contains("café"), "mangled: {shown}");
            assert!(shown.contains("naïve"), "mangled: {shown}");
        }
        other => panic!("expected Open, got {other:?}"),
    }
}

#[test]
fn an_escaped_control_character_in_a_path_is_accepted() {
    match command(r#"{"command":"open","path":"odd\tname.pdf"}"#) {
        Command::Open { path } => {
            assert!(path.contains('\t'), "the tab was dropped");
        }
        other => panic!("expected Open, got {other:?}"),
    }
}

#[test]
fn a_raw_control_byte_is_rejected_as_json_requires() {
    let line = format!("{{\"command\":\"open\",\"path\":\"a{}b.pdf\"}}", '\u{1}');
    assert!(matches!(decode(&line), Err(DecodeError::NotJson { .. })));
}

#[test]
fn a_rejection_becomes_a_readable_error() {
    let reply = Reply::rejected(
        Some(1),
        Rejection::NoSuchPage {
            page: page(10),
            page_count: 3,
        },
    );
    assert!(!reply.ok);
    let error = reply.error.expect("an error message");
    assert!(error.contains("10"), "unhelpful: {error}");
    assert!(error.contains('3'), "unhelpful: {error}");
}

#[test]
fn every_published_view_command_can_be_decoded_from_its_own_wire_form() {
    for known in ViewCommand::every() {
        let name = known.name();
        let arguments = match known {
            ViewCommand::FirstPage
            | ViewCommand::PreviousPage
            | ViewCommand::NextPage
            | ViewCommand::LastPage => String::new(),
            ViewCommand::GoToPage { page } => format!(r#","page":{}"#, page.get()),
            ViewCommand::ScrollBy { points }
            | ViewCommand::ScrollTo { points }
            | ViewCommand::PanBy { points } => {
                format!(r#","points":{:?}"#, f64::from_bits(points.bits))
            }
            ViewCommand::ScrollByViewports { fraction } => {
                format!(r#","fraction":{:?}"#, f64::from_bits(fraction.bits))
            }
            ViewCommand::SetZoom { target } => match target {
                ZoomTarget::FitWidth => String::from(r#","target":"fit_width""#),
                ZoomTarget::FitPage => String::from(r#","target":"fit_page""#),
                ZoomTarget::Fixed(factor) => {
                    format!(r#","target":{{"fixed":{:?}}}"#, f64::from_bits(factor.bits))
                }
            },
            ViewCommand::StepZoom { rungs } => format!(r#","rungs":{rungs}"#),
            ViewCommand::SetScrollMode { mode } => match mode {
                ScrollMode::Free => String::from(r#","mode":"free""#),
                ScrollMode::Paged => String::from(r#","mode":"paged""#),
            },
        };
        let line = format!(r#"{{"command":"{name}"{arguments}}}"#);
        assert_eq!(command(&line), Command::View(known), "{name} did not survive its own wire form");
    }
}

#[test]
fn every_shell_command_decodes_from_its_wire_form() {
    let text = String::from;
    let cases = [
        (r#"{"command":"insert_file","path":"a.pdf"}"#, Command::InsertFile { path: text("a.pdf") }),
        (r#"{"command":"stage_document","path":"a.pdf"}"#, Command::StageDocument { path: text("a.pdf") }),
        (r#"{"command":"clear_staging"}"#, Command::ClearStaging),
        (r#"{"command":"insert_pages","pages":[2,1],"at":3}"#, Command::InsertPages { pages: pages(&[2, 1]), at: page(3) }),
        (
            r#"{"command":"set_staged_selection","stage":2,"pages":[1]}"#,
            Command::SetStagedSelection { staged: StagedName::Stage(StageId::first().next()), pages: pages(&[1]) },
        ),
        (
            r#"{"command":"set_staged_selection","path":"a.pdf","pages":[]}"#,
            Command::SetStagedSelection { staged: StagedName::Path(text("a.pdf")), pages: pages(&[]) },
        ),
        (r#"{"command":"set_active_stage","stage":1}"#, Command::SetActiveStage { stage: StageId::first() }),
        (r#"{"command":"move_page","from":1,"to":4}"#, Command::MovePage { from: page(1), to: page(4) }),
        (r#"{"command":"move_pages","from":[1,2],"to":4}"#, Command::MovePages { from: pages(&[1, 2]), to: page(4) }),
        (r#"{"command":"delete_page","page":5}"#, Command::DeletePage { page: page(5) }),
        (r#"{"command":"delete_pages","pages":[5,6]}"#, Command::DeletePages { pages: pages(&[5, 6]) }),
        (r#"{"command":"set_page_filter","query":"1-3"}"#, Command::SetPageFilter { query: text("1-3") }),
        (r#"{"command":"set_selection","pages":[2]}"#, Command::SetSelection { pages: pages(&[2]) }),
        (r#"{"command":"undo"}"#, Command::Undo),
        (r#"{"command":"save"}"#, Command::Save),
        (r#"{"command":"save_as","path":"b.pdf"}"#, Command::SaveAs { path: text("b.pdf") }),
        (r#"{"command":"set_thumbnails","visible":false}"#, Command::SetThumbnails { visible: false }),
        (r#"{"command":"set_grid_mode","mode":"reorganize"}"#, Command::SetGridMode { mode: GridMode::Reorganize }),
        (r#"{"command":"answer","choice":"discard"}"#, Command::Answer { choice: Answer::Discard }),
    ];
    for (line, expected) in cases {
        assert_eq!(command(line), expected, "{line}");
    }
}

#[test]
fn each_error_says_what_is_wrong() {
    let cases = [
        ("[]", DecodeError::NotAnObject, "expected a JSON object"),
        ("{}", DecodeError::MissingCommand, "missing the \"command\" field"),
        (r#"{"command":5}"#, DecodeError::CommandNotAString, "\"command\" must be a string"),
        (r#"{"id":-1,"command":"quit"}"#, DecodeError::BadId, "\"id\" must be a non-negative integer"),
    ];
    for (line, expected, message) in cases {
        let error = decode(line).expect_err("should be refused");
        assert_eq!(error, expected);
        assert_eq!(error.message(), message);
    }
    assert_eq!(DecodeError::TooLong.message(), "line exceeds the 1048576 byte limit");
    let unknown = decode(r#"{"command":"teleport"}"#).expect_err("should be refused");
    let message = unknown.message();
    assert!(
        message.starts_with("unknown command \"teleport\"; valid commands are: first_page, "),
        "{message}"
    );
    assert!(message.ends_with(", answer, quit"), "{message}");
    let not_json = decode("not json").expect_err("should be refused");
    assert!(not_json.message().starts_with("not valid JSON: "), "{}", not_json.message());
}

#[test]
fn bad_arguments_name_what_was_expected() {
    let cases = [
        (r#"{"command":"open","path":5}"#, r#""open" has bad arguments: expected a string "path""#),
        (r#"{"command":"go_to_page","page":0}"#, r#""go_to_page" has bad arguments: expected a page number "page""#),
        (
            r#"{"command":"delete_pages","pages":[1,0]}"#,
            r#""delete_pages" has bad arguments: expected a list of page numbers "pages""#,
        ),
        (r#"{"command":"go_to_page"}"#, r#""go_to_page" has bad arguments: missing field `page`"#),
        (r#"{"command":"set_zoom"}"#, r#""set_zoom" has bad arguments: missing field `target`"#),
        (r#"{"command":"scroll_by","points":"x"}"#, r#""scroll_by" has bad arguments: expected a number "points""#),
        (r#"{"command":"step_zoom","rungs":1.5}"#, r#""step_zoom" has bad arguments: expected an integer "rungs""#),
        (
            r#"{"command":"set_thumbnails","visible":1}"#,
            r#""set_thumbnails" has bad arguments: expected a boolean "visible""#,
        ),
        (
            r#"{"command":"set_grid_mode","mode":"reorder"}"#,
            r#""set_grid_mode" has bad arguments: expected "mode" to be one of: navigate, reorganize, merge"#,
        ),
        (
            r#"{"command":"answer","choice":"maybe"}"#,
            r#""answer" has bad arguments: expected "choice" to be one of: save, discard, cancel"#,
        ),
    ];
    for (line, message) in cases {
        assert_eq!(decode(line).expect_err("should be refused").message(), message);
    }
}

#[test]
fn a_refused_line_is_answered_under_its_own_id() {
    assert_eq!(
        receive(r#"{"id":7,"command":5}"#),
        Err(Refusal { id: Some(7), reason: DecodeError::CommandNotAString })
    );
    assert_eq!(receive("[]"), Err(Refusal { id: None, reason: DecodeError::NotAnObject }));
    assert_eq!(
        receive(r#"{"id":7,"command":"quit"}"#),
        Ok(Some(Request { id: Some(7), body: RequestBody::Command(Command::Quit) }))
    );
    assert_eq!(receive("  "), Ok(None));
}

#[test]
fn a_name_without_arguments_stands_on_its_own() {
    assert_eq!(body_of("undo", &[]), Some(Ok(RequestBody::Command(Command::Undo))));
    assert_eq!(body_of("snapshot", &[]), Some(Ok(RequestBody::Snapshot)));
    assert!(matches!(body_of("open", &[]), Some(Err(_))));
    assert_eq!(body_of("teleport", &[]), None);
}

#[test]
fn the_commands_reply_lists_every_command() {
    let reply = Reply::with_commands(Some(1));
    assert_eq!(reply.id, Some(1));
    assert!(reply.ok);
    let commands = reply.commands.expect("a command list");
    assert_eq!(commands, Command::all_names());
    assert!(commands.contains(&"go_to_page"));
    assert!(commands.contains(&"quit"));
}

#[test]
fn a_reply_holds_what_was_asked_for() {
    let reply = Reply::ok(Some(3), "changed");
    assert_eq!((reply.id, reply.ok, reply.outcome, reply.error), (Some(3), true, Some("changed"), None));
    let reply = Reply::failed(None, "no");
    assert_eq!((reply.id, reply.ok, reply.outcome, reply.error), (None, false, None, Some(String::from("no"))));
    let reply = Reply::rejected(None, Rejection::NotFinite);
    assert!(!reply.ok && reply.error.is_some());
}
