//! What is asked about before unsaved changes would be lost.

use porpoise::command::Command;
use porpoise::confirm::{intent_of, Answer, Intent};
use porpoise::view::{PageNumber, ViewCommand};

fn path() -> String {
    String::from("plans/sheet.pdf")
}

#[test]
fn the_three_commands_that_lose_a_document_are_guarded() {
    assert_eq!(intent_of(&Command::Quit), Some(Intent::Quit));
    assert_eq!(intent_of(&Command::Close), Some(Intent::CloseDocument));
    assert_eq!(
        intent_of(&Command::Open { path: path() }),
        Some(Intent::Open(path()))
    );
}

#[test]
fn editing_and_looking_around_are_not_guarded() {
    let unguarded = [
        Command::View(ViewCommand::NextPage),
        Command::MovePage {
            from: PageNumber::first(),
            to: PageNumber::first(),
        },
        Command::DeletePage {
            page: PageNumber::first(),
        },
        Command::Undo,
        Command::SetThumbnails { visible: true },
        Command::Capture { path: path() },
    ];
    for command in unguarded {
        assert_eq!(intent_of(&command), None, "{} was guarded", command.name());
    }
}

#[test]
fn saving_is_never_guarded_because_it_is_the_way_to_keep_the_changes() {
    assert_eq!(intent_of(&Command::Save), None);
    assert_eq!(intent_of(&Command::SaveAs { path: path() }), None);
}

#[test]
fn inserting_a_file_is_never_guarded_because_it_only_adds_pages() {
    assert_eq!(intent_of(&Command::InsertFile { path: path() }), None);
}

#[test]
fn staging_and_inserting_pages_are_never_guarded() {
    assert_eq!(intent_of(&Command::StageDocument { path: path() }), None);
    assert_eq!(intent_of(&Command::ClearStaging), None);
    assert_eq!(
        intent_of(&Command::InsertPages {
            pages: vec![PageNumber::first()],
            at: PageNumber::first(),
        }),
        None
    );
}

#[test]
fn answering_is_never_guarded_or_the_question_would_have_no_exit() {
    for answer in [Answer::Save, Answer::Discard, Answer::Cancel] {
        assert_eq!(
            intent_of(&Command::Answer { choice: answer }),
            None,
            "{answer:?} was guarded"
        );
    }
}

#[test]
fn an_intent_says_what_it_would_do() {
    assert_eq!(Intent::Quit.describe(), "quit");
    assert!(Intent::CloseDocument.describe().contains("close"));
    let described = Intent::Open(path()).describe();
    assert!(described.starts_with("open "), "unhelpful: {described}");
    assert!(described.contains("sheet.pdf"), "unhelpful: {described}");
}

#[test]
fn an_answer_decodes_from_its_wire_name() {
    for (wire, expected) in [
        ("save", Answer::Save),
        ("discard", Answer::Discard),
        ("cancel", Answer::Cancel),
    ] {
        let decoded = Answer::from_wire_name(wire).expect("should decode");
        assert_eq!(decoded, expected);
    }
    assert!(
        Answer::from_wire_name("maybe").is_none(),
        "accepted an answer that means nothing"
    );
}

#[test]
fn every_answer_is_advertised() {
    for answer in [Answer::Save, Answer::Discard, Answer::Cancel] {
        let name = match answer {
            Answer::Save => "save",
            Answer::Discard => "discard",
            Answer::Cancel => "cancel",
        };
        assert_eq!(answer.wire_name(), name);
        assert!(Answer::all().contains(&name), "{name} is not advertised");
    }
    assert_eq!(Answer::all().len(), 3);
}
