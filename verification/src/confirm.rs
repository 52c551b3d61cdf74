//! Asking before unsaved page changes are thrown away.
//!
//! The guard sits in front of dispatch rather than on any one gesture, so the window's close
//! button, the keyboard, a file drop and an outside process all meet the same question. The
//! way out of it is a command too.

use vstd::prelude::*;
use vstd::string::*;

use crate::command::{Command, CommandView};
use crate::text;

verus! {

/// Something asked for that would throw away unsaved page changes. Held until it is answered,
/// then carried out or dropped.
#[derive(Debug, Clone, PartialEq, Eq)]
pub enum Intent {
    /// Close the window and exit.
    Quit,
    /// Close the document, leaving an empty window.
    CloseDocument,
    /// Open a different document in its place.
    Open(String),
}

/// What an [`Intent`] is.
pub enum IntentView {
    Quit,
    CloseDocument,
    Open(Seq<char>),
}

impl View for Intent {
    type V = IntentView;

    open spec fn view(&self) -> IntentView {
        match self {
            Intent::Quit => IntentView::Quit,
            Intent::CloseDocument => IntentView::CloseDocument,
            Intent::Open(path) => IntentView::Open(path@),
        }
    }
}

impl IntentView {
    /// What it would do, in words.
    pub open spec fn described(self) -> Seq<char> {
        match self {
            IntentView::Quit => "quit"@,
            IntentView::CloseDocument => "close this document"@,
            IntentView::Open(path) => "open "@ + path,
        }
    }
}

impl Intent {
    /// What this would do, for the question box and for the snapshot: the same words in both,
    /// so that an outside process reads exactly what a person is looking at.
    pub fn describe(&self) -> (description: String)
        ensures
            description@ == self@.described(),
    {
        match self {
            Intent::Quit => String::from_str("quit"),
            Intent::CloseDocument => String::from_str("close this document"),
            Intent::Open(path) => text::joined("open ", path.as_str()),
        }
    }
}

/// How a guarded request is waiting.
#[derive(Debug, Clone, PartialEq, Eq)]
pub enum Guard {
    /// Waiting on an answer.
    Asking(Intent),
    /// Answered with "save first"; waiting on the write to land. The intent must not be
    /// carried out until the file is really there.
    Saving(Intent),
}

/// What a [`Guard`] is.
pub enum GuardView {
    Asking(IntentView),
    Saving(IntentView),
}

impl View for Guard {
    type V = GuardView;

    open spec fn view(&self) -> GuardView {
        match self {
            Guard::Asking(intent) => GuardView::Asking(intent@),
            Guard::Saving(intent) => GuardView::Saving(intent@),
        }
    }
}

/// What was answered.
#[derive(Debug, Clone, Copy, PartialEq, Eq, Structural)]
pub enum Answer {
    /// Write the changes, then go ahead.
    Save,
    /// Go ahead and lose the changes.
    Discard,
    /// Never mind; stay here.
    Cancel,
}

impl Answer {
    /// The wire name of this answer.
    pub open spec fn spec_wire_name(self) -> Seq<char> {
        match self {
            Answer::Save => "save"@,
            Answer::Discard => "discard"@,
            Answer::Cancel => "cancel"@,
        }
    }

    /// The wire name of this answer.
    pub fn wire_name(self) -> (name: &'static str)
        ensures
            name@ == self.spec_wire_name(),
    {
        match self {
            Answer::Save => "save",
            Answer::Discard => "discard",
            Answer::Cancel => "cancel",
        }
    }

    /// The answer with a wire name, if there is one.
    pub open spec fn named(name: Seq<char>) -> Option<Answer> {
        if name == Answer::Save.spec_wire_name() {
            Some(Answer::Save)
        } else if name == Answer::Discard.spec_wire_name() {
            Some(Answer::Discard)
        } else if name == Answer::Cancel.spec_wire_name() {
            Some(Answer::Cancel)
        } else {
            None
        }
    }

    /// The answer with this wire name.
    pub fn from_wire_name(name: &str) -> (answer: Option<Answer>)
        ensures
            answer == Answer::named(name@),
            match answer {
                Some(answer) => name@ == answer.spec_wire_name(),
                None => forall|other: Answer| name@ != #[trigger] other.spec_wire_name(),
            },
    {
        if text::same_text(name, "save") {
            Some(Answer::Save)
        } else if text::same_text(name, "discard") {
            Some(Answer::Discard)
        } else if text::same_text(name, "cancel") {
            Some(Answer::Cancel)
        } else {
            proof {
                assert forall|other: Answer| name@ != #[trigger] other.spec_wire_name() by {
                    match other {
                        Answer::Save => {},
                        Answer::Discard => {},
                        Answer::Cancel => {},
                    }
                }
            }
            None
        }
    }

    /// Every answer's wire name, for an error that has to name the alternatives.
    pub fn all() -> (names: Vec<&'static str>)
        ensures
            names@.len() == 3,
            names@[0]@ == Answer::Save.spec_wire_name(),
            names@[1]@ == Answer::Discard.spec_wire_name(),
            names@[2]@ == Answer::Cancel.spec_wire_name(),
    {
        let mut names: Vec<&'static str> = Vec::new();
        names.push(Answer::Save.wire_name());
        names.push(Answer::Discard.wire_name());
        names.push(Answer::Cancel.wire_name());
        names
    }
}

/// What a command would throw away, if anything.
pub open spec fn intent_in(command: CommandView) -> Option<IntentView> {
    match command {
        CommandView::Quit => Some(IntentView::Quit),
        CommandView::Close => Some(IntentView::CloseDocument),
        CommandView::Open { path } => Some(IntentView::Open(path)),
        _ => None,
    }
}

/// What this command would throw away, if anything.
///
/// Everything but these three either leaves the document alone, or only adds to it, or is how
/// the changes are *kept*.
pub fn intent_of(command: &Command) -> (intent: Option<Intent>)
    ensures
        match intent {
            Some(intent) => intent_in(command@) == Some(intent@),
            None => intent_in(command@) is None,
        },
{
    match command {
        Command::Quit => Some(Intent::Quit),
        Command::Close => Some(Intent::CloseDocument),
        Command::Open { path } => Some(Intent::Open(path.clone())),
        _ => None,
    }
}

/// The question always has an exit: answering it is never held back, and neither is saving,
/// which is the way to keep the changes.
pub proof fn law_the_way_out_is_never_guarded(choice: Answer, path: Seq<char>)
    ensures
        intent_in(CommandView::Answer { choice }) is None,
        intent_in(CommandView::Save) is None,
        intent_in(CommandView::SaveAs { path }) is None,
{
}

/// Exactly the three commands that lose a document are guarded.
pub proof fn law_only_losing_the_document_is_guarded(command: CommandView)
    ensures
        (intent_in(command) is Some) == (command is Quit || command is Close || command is Open),
{
}

} // verus!
