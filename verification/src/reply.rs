//! What is said to an outside process: replies to its requests, and events.

use vstd::prelude::*;
use vstd::string::*;

use crate::command;
use crate::command::Command;
use crate::saver::Saved;
use crate::session::{DispatchResult, Effect, EffectView, ResultView};
use crate::snapshot::Snapshot;
use crate::view::{Outcome, PageNumber, Rejection};

verus! {

/// A reply to a request. What is absent is left out.
#[derive(Debug, Clone, PartialEq, Eq)]
pub struct Reply {
    /// Echoed from the request.
    pub id: Option<u64>,
    /// Whether the request was carried out.
    pub ok: bool,
    /// What came of it.
    pub outcome: Option<&'static str>,
    /// Why it was refused.
    pub error: Option<String>,
    /// The answer to a `snapshot` query.
    pub snapshot: Option<Box<Snapshot>>,
    /// The answer to a `commands` query.
    pub commands: Option<Vec<&'static str>>,
}

/// Whether a reply is a bare success.
pub open spec fn succeeds(reply: Reply, id: Option<u64>, outcome: Seq<char>) -> bool {
    &&& reply.id == id
    &&& reply.ok
    &&& reply.outcome matches Some(given) && given@ == outcome
    &&& reply.error is None
    &&& reply.snapshot is None
    &&& reply.commands is None
}

/// Whether a reply is a failure with a reason.
pub open spec fn fails(reply: Reply, id: Option<u64>, error: Seq<char>) -> bool {
    &&& reply.id == id
    &&& !reply.ok
    &&& reply.outcome is None
    &&& reply.error matches Some(given) && given@ == error
    &&& reply.snapshot is None
    &&& reply.commands is None
}

impl Reply {
    /// A bare success.
    pub fn ok(id: Option<u64>, outcome: &'static str) -> (reply: Reply)
        ensures
            succeeds(reply, id, outcome@),
    {
        Reply { id, ok: true, outcome: Some(outcome), error: None, snapshot: None, commands: None }
    }

    /// A failure with a reason.
    pub fn failed(id: Option<u64>, error: &str) -> (reply: Reply)
        ensures
            fails(reply, id, error@),
    {
        Reply {
            id,
            ok: false,
            outcome: None,
            error: Some(String::from_str(error)),
            snapshot: None,
            commands: None,
        }
    }

    /// A refusal by the view.
    pub fn rejected(id: Option<u64>, rejection: Rejection) -> (reply: Reply)
        ensures
            fails(reply, id, rejection.spec_message()),
    {
        Reply::failed(id, rejection.message().as_str())
    }

    /// The answer to a `snapshot` query.
    pub fn with_snapshot(id: Option<u64>, snapshot: Snapshot) -> (reply: Reply)
        ensures
            reply == (Reply {
                id,
                ok: true,
                outcome: None,
                error: None,
                snapshot: Some(Box::new(snapshot)),
                commands: None,
            }),
    {
        Reply {
            id,
            ok: true,
            outcome: None,
            error: None,
            snapshot: Some(Box::new(snapshot)),
            commands: None,
        }
    }

    /// The answer to a `commands` query: every command by its name.
    pub fn with_commands(id: Option<u64>) -> (reply: Reply)
        ensures
            reply.id == id,
            reply.ok,
            reply.outcome is None,
            reply.error is None,
            reply.snapshot is None,
            reply.commands matches Some(names) && command::texts(names@) == command::view_names()
                + command::shell_names(),
    {
        Reply {
            id,
            ok: true,
            outcome: None,
            error: None,
            snapshot: None,
            commands: Some(Command::all_names()),
        }
    }
}

/// What a successful result is called. A capture, a save and a question have only begun when
/// they are replied to, and are called so.
pub open spec fn outcome_of(result: ResultView) -> Option<Seq<char>> {
    match result {
        ResultView::View(Outcome::Changed) => Some("changed"@),
        ResultView::View(Outcome::Unchanged) => Some("unchanged"@),
        ResultView::View(Outcome::Rejected(_)) => None,
        ResultView::Opened => Some("opened"@),
        ResultView::Closed => Some("closed"@),
        ResultView::CaptureStarted => Some("capturing"@),
        ResultView::Edited => Some("edited"@),
        ResultView::Saving => Some("saving"@),
        ResultView::NeedsAnswer => Some("needs_answer"@),
        ResultView::Cancelled => Some("cancelled"@),
        ResultView::Unchanged => Some("unchanged"@),
        ResultView::Quitting => Some("quitting"@),
        ResultView::Failed(_) => None,
    }
}

/// Why a result is no success.
pub open spec fn error_of(result: ResultView) -> Seq<char> {
    match result {
        ResultView::View(Outcome::Rejected(rejection)) => rejection.spec_message(),
        ResultView::Failed(message) => message,
        _ => Seq::empty(),
    }
}

impl DispatchResult {
    /// The reply to send for this result.
    pub fn into_reply(self, id: Option<u64>) -> (reply: Reply)
        ensures
            match outcome_of(self@) {
                Some(outcome) => succeeds(reply, id, outcome),
                None => fails(reply, id, error_of(self@)),
            },
    {
        match self {
            DispatchResult::View(Outcome::Changed) => Reply::ok(id, "changed"),
            DispatchResult::View(Outcome::Unchanged) => Reply::ok(id, "unchanged"),
            DispatchResult::View(Outcome::Rejected(rejection)) => Reply::rejected(id, rejection),
            DispatchResult::Opened => Reply::ok(id, "opened"),
            DispatchResult::Closed => Reply::ok(id, "closed"),
            DispatchResult::CaptureStarted => Reply::ok(id, "capturing"),
            DispatchResult::Edited => Reply::ok(id, "edited"),
            DispatchResult::Saving => Reply::ok(id, "saving"),
            DispatchResult::NeedsAnswer => Reply::ok(id, "needs_answer"),
            DispatchResult::Cancelled => Reply::ok(id, "cancelled"),
            DispatchResult::Unchanged => Reply::ok(id, "unchanged"),
            DispatchResult::Quitting => Reply::ok(id, "quitting"),
            DispatchResult::Failed(message) => Reply::failed(id, message.as_str()),
        }
    }
}

/// Something that happened, reported without being asked.
#[derive(Debug, Clone, PartialEq, Eq)]
pub enum Event {
    DocumentOpened { path: String, page_count: usize },
    DocumentClosed,
    /// The state changed. At most one per frame.
    ViewChanged { snapshot: Box<Snapshot> },
    PageRendered { page: PageNumber },
    PageFailed { page: PageNumber, reason: String, will_retry: bool },
    /// An edit took effect.
    PagesReordered { page_count: usize },
    Saved { path: String },
    SaveFailed { error: String },
    Captured { path: String },
    CaptureFailed { error: String },
    /// Everything that was asked for is done.
    Idle,
}

/// The event that goes with something done outside, if there is one.
pub fn event_for(effect: &Effect) -> (event: Option<Event>)
    ensures
        match effect@ {
            EffectView::Relayout { pages } => event matches Some(
                Event::PagesReordered { page_count },
            ) && page_count == pages,
            EffectView::ShowDocument { path, pages } => event matches Some(
                Event::DocumentOpened { path: opened, page_count },
            ) && opened@ == path && page_count == pages,
            EffectView::ShowNothing => event matches Some(Event::DocumentClosed),
            _ => event is None,
        },
{
    match effect {
        Effect::Relayout { pages } => Some(Event::PagesReordered { page_count: *pages }),
        Effect::ShowDocument { path, pages } => Some(
            Event::DocumentOpened { path: String::from_str(path.as_str()), page_count: *pages },
        ),
        Effect::ShowNothing => Some(Event::DocumentClosed),
        _ => None,
    }
}

/// The event that goes with a save that has finished.
pub fn event_for_save(saved: &Saved) -> (event: Event)
    ensures
        match saved.error {
            None => event matches Event::Saved { path } && path@ == saved.path@,
            Some(message) => event matches Event::SaveFailed { error } && error@ == message@,
        },
{
    match &saved.error {
        None => Event::Saved { path: String::from_str(saved.path.as_str()) },
        Some(message) => Event::SaveFailed { error: String::from_str(message.as_str()) },
    }
}

/// Notices when everything that was asked for has been done.
#[derive(Debug)]
pub struct IdleWatch {
    was_settled: bool,
}

impl IdleWatch {
    /// Whether nothing was outstanding when last asked.
    pub closed spec fn spec_was_settled(&self) -> bool {
        self.was_settled
    }

    /// Nothing has been asked for yet, so nothing is outstanding.
    pub fn new() -> (watch: IdleWatch)
        ensures
            watch.spec_was_settled(),
    {
        IdleWatch { was_settled: true }
    }

    /// Whether to say that the program is idle: once, when it becomes so.
    pub fn becomes_idle(&mut self, settled: bool) -> (report: bool)
        ensures
            report == (settled && !old(self).spec_was_settled()),
            final(self).spec_was_settled() == settled,
    {
        let report = settled && !self.was_settled;
        self.was_settled = settled;
        report
    }
}

} // verus!
