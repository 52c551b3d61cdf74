//! Replacing a file whole, or not at all.
//!
//! The new contents are written beside the destination and renamed into place, so that whatever
//! goes wrong the file at the destination is either the old one or the new one.

use vstd::prelude::*;
use vstd::string::*;

use crate::save::{SaveError, SaveErrorView};
use crate::text;

verus! {

/// Where the new contents are written before they replace the old. Beside the destination,
/// because a rename across volumes is a copy.
pub open spec fn partial_path(destination: Seq<char>) -> Seq<char> {
    destination + ".porpoise-partial"@
}

/// What is to be done next on disk.
#[derive(Debug, PartialEq, Eq)]
pub enum Act {
    /// Write the new contents here.
    Write { to: String },
    /// Put what was written in place of the destination.
    Rename { from: String, to: String },
    /// Take away what was written.
    Remove { path: String },
    /// Nothing: it has come to an end.
    End(Result<(), SaveError>),
}

/// What is to be done next on disk, by its texts.
#[verifier::ext_equal]
pub enum ActView {
    Write { to: Seq<char> },
    Rename { from: Seq<char>, to: Seq<char> },
    Remove { path: Seq<char> },
    End(Option<SaveErrorView>),
}

impl View for Act {
    type V = ActView;

    open spec fn view(&self) -> ActView {
        match self {
            Act::Write { to } => ActView::Write { to: to@ },
            Act::Rename { from, to } => ActView::Rename { from: from@, to: to@ },
            Act::Remove { path } => ActView::Remove { path: path@ },
            Act::End(Ok(())) => ActView::End(None),
            Act::End(Err(error)) => ActView::End(Some(error@)),
        }
    }
}

/// How far a replacement has come.
#[derive(Debug)]
enum Progress {
    Writing,
    Renaming,
    /// Taking away what was written, because it could not be renamed for a reason.
    Removing(String),
    Ended,
}

/// How far a replacement has come, by its text.
#[verifier::ext_equal]
pub enum ProgressView {
    Writing,
    Renaming,
    Removing(Seq<char>),
    Ended,
}

/// A file being replaced.
#[derive(Debug)]
pub struct Replacement {
    destination: String,
    progress: Progress,
}

/// A file being replaced, by its texts.
#[verifier::ext_equal]
pub struct ReplacementView {
    pub destination: Seq<char>,
    pub progress: ProgressView,
}

impl View for Replacement {
    type V = ReplacementView;

    closed spec fn view(&self) -> ReplacementView {
        ReplacementView {
            destination: self.destination@,
            progress: match self.progress {
                Progress::Writing => ProgressView::Writing,
                Progress::Renaming => ProgressView::Renaming,
                Progress::Removing(reason) => ProgressView::Removing(reason@),
                Progress::Ended => ProgressView::Ended,
            },
        }
    }
}

/// The failure that a replacement ends with.
pub open spec fn write_error(destination: Seq<char>, detail: Seq<char>) -> SaveErrorView {
    SaveErrorView::Write { path: destination, detail }
}

impl ReplacementView {
    /// How it goes on after what was last asked for succeeded, or failed for a reason. That what
    /// was written could not be taken away again is not worth more than the failure before it.
    pub open spec fn next(self, failure: Option<Seq<char>>) -> (ReplacementView, ActView) {
        let partial = partial_path(self.destination);
        let ended = ReplacementView { progress: ProgressView::Ended, ..self };
        match self.progress {
            ProgressView::Writing => match failure {
                None => (
                    ReplacementView { progress: ProgressView::Renaming, ..self },
                    ActView::Rename { from: partial, to: self.destination },
                ),
                Some(reason) => (
                    ended,
                    ActView::End(Some(write_error(self.destination, reason))),
                ),
            },
            ProgressView::Renaming => match failure {
                None => (ended, ActView::End(None)),
                Some(reason) => (
                    ReplacementView { progress: ProgressView::Removing(reason), ..self },
                    ActView::Remove { path: partial },
                ),
            },
            ProgressView::Removing(reason) => (
                ended,
                ActView::End(Some(write_error(self.destination, reason))),
            ),
            ProgressView::Ended => (ended, ActView::End(None)),
        }
    }
}

/// Where the new contents are written before they replace the old.
fn beside(destination: &str) -> (path: String)
    ensures
        path@ == partial_path(destination@),
{
    text::joined(destination, ".porpoise-partial")
}

impl Replacement {
    /// Starts to replace the file at `destination`, with what is to be done first.
    pub fn start(destination: &str) -> (started: (Replacement, Act))
        ensures
            started.0@ == (ReplacementView {
                destination: destination@,
                progress: ProgressView::Writing,
            }),
            started.1@ == (ActView::Write { to: partial_path(destination@) }),
    {
        let to = beside(destination);
        (
            Replacement {
                destination: String::from_str(destination),
                progress: Progress::Writing,
            },
            Act::Write { to },
        )
    }

    /// Goes on after what was last asked for succeeded, or failed for a reason. Once it has come
    /// to an end it goes no further.
    pub fn next(&mut self, outcome: Result<(), String>) -> (act: Act)
        requires
            !(old(self)@.progress is Ended),
        ensures
            (final(self)@, act@) == old(self)@.next(
                match outcome {
                    Ok(()) => None,
                    Err(reason) => Some(reason@),
                },
            ),
    {
        let mut progress = Progress::Ended;
        std::mem::swap(&mut progress, &mut self.progress);
        match (progress, outcome) {
            (Progress::Writing, Ok(())) => {
                self.progress = Progress::Renaming;
                Act::Rename {
                    from: beside(self.destination.as_str()),
                    to: String::from_str(self.destination.as_str()),
                }
            },
            (Progress::Writing, Err(detail)) => Act::End(
                Err(SaveError::Write { path: String::from_str(self.destination.as_str()), detail }),
            ),
            (Progress::Renaming, Ok(())) => Act::End(Ok(())),
            (Progress::Renaming, Err(reason)) => {
                self.progress = Progress::Removing(reason);
                Act::Remove { path: beside(self.destination.as_str()) }
            },
            (Progress::Removing(detail), _) => Act::End(
                Err(SaveError::Write { path: String::from_str(self.destination.as_str()), detail }),
            ),
            (Progress::Ended, _) => Act::End(Ok(())),
        }
    }
}

/// What is done on disk, for the outcomes that it has, after what is done first.
pub open spec fn acts(start: ReplacementView, outcomes: Seq<Option<Seq<char>>>) -> Seq<ActView>
    decreases outcomes.len(),
{
    if outcomes.len() == 0 {
        Seq::empty()
    } else {
        let (after, act) = start.next(outcomes.first());
        seq![act] + acts(after, outcomes.drop_first())
    }
}

/// Whether an act changes the file at `path` otherwise than by putting a whole one in its
/// place.
pub open spec fn disturbs(act: ActView, path: Seq<char>) -> bool {
    match act {
        ActView::Write { to } => to == path,
        ActView::Rename { from, .. } => from == path,
        ActView::Remove { path: removed } => removed == path,
        ActView::End(_) => false,
    }
}

/// Whatever happens on disk, the file at the destination is never written to or taken away: at
/// most a whole file, which has been written completely, is put in its place.
pub proof fn law_the_destination_is_replaced_whole_or_not_at_all(
    replacement: ReplacementView,
    outcomes: Seq<Option<Seq<char>>>,
    i: int,
)
    requires
        0 <= i < acts(replacement, outcomes).len(),
    ensures
        !disturbs(acts(replacement, outcomes)[i], replacement.destination),
        acts(replacement, outcomes)[i] is Rename ==> i == 0 && replacement.progress is Writing
            && outcomes[0] is None,
    decreases outcomes.len(),
{
    reveal_strlit(".porpoise-partial");
    let destination = replacement.destination;
    assert(partial_path(destination).len() == destination.len() + 17);
    let (after, act) = replacement.next(outcomes.first());
    if i > 0 {
        let rest = outcomes.drop_first();
        assert(acts(replacement, outcomes)[i] == acts(after, rest)[i - 1]);
        law_the_destination_is_replaced_whole_or_not_at_all(after, rest, i - 1);
    } else {
        assert(acts(replacement, outcomes)[0] == act);
    }
}

/// A file that could not be put in place is not left behind.
pub proof fn law_a_file_that_cannot_be_placed_is_taken_away(
    destination: Seq<char>,
    reason: Seq<char>,
    removal: Option<Seq<char>>,
)
    ensures
        ({
            let start = ReplacementView { destination, progress: ProgressView::Writing };
            acts(start, seq![None, Some(reason), removal]) == seq![
                ActView::Rename { from: partial_path(destination), to: destination },
                ActView::Remove { path: partial_path(destination) },
                ActView::End(Some(write_error(destination, reason))),
            ]
        }),
{
    let outcomes = seq![None, Some(reason), removal];
    assert(outcomes.drop_first() =~= seq![Some(reason), removal]);
    assert(seq![Some(reason), removal].drop_first() =~= seq![removal]);
    assert(seq![removal].drop_first() =~= Seq::<Option<Seq<char>>>::empty());
    reveal_with_fuel(acts, 4);
    let start = ReplacementView { destination, progress: ProgressView::Writing };
    assert(acts(start, outcomes) =~= seq![
        ActView::Rename { from: partial_path(destination), to: destination },
        ActView::Remove { path: partial_path(destination) },
        ActView::End(Some(write_error(destination, reason))),
    ]);
}

} // verus!
