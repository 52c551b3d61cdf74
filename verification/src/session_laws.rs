//! What holds of a session whatever is asked of it.

use vstd::prelude::*;

use crate::command::CommandView;
use crate::confirm;
use crate::confirm::{Answer, GuardView, IntentView};
use crate::document;
use crate::document::{DocumentView, StagedView};
use crate::grid::GridMode;
use crate::order;
use crate::order::Source;
use crate::order_laws;
use crate::picker::Purpose;
use crate::save::Overwrite;
use crate::selection;
use crate::selection::SelectionView;
use crate::session;
use crate::session::{After, EffectView, ReadView, ResultView, SessionView, StepView};
use crate::snapshot;
use crate::view::{Outcome, PageNumber};

verus! {

/// Whether a step takes the document away: it closes the window, shows another document or
/// shows none.
pub open spec fn takes_the_document_away(step: StepView) -> bool {
    match step {
        StepView::Done { effect: EffectView::CloseWindow, .. } => true,
        StepView::Done { effect: EffectView::ShowNothing, .. } => true,
        StepView::Done { effect: EffectView::ShowDocument { .. }, .. } => true,
        StepView::Read(read) => read.purpose == Purpose::Open,
        _ => false,
    }
}

/// Unsaved page changes are never lost without an answer: nothing but an answer takes away a
/// document that has any, unless the window is closing already.
#[verifier::rlimit(50)]
pub proof fn law_unsaved_changes_are_not_lost_without_an_answer(
    session: SessionView,
    command: CommandView,
    saving: bool,
)
    requires
        session.unsaved(),
        !session.quitting,
        !(command is Answer),
    ensures
        !takes_the_document_away(session.dispatched(command, saving).step),
        session.dispatched(command, saving).session.open is Some,
        !session.dispatched(command, saving).session.quitting,
{
    match command {
        CommandView::View(_) => {},
        CommandView::Open { .. } => {},
        CommandView::Close => {},
        CommandView::InsertFile { .. } => {},
        CommandView::StageDocument { .. } => {},
        CommandView::ClearStaging => {},
        CommandView::InsertPages { .. } => {},
        CommandView::SetStagedSelection { .. } => {},
        CommandView::SetActiveStage { .. } => {},
        CommandView::Capture { .. } => {},
        CommandView::MovePage { .. } => {},
        CommandView::MovePages { .. } => {},
        CommandView::DeletePage { .. } => {},
        CommandView::DeletePages { .. } => {},
        CommandView::SetPageFilter { .. } => {},
        CommandView::SetSelection { .. } => {},
        CommandView::Undo => {},
        CommandView::Save => {},
        CommandView::SaveAs { .. } => {},
        CommandView::SetThumbnails { .. } => {},
        CommandView::SetGridMode { .. } => {},
        CommandView::Answer { .. } => {},
        CommandView::Quit => {},
    }
}

/// A command that is held back does nothing but raise the question, in place of any that was
/// up.
pub proof fn law_a_question_changes_nothing_else(
    session: SessionView,
    command: CommandView,
    saving: bool,
)
    requires
        session.holds_back(command),
    ensures
        ({
            let after = session.dispatched(command, saving);
            &&& after.step == (StepView::Done {
                result: ResultView::NeedsAnswer,
                effect: EffectView::Nothing,
            })
            &&& after.session == (SessionView { guard: after.session.guard, ..session })
            &&& after.session.guard == Some(
                GuardView::Asking(confirm::intent_in(command)->0),
            )
        }),
{
}

/// An answer when nothing was asked does nothing.
pub proof fn law_a_stray_answer_does_nothing(session: SessionView, choice: Answer, saving: bool)
    requires
        !(session.guard matches Some(GuardView::Asking(_))),
    ensures
        session.dispatched(CommandView::Answer { choice }, saving) == session.done(
            ResultView::Unchanged,
        ),
{
}

/// Cancelling puts everything back as it was before the question.
pub proof fn law_cancelling_changes_nothing(
    session: SessionView,
    command: CommandView,
    saving: bool,
)
    requires
        session.holds_back(command),
        session.guard is None,
    ensures
        ({
            let asked = session.dispatched(command, saving).session;
            let after = asked.dispatched(CommandView::Answer { choice: Answer::Cancel }, saving);
            &&& after.session == session
            &&& after.step == (StepView::Done {
                result: ResultView::Cancelled,
                effect: EffectView::Nothing,
            })
        }),
{
}

/// Discarding carries out what was held back, exactly as if there had been nothing to lose.
pub proof fn law_discarding_carries_out_what_was_asked(
    session: SessionView,
    command: CommandView,
    saving: bool,
)
    requires
        session.holds_back(command),
    ensures
        ({
            let asked = session.dispatched(command, saving).session;
            let after = asked.dispatched(CommandView::Answer { choice: Answer::Discard }, saving);
            let free = SessionView { guard: None, ..session };
            after == free.carried_out(command, saving).noted()
        }),
{
}

/// Saving first writes the document over its own file before anything else happens. Once that
/// has succeeded nothing is unsaved and what was held back is carried out; if pages were moved
/// meanwhile that is carried out all the same, because it was asked for.
pub proof fn law_saving_first_writes_before_going_ahead(
    session: SessionView,
    command: CommandView,
)
    requires
        session.holds_back(command),
    ensures
        ({
            let document = session.open->0;
            let asked = session.dispatched(command, false).session;
            let begun = asked.dispatched(CommandView::Answer { choice: Answer::Save }, false);
            let finished = begun.session.save_finished(
                document.primary_path(),
                document.order.order,
                None,
            );
            &&& begun.step == (StepView::Done {
                result: ResultView::Saving,
                effect: EffectView::Save {
                    destination: document.primary_path(),
                    overwrite: Overwrite::Allow,
                },
            })
            &&& begun.session == (SessionView {
                guard: Some(GuardView::Saving(confirm::intent_in(command)->0)),
                ..session
            })
            &&& finished.1 is Some
            &&& takes_the_document_away(finished.1->0)
            &&& !finished.0.unsaved()
        }),
{
}

/// While a save that was asked for first is running, nothing goes ahead: an answer does
/// nothing.
pub proof fn law_a_question_is_answered_once(
    session: SessionView,
    intent: IntentView,
    choice: Answer,
    saving: bool,
)
    requires
        session.guard == Some(GuardView::Saving(intent)),
    ensures
        session.dispatched(CommandView::Answer { choice }, saving) == session.done(
            ResultView::Unchanged,
        ),
{
}

/// A save that fails loses nothing: the document and its unsaved changes are as they were, the
/// reason is reported, and what waited for the save is asked about again.
pub proof fn law_a_failed_save_asks_again(
    session: SessionView,
    path: Seq<char>,
    written: Seq<Source>,
    error: Seq<char>,
)
    ensures
        ({
            let (after, step) = session.save_finished(path, written, Some(error));
            &&& step is None
            &&& after.open == session.open
            &&& after.unsaved() == session.unsaved()
            &&& after.quitting == session.quitting
            &&& after.last_error == Some(error)
            &&& session.guard matches Some(GuardView::Saving(intent)) ==> after.guard == Some(
                GuardView::Asking(intent),
            )
        }),
{
}

/// A save that cannot start leaves the question up rather than going ahead without it.
pub proof fn law_a_save_that_cannot_start_leaves_the_question(
    session: SessionView,
    intent: IntentView,
)
    requires
        session.guard == Some(GuardView::Asking(intent)),
        session.unsaved(),
    ensures
        ({
            let after = session.answered(Answer::Save, true);
            &&& after.session == session
            &&& after.step matches StepView::Done { result: ResultView::Failed(_), .. }
        }),
{
}

/// Saving first with nothing left to write just goes ahead.
pub proof fn law_saving_nothing_goes_ahead(
    session: SessionView,
    intent: IntentView,
    saving: bool,
)
    requires
        session.guard == Some(GuardView::Asking(intent)),
        !session.unsaved(),
    ensures
        session.answered(Answer::Save, saving) == (SessionView {
            guard: None,
            ..session
        }).intended(intent, true),
{
}

/// Once the window has been told to close for real, being told again closes it again rather
/// than asking.
pub proof fn law_a_closing_window_closes(session: SessionView, saving: bool)
    requires
        session.quitting,
    ensures
        session.dispatched(CommandView::Quit, saving).step == (StepView::Done {
            result: ResultView::Quitting,
            effect: EffectView::CloseWindow,
        }),
{
}

/// A file that will not open leaves everything as it was, but for the reason.
pub proof fn law_a_failed_open_keeps_the_document(
    session: SessionView,
    read: ReadView,
    reason: Seq<char>,
)
    ensures
        ({
            let after = session.file_read(read, Err(reason));
            &&& after.session == (SessionView {
                last_error: after.session.last_error,
                ..session
            })
            &&& after.step == (StepView::Done {
                result: ResultView::Failed(reason),
                effect: EffectView::Nothing,
            })
            &&& read.reported ==> after.session.last_error == Some(reason)
        }),
{
}

/// A command that fails changes nothing but the reason reported.
#[verifier::rlimit(50)]
pub proof fn law_a_failure_changes_nothing_else(
    session: SessionView,
    command: CommandView,
    saving: bool,
)
    ensures
        session.dispatched(command, saving).step matches StepView::Done {
            result: ResultView::Failed(message),
            ..
        } ==> session.dispatched(command, saving).session == (SessionView {
            last_error: Some(message),
            ..session
        }),
{
    match command {
        CommandView::View(_) => {},
        CommandView::Open { .. } => {},
        CommandView::Close => {},
        CommandView::InsertFile { .. } => {},
        CommandView::StageDocument { .. } => {},
        CommandView::ClearStaging => {},
        CommandView::InsertPages { .. } => {},
        CommandView::SetStagedSelection { .. } => {},
        CommandView::SetActiveStage { .. } => {},
        CommandView::Capture { .. } => {},
        CommandView::MovePage { .. } => {},
        CommandView::MovePages { .. } => {},
        CommandView::DeletePage { .. } => {},
        CommandView::DeletePages { .. } => {},
        CommandView::SetPageFilter { .. } => {},
        CommandView::SetSelection { .. } => {},
        CommandView::Undo => {},
        CommandView::Save => {},
        CommandView::SaveAs { .. } => {},
        CommandView::SetThumbnails { .. } => {},
        CommandView::SetGridMode { .. } => {},
        CommandView::Answer { .. } => {},
        CommandView::Quit => {},
    }
}

/// A command that reports that nothing changed has changed nothing.
#[verifier::rlimit(50)]
pub proof fn law_unchanged_means_unchanged(
    session: SessionView,
    command: CommandView,
    saving: bool,
)
    ensures
        session.dispatched(command, saving).step matches StepView::Done {
            result: ResultView::Unchanged,
            ..
        } ==> session.dispatched(command, saving).session == session,
{
}

/// A document that has been saved as it is shown has no unsaved changes, and its file is the
/// one that was written.
pub proof fn law_a_saved_document_has_no_unsaved_changes(
    session: SessionView,
    document: DocumentView,
    path: Seq<char>,
)
    requires
        session.open == Some(document),
        document.wf(),
        session.guard is None,
    ensures
        ({
            let (after, step) = session.save_finished(path, document.order.order, None);
            &&& step is None
            &&& !after.unsaved()
            &&& after.open is Some
            &&& after.open->0.primary_path() == path
            &&& after.open->0.order.order == document.order.order
        }),
{
}

/// Edits made while a save runs are still unsaved when it has finished.
pub proof fn law_edits_made_during_a_save_stay_unsaved(
    session: SessionView,
    path: Seq<char>,
    written: Seq<Source>,
)
    requires
        session.open is Some,
        session.guard is None,
        session.open->0.order.order != written,
    ensures
        session.save_finished(path, written, None).0.unsaved(),
{
}

/// A document that was saved is not written over itself again, and that is said even while a
/// save is running.
pub proof fn law_an_unedited_document_is_not_saved_over_itself(session: SessionView, saving: bool)
    requires
        session.open is Some,
        !session.unsaved(),
    ensures
        session.dispatched(CommandView::Save, saving) == session.done(ResultView::Unchanged),
{
}

/// Two saves never run at once.
#[verifier::rlimit(50)]
pub proof fn law_one_save_at_a_time(session: SessionView, command: CommandView)
    ensures
        !(session.dispatched(command, true).step matches StepView::Done {
            effect: EffectView::Save { .. },
            ..
        }),
{
    match command {
        CommandView::View(_) => {},
        CommandView::Open { .. } => {},
        CommandView::Close => {},
        CommandView::InsertFile { .. } => {},
        CommandView::StageDocument { .. } => {},
        CommandView::ClearStaging => {},
        CommandView::InsertPages { .. } => {},
        CommandView::SetStagedSelection { .. } => {},
        CommandView::SetActiveStage { .. } => {},
        CommandView::Capture { .. } => {},
        CommandView::MovePage { .. } => {},
        CommandView::MovePages { .. } => {},
        CommandView::DeletePage { .. } => {},
        CommandView::DeletePages { .. } => {},
        CommandView::SetPageFilter { .. } => {},
        CommandView::SetSelection { .. } => {},
        CommandView::Undo => {},
        CommandView::Save => {},
        CommandView::SaveAs { .. } => {},
        CommandView::SetThumbnails { .. } => {},
        CommandView::SetGridMode { .. } => {},
        CommandView::Answer { .. } => {},
        CommandView::Quit => {},
    }
}

/// Staging a document is no edit: what is shown, what is saved and what can be undone stay as
/// they were, and the document staged is the one that shows.
pub proof fn law_staging_is_no_edit(
    session: SessionView,
    read: ReadView,
    page_count: usize,
)
    requires
        session.open is Some,
        read.purpose == Purpose::Stage,
        page_count > 0,
    ensures
        ({
            let before = session.open->0;
            let after = session.file_read(read, Ok(page_count)).session;
            &&& after.open is Some
            &&& after.open->0.order.order == before.order.order
            &&& after.open->0.order.saved == before.order.saved
            &&& after.open->0.order.history == before.order.history
            &&& after.unsaved() == session.unsaved()
            &&& after.active_stage == Some(before.next_stage)
        }),
{
}

/// Putting a staged document away touches no page that was placed from it.
pub proof fn law_putting_a_stage_away_keeps_what_was_placed(session: SessionView, stage: usize)
    requires
        session.open is Some,
    ensures
        session.stage_closed(stage).session.open is Some,
        session.stage_closed(stage).session.open->0.order == session.open->0.order,
        session.stage_closed(stage).session.open->0.files == session.open->0.files,
        session.staging_cleared().session.open is Some,
        session.staging_cleared().session.open->0.order == session.open->0.order,
        session.staging_cleared().session.open->0.files == session.open->0.files,
{
}

/// Putting a staged document away leaves the others as they are: they stay staged, with what is
/// picked out of them, and the one showing goes on showing. Putting it away again changes
/// nothing.
pub proof fn law_putting_a_stage_away_leaves_the_others(
    session: SessionView,
    stage: usize,
    other: StagedView,
)
    requires
        session.open is Some,
        other.id != stage,
    ensures
        ({
            let after = session.stage_closed(stage).session;
            &&& after.open->0.staging.contains(other) == session.open->0.staging.contains(other)
            &&& after.staged_selections.contains_key(other.id)
                == session.staged_selections.contains_key(other.id)
            &&& session.staged_selections.contains_key(other.id)
                ==> after.staged_selections[other.id] == session.staged_selections[other.id]
            &&& session.active_stage == Some(other.id) ==> after.active_stage == Some(other.id)
            &&& after.stage_closed(stage) == after.done(ResultView::Unchanged)
        }),
{
    broadcast use vstd::seq_lib::group_filter_ensures;

    let staging = session.open->0.staging;
    let keep = |staged: StagedView| staged.id != stage;
    let rest = document::without(staging, stage);
    assert(rest == staging.filter(keep));
    lemma_filtered_twice(staging, keep);
    if rest.len() == staging.len() {
        lemma_filter_keeps_all(staging, keep);
    }
    assert(document::without(rest, stage) == rest);
    assert(rest.contains(other) == staging.contains(other)) by {
        assert(keep(other));
        if rest.contains(other) {
            staging.lemma_filter_contains_rev(keep, other);
        }
    }
}

/// Filtering by the same test again takes out no more.
proof fn lemma_filtered_twice(staging: Seq<StagedView>, keep: spec_fn(StagedView) -> bool)
    ensures
        staging.filter(keep).filter(keep) == staging.filter(keep),
    decreases staging.len(),
{
    reveal(Seq::filter);
    if staging.len() > 0 {
        let front = staging.drop_last();
        lemma_filtered_twice(front, keep);
        if keep(staging.last()) {
            assert(front.filter(keep).push(staging.last()).drop_last() =~= front.filter(keep));
        }
    }
}

/// A filter that leaves as many as there were leaves them all.
proof fn lemma_filter_keeps_all(staging: Seq<StagedView>, keep: spec_fn(StagedView) -> bool)
    requires
        staging.filter(keep).len() == staging.len(),
    ensures
        staging.filter(keep) == staging,
    decreases staging.len(),
{
    reveal(Seq::filter);
    if staging.len() > 0 {
        let front = staging.drop_last();
        broadcast use vstd::seq_lib::group_filter_ensures;

        assert(front.filter(keep).len() <= front.len());
        lemma_filter_keeps_all(front, keep);
        assert(staging =~= front.push(staging.last()));
    }
}

/// Every id in use is one that has been handed out.
pub open spec fn ids_handed_out(document: DocumentView) -> bool {
    forall|i: int|
        0 <= i < document.staging.len() ==> (#[trigger] document.staging[i]).id
            < document.next_stage
}

/// A document that is staged gets an id that no document staged before it has, until the
/// numbers run out; and putting one away frees no id.
pub proof fn law_a_stage_id_is_never_reused(
    document: DocumentView,
    path: Seq<char>,
    page_count: usize,
    cleared: usize,
)
    requires
        ids_handed_out(document),
        document.next_stage < usize::MAX,
    ensures
        document::document_of(document.staging, document.next_stage) is None,
        ids_handed_out(document.with_staged(path, page_count)),
        ids_handed_out(document.without_stage(cleared)),
        document.without_stage(cleared).next_stage == document.next_stage,
{
    lemma_not_in_use(document.staging, document.next_stage);
    let more = document.with_staged(path, page_count);
    assert forall|i: int| 0 <= i < more.staging.len() implies (#[trigger] more.staging[i]).id
        < more.next_stage by {
        if i < document.staging.len() {
            assert(more.staging[i] == document.staging[i]);
        }
    }
    let fewer = document.without_stage(cleared);
    assert forall|i: int| 0 <= i < fewer.staging.len() implies (#[trigger] fewer.staging[i]).id
        < fewer.next_stage by {
        document.staging.filter_lemma(|staged: StagedView| staged.id != cleared);
        assert(document.staging.contains(fewer.staging[i])) by {
            document.staging.lemma_filter_contains_rev(
                |staged: StagedView| staged.id != cleared,
                fewer.staging[i],
            );
        }
        let k = choose|k: int|
            0 <= k < document.staging.len() && document.staging[k] == fewer.staging[i];
        assert(document.staging[k].id < document.next_stage);
    }
}

/// An id larger than all in use is not in use.
proof fn lemma_not_in_use(staging: Seq<StagedView>, id: usize)
    requires
        forall|i: int| 0 <= i < staging.len() ==> (#[trigger] staging[i]).id < id,
    ensures
        document::document_of(staging, id) is None,
    decreases staging.len(),
{
    if staging.len() > 0 {
        assert(staging[0].id < id);
        let rest = staging.drop_first();
        assert forall|i: int| 0 <= i < rest.len() implies (#[trigger] rest[i]).id < id by {
            assert(rest[i] == staging[i + 1]);
        }
        lemma_not_in_use(rest, id);
    }
}

/// A question that is being asked waits for its answer, whatever comes of a save meanwhile.
pub proof fn law_a_question_waits_for_its_answer(
    session: SessionView,
    path: Seq<char>,
    written: Seq<Source>,
    error: Option<Seq<char>>,
)
    requires
        session.guard matches Some(GuardView::Asking(_)),
    ensures
        session.save_finished(path, written, error).0.guard == session.guard,
        session.save_finished(path, written, error).1 is None,
{
}

/// Pages that can no longer be seen to be picked out are not: hiding the grid, narrowing it and
/// turning it to another mode than the one that picks pages out all forget which were.
pub proof fn law_nothing_hidden_stays_picked_out(
    session: SessionView,
    query: Seq<char>,
    mode: GridMode,
    saving: bool,
)
    ensures
        session.thumbnails ==> session.dispatched(
            CommandView::SetThumbnails { visible: false },
            saving,
        ).session.selection == SelectionView::none(),
        session.page_filter != query ==> session.dispatched(
            CommandView::SetPageFilter { query },
            saving,
        ).session.selection == SelectionView::none(),
        session.grid_mode != mode && mode != GridMode::Reorganize ==> session.dispatched(
            CommandView::SetGridMode { mode },
            saving,
        ).session.selection == SelectionView::none(),
{
}

/// What a command that only changes what is looked at comes to: it says so and has nothing left
/// to do outside, no page stays picked out, and the same command again is said to change
/// nothing, and changes nothing. Dispatching it is carrying it out.
pub open spec fn forgets_once(session: SessionView, command: CommandView, saving: bool) -> bool {
    let once = session.carried_out(command, saving);
    let twice = once.session.carried_out(command, saving);
    &&& session.dispatched(command, saving) == once
    &&& once.session.dispatched(command, saving) == twice
    &&& once.step == (StepView::Done {
        result: ResultView::View(Outcome::Changed),
        effect: EffectView::Nothing,
    })
    &&& once.session.selection == SelectionView::none()
    &&& twice.session == once.session
    &&& twice.step == (StepView::Done {
        result: ResultView::Unchanged,
        effect: EffectView::Nothing,
    })
}

/// Hiding the grid, turning it to another mode than the one that picks pages out and changing
/// the filter each forget which pages were picked out, once: asking for the same again changes
/// nothing.
pub proof fn law_the_selection_is_forgotten_once(
    session: SessionView,
    query: Seq<char>,
    mode: GridMode,
    saving: bool,
)
    ensures
        session.thumbnails ==> forgets_once(
            session,
            CommandView::SetThumbnails { visible: false },
            saving,
        ),
        session.grid_mode != mode && mode != GridMode::Reorganize ==> forgets_once(
            session,
            CommandView::SetGridMode { mode },
            saving,
        ),
        session.page_filter != query ==> forgets_once(
            session,
            CommandView::SetPageFilter { query },
            saving,
        ),
{
}

/// The grid keeps its mode while it is closed.
pub proof fn law_hiding_the_grid_keeps_its_mode(
    session: SessionView,
    visible: bool,
    saving: bool,
)
    ensures
        session.dispatched(CommandView::SetThumbnails { visible }, saving).session.grid_mode
            == session.grid_mode,
{
    let command = CommandView::SetThumbnails { visible };
    assert(confirm::intent_in(command) is None);
    assert(session.carried_out(command, saving) == session.thumbnails_set(visible));
}

/// Whatever is asked for, the program is not called idle while a question is up or a save is
/// running.
pub proof fn law_idle_means_that_nothing_is_outstanding(
    session: SessionView,
    moving: bool,
    saving: bool,
    drawing: bool,
)
    requires
        snapshot::is_settled(session, moving, saving, drawing),
    ensures
        session.guard is None,
        !saving,
        !moving,
        session.open is Some ==> !drawing,
{
}

/// Moving the page on screen by one position is carried out whenever it is offered, unless the
/// page beside it is the same page of the same file: then there is nothing to see of it.
pub proof fn law_an_offered_move_is_carried_out(
    session: SessionView,
    from: PageNumber,
    to: PageNumber,
    saving: bool,
)
    requires
        session.open is Some,
        session.open->0.order.order.len() <= usize::MAX,
        1 <= from.spec_get() <= session.open->0.order.order.len(),
        1 <= to.spec_get() <= session.open->0.order.order.len(),
        to.spec_get() == from.spec_get() + 1 || to.spec_get() == from.spec_get() - 1,
        session.open->0.order.order[from.spec_get() - 1] != session.open->0.order.order[to.spec_get()
            - 1],
    ensures
        session.dispatched(
            CommandView::MovePage { from: from.spec_get(), to: to.spec_get() },
            saving,
        ).step matches StepView::Done { result: ResultView::Edited, .. },
{
    let shown = session.open->0.order;
    let start = (from.spec_get() - 1) as usize;
    let end = (to.spec_get() - 1) as usize;
    assert(session::positions(seq![from.spec_get()]) =~= seq![start]);
    order_laws::law_a_moved_page_sits_where_asked(shown, start, end);
    assert(shown.moved(seq![start], end).order[end as int] != shown.order[end as int]);
}

/// Undoing is carried out whenever it is offered.
pub proof fn law_an_offered_undo_is_carried_out(session: SessionView, saving: bool)
    requires
        session.open is Some,
        session.open->0.order.history.len() > 0,
    ensures
        session.dispatched(CommandView::Undo, saving).step matches StepView::Done {
            result: ResultView::Edited,
            ..
        },
{
}

/// Saving is started whenever it is offered: with changes to write, and no save running.
pub proof fn law_an_offered_save_is_started(session: SessionView)
    requires
        session.unsaved(),
    ensures
        session.dispatched(CommandView::Save, false) == (After {
            session,
            step: StepView::Done {
                result: ResultView::Saving,
                effect: EffectView::Save {
                    destination: session.open->0.primary_path(),
                    overwrite: Overwrite::Allow,
                },
            },
        }),
{
}

/// Deleting the page on screen is carried out whenever it is offered.
pub proof fn law_an_offered_delete_is_carried_out(
    session: SessionView,
    current: PageNumber,
    saving: bool,
)
    requires
        session.open is Some,
        1 < session.open->0.order.order.len() <= usize::MAX,
        1 <= current.spec_get() <= session.open->0.order.order.len(),
    ensures
        session.dispatched(
            CommandView::DeletePage { page: current.spec_get() },
            saving,
        ).step matches StepView::Done { result: ResultView::Edited, .. },
{
    let shown = session.open->0.order;
    let position = (current.spec_get() - 1) as usize;
    assert(session::positions(seq![current.spec_get()]) =~= seq![position]);
    order_laws::law_removing_one_page(shown, position);
}

/// Fewer positions than pages leave a page out.
proof fn lemma_a_position_is_missing(positions: Seq<usize>, count: nat) -> (missing: usize)
    requires
        positions.len() < count <= usize::MAX,
    ensures
        missing < count,
        !positions.contains(missing),
    decreases count,
{
    let last = (count - 1) as usize;
    if !positions.contains(last) {
        last
    } else {
        let at = choose|i: int| 0 <= i < positions.len() && positions[i] == last;
        let rest = positions.remove(at);
        let missing = lemma_a_position_is_missing(rest, (count - 1) as nat);
        if positions.contains(missing) {
            let i = choose|i: int| 0 <= i < positions.len() && positions[i] == missing;
            assert(i != at);
            if i < at {
                assert(rest[i] == missing);
            } else {
                assert(rest[i - 1] == missing);
            }
        }
        missing
    }
}

/// A page whose position is not named is left.
proof fn lemma_a_page_is_left(shown: Seq<Source>, positions: Seq<usize>, position: usize)
    requires
        position < shown.len(),
        shown.len() <= usize::MAX,
        !positions.contains(position),
    ensures
        order::select(shown, positions, false).len() > 0,
    decreases shown.len(),
{
    if position < shown.len() - 1 {
        lemma_a_page_is_left(shown.drop_last(), positions, position);
    }
}

/// Deleting the pages that are picked out is carried out whenever it is offered: some are,
/// and they are not all there are.
pub proof fn law_an_offered_group_delete_is_carried_out(session: SessionView, saving: bool)
    requires
        session.open is Some,
        session.open->0.order.order.len() <= usize::MAX,
        0 < snapshot::selected_in(session).len() < session.open->0.order.order.len(),
    ensures
        session.dispatched(
            CommandView::DeletePages { pages: snapshot::selected_in(session) },
            saving,
        ).step matches StepView::Done { result: ResultView::Edited, .. },
{
    let shown = session.open->0.order;
    let chosen = selection::chosen_positions(shown.order, session.selection.chosen);
    let positions = session::positions(snapshot::selected_in(session));
    selection::law_positions_are_where_the_chosen_pages_are(shown.order, session.selection.chosen);
    assert(positions =~= chosen);
    let missing = lemma_a_position_is_missing(positions, shown.order.len());
    lemma_a_page_is_left(shown.order, positions, missing);
}

/// Undoing right after an edit puts back what was shown before it.
#[verifier::rlimit(50)]
pub proof fn law_undo_takes_back_an_edit(
    session: SessionView,
    command: CommandView,
    saving: bool,
)
    requires
        session.wf(),
        session.dispatched(command, saving).step matches StepView::Done {
            result: ResultView::Edited,
            ..
        },
        !(command is Undo),
    ensures
        ({
            let edited = session.dispatched(command, saving).session;
            let undone = edited.dispatched(CommandView::Undo, saving);
            &&& undone.step matches StepView::Done { result: ResultView::Edited, .. }
            &&& undone.session.open is Some
            &&& undone.session.open->0.order.order == session.open->0.order.order
            &&& undone.session.unsaved() == session.unsaved()
        }),
{
    let before = session.open->0.order;
    let after = session.dispatched(command, saving).session.open->0.order;
    assert(after.history == before.remembered());
    assert(after.history.last() == before.order);
}

} // verus!
