//! What each command does to what is open, said of the pages themselves.

use vstd::prelude::*;

use crate::command::CommandView;
use crate::confirm::{Answer, GuardView, IntentView};
use crate::document;
use crate::document::{DocumentView, FileView, StagedView};
use crate::grid::GridMode;
use crate::order::{OrderView, Source};
use crate::order_laws;
use crate::order_laws::{is_gathered, is_named, is_part};
use crate::picker::Purpose;
use crate::save::Overwrite;
use crate::selection;
use crate::selection::SelectionView;
use crate::selection_laws;
use crate::session;
use crate::session::{After, EffectView, ReadView, ResultView, SessionView, StepView};
use crate::stage::StagedNameView;
use crate::view::{Outcome, ViewCommand};

verus! {

/// The positions that page numbers stand for: each one less.
pub open spec fn places(numbers: Seq<usize>) -> Seq<usize> {
    Seq::new(numbers.len(), |i: int| (numbers[i] - 1) as usize)
}

/// Whether numbers count from one.
pub open spec fn from_one(numbers: Seq<usize>) -> bool {
    forall|i: int| 0 <= i < numbers.len() ==> #[trigger] numbers[i] >= 1
}

/// Done, with this result and nothing left to do outside.
pub open spec fn done(result: ResultView) -> StepView {
    StepView::Done { result, effect: EffectView::Nothing }
}

/// Whether a document shows something else than its file holds.
pub open spec fn edited(document: DocumentView) -> bool {
    document.order.order != document.order.saved
}

/// Whether an edit happened: the pages were laid out again, so many as there are now; nothing of
/// the session changed but the order and its history; and one step was added to the history,
/// which has sixty-four at most.
pub open spec fn is_an_edit(session: SessionView, after: After) -> bool {
    &&& session.open is Some
    &&& after.session.open is Some
    &&& {
        let before = session.open->0;
        let order = after.session.open->0.order;
        &&& after.step == (StepView::Done {
            result: ResultView::Edited,
            effect: EffectView::Relayout { pages: order.order.len() },
        })
        &&& after.session == (SessionView {
            open: Some(DocumentView { order, ..before }),
            ..session
        })
        &&& order == (OrderView {
            order: order.order,
            history: if before.order.history.len() < 64 {
                before.order.history.push(before.order.order)
            } else {
                before.order.history.skip(1).push(before.order.order)
            },
            ..before.order
        })
    }
}

proof fn lemma_places(numbers: Seq<usize>)
    ensures
        session::positions(numbers) == places(numbers),
{
    assert(session::positions(numbers) =~= places(numbers));
}

/// With nothing open, a command about pages fails and says so.
#[verifier::rlimit(50)]
pub proof fn law_nothing_is_edited_where_nothing_is_open(
    session: SessionView,
    numbers: Seq<usize>,
    number: usize,
    saving: bool,
)
    requires
        session.open is None,
    ensures
        ({
            let refused = After {
                session: SessionView { last_error: Some("nothing is open"@), ..session },
                step: done(ResultView::Failed("nothing is open"@)),
            };
            &&& session.dispatched(CommandView::DeletePages { pages: numbers }, saving) == refused
            &&& session.dispatched(CommandView::DeletePage { page: number }, saving) == refused
            &&& session.dispatched(
                CommandView::MovePages { from: numbers, to: number },
                saving,
            ) == refused
            &&& session.dispatched(
                CommandView::MovePage { from: number, to: number },
                saving,
            ) == refused
            &&& session.dispatched(
                CommandView::InsertPages { pages: numbers, at: number },
                saving,
            ) == refused
            &&& session.dispatched(CommandView::SetSelection { pages: numbers }, saving) == refused
            &&& session.dispatched(CommandView::Undo, saving) == refused
            &&& session.dispatched(CommandView::Save, saving) == refused
            &&& session.dispatched(CommandView::ClearStaging, saving) == refused
        }),
{
    let failed = session.failed("nothing is open"@);
    assert(session.carried_out(CommandView::DeletePages { pages: numbers }, saving) == failed);
    assert(session.carried_out(CommandView::DeletePage { page: number }, saving) == failed);
    assert(session.carried_out(
        CommandView::MovePages { from: numbers, to: number },
        saving,
    ) == failed);
    assert(session.carried_out(CommandView::MovePage { from: number, to: number }, saving)
        == failed);
    assert(session.carried_out(
        CommandView::InsertPages { pages: numbers, at: number },
        saving,
    ) == failed);
    assert(session.carried_out(CommandView::SetSelection { pages: numbers }, saving) == failed);
    assert(session.carried_out(CommandView::Undo, saving) == failed);
    assert(session.carried_out(CommandView::Save, saving) == failed);
    assert(session.carried_out(CommandView::ClearStaging, saving) == failed);
    assert(!session.unsaved());
}

/// Deleting pages by their numbers takes away exactly the pages that show those numbers. Where
/// one of them is not there, none is named, or all are, nothing changes.
pub proof fn law_deleting_takes_the_pages_with_those_numbers(
    session: SessionView,
    numbers: Seq<usize>,
    saving: bool,
)
    requires
        session.open is Some,
        session.open->0.order.wf(),
        session.open->0.order.order.len() <= usize::MAX,
        from_one(numbers),
    ensures
        ({
            let shown = session.open->0.order.order;
            let after = session.dispatched(CommandView::DeletePages { pages: numbers }, saving);
            let possible = {
                &&& numbers.len() > 0
                &&& forall|i: int| 0 <= i < numbers.len() ==> #[trigger] numbers[i] <= shown.len()
                &&& exists|p: int| 0 <= p < shown.len() && !#[trigger] is_named(places(numbers), p)
            };
            if possible {
                &&& is_an_edit(session, after)
                &&& exists|at: Seq<int>| #[trigger]
                    is_part(
                        shown,
                        after.session.open->0.order.order,
                        places(numbers),
                        false,
                        at,
                    )
            } else {
                after == (After { session, step: done(ResultView::Unchanged) })
            }
        }),
{
    lemma_places(numbers);
    let order = session.open->0.order;
    order_laws::law_what_is_left_is_what_was_not_named(order, places(numbers));
    order_laws::law_an_edit_adds_one_step_of_sixty_four(
        order,
        places(numbers),
        0,
        0,
        Seq::empty(),
    );
    lemma_in_range(numbers, order.order.len());
}

proof fn lemma_in_range(numbers: Seq<usize>, len: nat)
    requires
        from_one(numbers),
    ensures
        (forall|i: int| 0 <= i < numbers.len() ==> #[trigger] numbers[i] <= len) == (forall|k: int|
            0 <= k < places(numbers).len() ==> #[trigger] places(numbers)[k] < len),
{
    let at = places(numbers);
    if forall|i: int| 0 <= i < numbers.len() ==> #[trigger] numbers[i] <= len {
        assert forall|k: int| 0 <= k < at.len() implies #[trigger] at[k] < len by {
            assert(numbers[k] <= len);
        }
    }
    if forall|k: int| 0 <= k < at.len() ==> #[trigger] at[k] < len {
        assert forall|i: int| 0 <= i < numbers.len() implies #[trigger] numbers[i] <= len by {
            assert(at[i] < len);
        }
    }
}

/// Deleting one page, and moving one, is doing so to a list of that one.
pub proof fn law_one_page_is_a_list_of_one(
    session: SessionView,
    number: usize,
    to: usize,
    saving: bool,
)
    ensures
        session.dispatched(CommandView::DeletePage { page: number }, saving)
            == session.dispatched(CommandView::DeletePages { pages: seq![number] }, saving),
        session.dispatched(CommandView::MovePage { from: number, to }, saving)
            == session.dispatched(CommandView::MovePages { from: seq![number], to }, saving),
{
}

/// Moving pages by their numbers gathers exactly the pages that show those numbers, in the order
/// they are shown in, so that the first of them shows the number asked for, or as near to it as
/// keeps them all in the document. Where that would change nothing nothing changes.
pub proof fn law_moving_takes_the_pages_with_those_numbers(
    session: SessionView,
    numbers: Seq<usize>,
    to: usize,
    saving: bool,
)
    requires
        session.open is Some,
        session.open->0.order.wf(),
        session.open->0.order.order.len() <= usize::MAX,
        from_one(numbers),
        to >= 1,
    ensures
        ({
            let shown = session.open->0.order.order;
            let after = session.dispatched(CommandView::MovePages { from: numbers, to }, saving);
            let possible = {
                &&& numbers.len() > 0
                &&& to <= shown.len()
                &&& forall|i: int| 0 <= i < numbers.len() ==> #[trigger] numbers[i] <= shown.len()
            };
            ||| {
                &&& possible
                &&& is_an_edit(session, after)
                &&& after.session.open->0.order.order != shown
                &&& lands(shown, after.session.open->0.order.order, places(numbers), to - 1)
            }
            ||| {
                &&& possible ==> lands(shown, shown, places(numbers), to - 1)
                &&& after == (After { session, step: done(ResultView::Unchanged) })
            }
        }),
{
    lemma_places(numbers);
    let order = session.open->0.order;
    order_laws::law_the_block_that_lands_is_what_was_named(
        order,
        places(numbers),
        (to - 1) as usize,
    );
    order_laws::law_an_edit_adds_one_step_of_sixty_four(
        order,
        places(numbers),
        (to - 1) as usize,
        0,
        Seq::empty(),
    );
    lemma_in_range(numbers, order.order.len());
}

/// Whether `after` is `shown` with the named pages gathered at `to`, or as near to it as keeps
/// them all in the document.
pub open spec fn lands(
    shown: Seq<Source>,
    after: Seq<Source>,
    named: Seq<usize>,
    to: int,
) -> bool {
    exists|landing: int, inside: Seq<int>, outside: Seq<int>|
        {
            &&& #[trigger] is_gathered(shown, after, named, landing, inside, outside)
            &&& landing == if to <= outside.len() {
                to
            } else {
                outside.len() as int
            }
        }
}

/// Undo shows the order that the last step of the history remembers, and takes that step away.
/// With no step left nothing changes.
pub proof fn law_undo_shows_the_step_remembered_last(session: SessionView, saving: bool)
    requires
        session.open is Some,
    ensures
        ({
            let before = session.open->0;
            let history = before.order.history;
            let after = session.dispatched(CommandView::Undo, saving);
            if history.len() > 0 {
                after == (After {
                    session: SessionView {
                        open: Some(
                            DocumentView {
                                order: OrderView {
                                    order: history[history.len() - 1],
                                    history: history.take(history.len() - 1),
                                    ..before.order
                                },
                                ..before
                            },
                        ),
                        ..session
                    },
                    step: StepView::Done {
                        result: ResultView::Edited,
                        effect: EffectView::Relayout { pages: history[history.len() - 1].len() },
                    },
                })
            } else {
                after == (After { session, step: done(ResultView::Unchanged) })
            }
        }),
{
    let history = session.open->0.order.history;
    if history.len() > 0 {
        assert(history.drop_last() =~= history.take(history.len() - 1));
    }
}

/// Whether `at` is where the document staged as `id` stands among those staged.
pub open spec fn staged_at(staging: Seq<StagedView>, id: usize, at: int) -> bool {
    &&& 0 <= at < staging.len()
    &&& staging[at].id == id
    &&& forall|i: int| 0 <= i < at ==> (#[trigger] staging[i]).id != id
}

/// Whether nothing is staged as `id`.
pub open spec fn not_staged(staging: Seq<StagedView>, id: usize) -> bool {
    forall|i: int| 0 <= i < staging.len() ==> (#[trigger] staging[i]).id != id
}

pub proof fn lemma_staged_at(staging: Seq<StagedView>, id: usize, at: int)
    requires
        staged_at(staging, id, at),
    ensures
        document::document_of(staging, id) == Some(staging[at].document),
    decreases staging.len(),
{
    if at > 0 {
        let rest = staging.drop_first();
        assert(staging[0].id != id);
        assert(rest[at - 1] == staging[at]);
        assert forall|i: int| 0 <= i < at - 1 implies (#[trigger] rest[i]).id != id by {
            assert(rest[i] == staging[i + 1]);
        }
        lemma_staged_at(rest, id, at - 1);
    }
}

pub proof fn lemma_not_staged(staging: Seq<StagedView>, id: usize)
    requires
        not_staged(staging, id),
    ensures
        document::document_of(staging, id) is None,
    decreases staging.len(),
{
    if staging.len() > 0 {
        let rest = staging.drop_first();
        assert(staging[0].id != id);
        assert forall|i: int| 0 <= i < rest.len() implies (#[trigger] rest[i]).id != id by {
            assert(rest[i] == staging[i + 1]);
        }
        lemma_not_staged(rest, id);
    }
}

/// Placing pages by their numbers puts those pages of the staged document that is showing into
/// the order, so that the first of them shows the number asked for, in the order they were named
/// in, and moves nothing else. Where one of them is not there or the place is past the end,
/// nothing changes.
pub proof fn law_placing_puts_the_pages_with_those_numbers(
    session: SessionView,
    stage: usize,
    which: int,
    numbers: Seq<usize>,
    at: usize,
    saving: bool,
)
    requires
        session.open is Some,
        session.open->0.order.wf(),
        session.active_stage == Some(stage),
        staged_at(session.open->0.staging, stage, which),
        session.open->0.staging[which].document < session.open->0.order.source_lens.len(),
        from_one(numbers),
        at >= 1,
    ensures
        ({
            let shown = session.open->0.order.order;
            let document = session.open->0.staging[which].document;
            let after = session.dispatched(
                CommandView::InsertPages { pages: numbers, at },
                saving,
            );
            let possible = {
                &&& numbers.len() > 0
                &&& at - 1 <= shown.len()
                &&& forall|i: int|
                    0 <= i < numbers.len() ==> #[trigger] numbers[i]
                        <= session.open->0.order.source_lens[document as int]
            };
            if possible {
                let now = after.session.open->0.order.order;
                &&& is_an_edit(session, after)
                &&& now.len() == shown.len() + numbers.len()
                &&& forall|i: int| 0 <= i < at - 1 ==> #[trigger] now[i] == shown[i]
                &&& forall|i: int|
                    at - 1 <= i < at - 1 + numbers.len() ==> #[trigger] now[i] == (Source {
                        document,
                        page: (numbers[i - (at - 1)] - 1) as usize,
                    })
                &&& forall|i: int|
                    at - 1 + numbers.len() <= i < now.len() ==> #[trigger] now[i] == shown[i
                        - numbers.len()]
            } else {
                after == (After { session, step: done(ResultView::Unchanged) })
            }
        }),
{
    lemma_places(numbers);
    lemma_staged_at(session.open->0.staging, stage, which);
    let order = session.open->0.order;
    let document = session.open->0.staging[which].document;
    lemma_in_range(numbers, order.source_lens[document as int] as nat);
    if at - 1 <= order.order.len() {
        order_laws::law_placed_pages_stand_where_they_were_put(
            order,
            document,
            places(numbers),
            (at - 1) as usize,
        );
        order_laws::law_an_edit_adds_one_step_of_sixty_four(
            order,
            Seq::empty(),
            (at - 1) as usize,
            document,
            places(numbers),
        );
    }
}

/// Picking pages out by their numbers picks out exactly the pages that show those numbers, and
/// changes nothing else.
pub proof fn law_picking_out_takes_the_pages_with_those_numbers(
    session: SessionView,
    numbers: Seq<usize>,
    source: Source,
    saving: bool,
)
    requires
        session.open is Some,
        from_one(numbers),
    ensures
        ({
            let shown = session.open->0.order.order;
            let after = session.dispatched(CommandView::SetSelection { pages: numbers }, saving);
            &&& after.session == (SessionView { selection: after.session.selection, ..session })
            &&& after.session.selection.chosen.contains(source) <==> exists|i: int|
                {
                    &&& 0 <= i < numbers.len()
                    &&& #[trigger] numbers[i] <= shown.len()
                    &&& shown[numbers[i] - 1] == source
                }
            &&& after.step == done(
                if after.session.selection == session.selection {
                    ResultView::Unchanged
                } else {
                    ResultView::View(Outcome::Changed)
                },
            )
        }),
{
    lemma_places(numbers);
    let shown = session.open->0.order.order;
    let at = places(numbers);
    selection_laws::law_a_box_picks_exactly_what_it_covers(shown, at, source, 0);
    if exists|i: int|
        {
            &&& 0 <= i < numbers.len()
            &&& #[trigger] numbers[i] <= shown.len()
            &&& shown[numbers[i] - 1] == source
        } {
        let i = choose|i: int|
            {
                &&& 0 <= i < numbers.len()
                &&& #[trigger] numbers[i] <= shown.len()
                &&& shown[numbers[i] - 1] == source
            };
        assert(at[i] < shown.len() && shown[at[i] as int] == source);
    }
    if exists|i: int|
        {
            &&& 0 <= i < at.len()
            &&& (#[trigger] at[i]) < shown.len()
            &&& shown[at[i] as int] == source
        } {
        let i = choose|i: int|
            {
                &&& 0 <= i < at.len()
                &&& (#[trigger] at[i]) < shown.len()
                &&& shown[at[i] as int] == source
            };
        assert(numbers[i] <= shown.len());
    }
}

/// Closing the window, closing the document and opening another are held back where the document
/// is edited and the window is not closing already: a question is raised about that very thing,
/// and nothing else happens. Otherwise they go ahead at once.
pub proof fn law_what_would_lose_an_edited_document_is_asked_about(
    session: SessionView,
    path: Seq<char>,
    saving: bool,
)
    ensures
        ({
            let quit = session.dispatched(CommandView::Quit, saving);
            let close = session.dispatched(CommandView::Close, saving);
            let open = session.dispatched(CommandView::Open { path }, saving);
            if (session.open matches Some(document) && edited(document)) && !session.quitting {
                &&& quit == (After {
                    session: SessionView {
                        guard: Some(GuardView::Asking(IntentView::Quit)),
                        ..session
                    },
                    step: done(ResultView::NeedsAnswer),
                })
                &&& close == (After {
                    session: SessionView {
                        guard: Some(GuardView::Asking(IntentView::CloseDocument)),
                        ..session
                    },
                    step: done(ResultView::NeedsAnswer),
                })
                &&& open == (After {
                    session: SessionView {
                        guard: Some(GuardView::Asking(IntentView::Open(path))),
                        ..session
                    },
                    step: done(ResultView::NeedsAnswer),
                })
            } else {
                &&& quit == (After {
                    session: SessionView { quitting: true, ..session },
                    step: StepView::Done {
                        result: ResultView::Quitting,
                        effect: EffectView::CloseWindow,
                    },
                })
                &&& close == (After {
                    session: SessionView { open: None, last_error: None, ..session },
                    step: StepView::Done {
                        result: ResultView::Closed,
                        effect: EffectView::ShowNothing,
                    },
                })
                &&& open == (After {
                    session,
                    step: StepView::Read(
                        ReadView { path, purpose: Purpose::Open, reported: true },
                    ),
                })
            }
        }),
{
}

/// What an answer comes to. To cancel leaves everything as it is but for the question. To discard
/// goes ahead with what was asked about. To save first starts a save over the document's own file
/// and waits for it, or goes ahead where nothing is edited.
pub proof fn law_what_an_answer_comes_to(
    session: SessionView,
    intent: IntentView,
)
    requires
        session.guard == Some(GuardView::Asking(intent)),
    ensures
        ({
            let settled = SessionView { guard: None, ..session };
            let went_ahead = match intent {
                IntentView::Quit => After {
                    session: SessionView { quitting: true, ..settled },
                    step: StepView::Done {
                        result: ResultView::Quitting,
                        effect: EffectView::CloseWindow,
                    },
                },
                IntentView::CloseDocument => After {
                    session: SessionView { open: None, last_error: None, ..settled },
                    step: StepView::Done {
                        result: ResultView::Closed,
                        effect: EffectView::ShowNothing,
                    },
                },
                IntentView::Open(path) => After {
                    session: settled,
                    step: StepView::Read(
                        ReadView { path, purpose: Purpose::Open, reported: true },
                    ),
                },
            };
            let cancelled = session.dispatched(
                CommandView::Answer { choice: Answer::Cancel },
                false,
            );
            let discarded = session.dispatched(
                CommandView::Answer { choice: Answer::Discard },
                false,
            );
            let saved = session.dispatched(CommandView::Answer { choice: Answer::Save }, false);
            &&& cancelled == (After { session: settled, step: done(ResultView::Cancelled) })
            &&& discarded == went_ahead
            &&& if session.open matches Some(document) && edited(document) {
                saved == (After {
                    session: SessionView { guard: Some(GuardView::Saving(intent)), ..session },
                    step: StepView::Done {
                        result: ResultView::Saving,
                        effect: EffectView::Save {
                            destination: session.open->0.files[0].path,
                            overwrite: Overwrite::Allow,
                        },
                    },
                })
            } else {
                saved == went_ahead
            }
        }),
{
}

/// Saving writes an edited document over the file it came from, and saving as writes it to the
/// path given without replacing anything. What is as its file has it is not written over that
/// file, and one save runs at a time.
pub proof fn law_where_a_save_writes(session: SessionView, path: Seq<char>, saving: bool)
    requires
        session.open is Some,
    ensures
        ({
            let document = session.open->0;
            let unchanged = After { session, step: done(ResultView::Unchanged) };
            let busy = After {
                session: SessionView { last_error: Some("a save is already running"@), ..session },
                step: done(ResultView::Failed("a save is already running"@)),
            };
            let save = session.dispatched(CommandView::Save, saving);
            let save_as = session.dispatched(CommandView::SaveAs { path }, saving);
            &&& save == (if !edited(document) {
                unchanged
            } else if saving {
                busy
            } else {
                After {
                    session,
                    step: StepView::Done {
                        result: ResultView::Saving,
                        effect: EffectView::Save {
                            destination: document.files[0].path,
                            overwrite: Overwrite::Allow,
                        },
                    },
                }
            })
            &&& save_as == (if !edited(document) && path == document.files[0].path {
                unchanged
            } else if saving {
                busy
            } else {
                After {
                    session,
                    step: StepView::Done {
                        result: ResultView::Saving,
                        effect: EffectView::Save {
                            destination: path,
                            overwrite: Overwrite::Refuse,
                        },
                    },
                }
            })
        }),
{
}

/// What is only looked at: showing the grid, its mode and its filter change that one thing, and
/// forget what was picked out where it can no longer be seen.
pub proof fn law_what_is_only_looked_at(
    session: SessionView,
    visible: bool,
    mode: GridMode,
    query: Seq<char>,
    saving: bool,
)
    ensures
        ({
            let after = session.dispatched(CommandView::SetThumbnails { visible }, saving);
            &&& after.session == (SessionView {
                thumbnails: visible,
                selection: if session.thumbnails && !visible {
                    SelectionView::none()
                } else {
                    session.selection
                },
                ..session
            })
            &&& after.step == done(
                if session.thumbnails == visible {
                    ResultView::Unchanged
                } else {
                    ResultView::View(Outcome::Changed)
                },
            )
        }),
        ({
            let after = session.dispatched(CommandView::SetGridMode { mode }, saving);
            let other = session.grid_mode != mode;
            &&& after.session == (SessionView {
                grid_mode: mode,
                selection: if other && mode != GridMode::Reorganize {
                    SelectionView::none()
                } else {
                    session.selection
                },
                staged_selections: if other && mode != GridMode::Merge {
                    Map::empty()
                } else {
                    session.staged_selections
                },
                ..session
            })
            &&& after.step == done(
                if other {
                    ResultView::View(Outcome::Changed)
                } else {
                    ResultView::Unchanged
                },
            )
        }),
        ({
            let after = session.dispatched(CommandView::SetPageFilter { query }, saving);
            &&& after.session == (SessionView {
                page_filter: query,
                selection: if session.page_filter == query {
                    session.selection
                } else {
                    SelectionView::none()
                },
                ..session
            })
            &&& after.step == done(
                if session.page_filter == query {
                    ResultView::Unchanged
                } else {
                    ResultView::View(Outcome::Changed)
                },
            )
        }),
{
}

/// What is left to others: a view command is handed on as it is, a capture is started, and a file
/// to add or to stage is asked for under its path.
pub proof fn law_what_is_handed_on(
    session: SessionView,
    command: ViewCommand,
    path: Seq<char>,
    saving: bool,
)
    ensures
        session.dispatched(CommandView::View(command), saving) == (After {
            session,
            step: StepView::Apply(command),
        }),
        session.dispatched(CommandView::Capture { path }, saving) == (After {
            session,
            step: StepView::Done {
                result: ResultView::CaptureStarted,
                effect: EffectView::Capture { path },
            },
        }),
        session.open is Some ==> session.dispatched(CommandView::InsertFile { path }, saving) == (
        After {
            session,
            step: StepView::Read(ReadView { path, purpose: Purpose::Insert, reported: true }),
        }),
        session.open is Some ==> session.dispatched(
            CommandView::StageDocument { path },
            saving,
        ) == (After {
            session,
            step: StepView::Read(ReadView { path, purpose: Purpose::Stage, reported: true }),
        }),
        session.open is None ==> {
            let refused = After {
                session: SessionView { last_error: Some("nothing is open"@), ..session },
                step: done(ResultView::Failed("nothing is open"@)),
            };
            &&& session.dispatched(CommandView::InsertFile { path }, saving) == refused
            &&& session.dispatched(CommandView::StageDocument { path }, saving) == refused
        },
{
}

/// A file that was opened is shown page after page, unedited, in place of what was open, and is
/// where the document is saved to.
pub proof fn law_an_opened_file_is_shown_as_it_is(
    session: SessionView,
    path: Seq<char>,
    pages: usize,
)
    ensures
        ({
            let read = ReadView { path, purpose: Purpose::Open, reported: true };
            let after = session.file_read(read, Ok(pages));
            let document = after.session.open->0;
            &&& after.session == (SessionView {
                open: Some(document),
                last_error: None,
                ..session
            })
            &&& after.step == (StepView::Done {
                result: ResultView::Opened,
                effect: EffectView::ShowDocument { path, pages },
            })
            &&& document.files == seq![FileView { path, page_count: pages }]
            &&& document.staging.len() == 0
            &&& document.next_stage == 1
            &&& document.order.order.len() == pages
            &&& forall|i: int|
                0 <= i < pages ==> #[trigger] document.order.order[i] == (Source {
                    document: 0,
                    page: i as usize,
                })
            &&& !edited(document)
            &&& document.order.history.len() == 0
            &&& document.order.source_lens == seq![pages]
        }),
{
}

/// A file that was added stands whole behind the pages shown, page after page, as one step to be
/// undone, and is known under its path. One without pages shows nothing.
pub proof fn law_an_added_file_stands_behind_the_rest(
    session: SessionView,
    path: Seq<char>,
    pages: usize,
)
    requires
        session.open is Some,
        session.open->0.wf(),
        session.open->0.files.len() < usize::MAX,
    ensures
        ({
            let read = ReadView { path, purpose: Purpose::Insert, reported: true };
            let before = session.open->0;
            let after = session.file_read(read, Ok(pages));
            let now = after.session.open->0;
            let shown = before.order.order;
            &&& after.session == (SessionView { open: Some(now), ..session })
            &&& now.files == before.files.push(FileView { path, page_count: pages })
            &&& now.staging == before.staging
            &&& now.next_stage == before.next_stage
            &&& now.order.order.len() == shown.len() + pages
            &&& now.order.saved == before.order.saved
            &&& forall|i: int| 0 <= i < shown.len() ==> #[trigger] now.order.order[i] == shown[i]
            &&& forall|i: int|
                shown.len() <= i < now.order.order.len() ==> #[trigger] now.order.order[i] == (
                Source {
                    document: before.files.len() as usize,
                    page: (i - shown.len()) as usize,
                })
            &&& pages > 0 ==> after.step == (StepView::Done {
                result: ResultView::Edited,
                effect: EffectView::Relayout { pages: shown.len() + pages as nat },
            })
            &&& pages > 0 && before.order.history.len() < 64 ==> now.order.history
                == before.order.history.push(shown)
            &&& pages == 0 ==> after.step == done(ResultView::Unchanged) && now.order
                == before.order
        }),
{
}

/// A file that was staged is known under its path and by the next number, shows beside the
/// document, and changes nothing that is shown in it. One without pages is refused.
pub proof fn law_a_staged_file_gets_the_next_number(
    session: SessionView,
    path: Seq<char>,
    pages: usize,
)
    requires
        session.open is Some,
        session.open->0.wf(),
    ensures
        ({
            let read = ReadView { path, purpose: Purpose::Stage, reported: true };
            let before = session.open->0;
            let after = session.file_read(read, Ok(pages));
            let now = after.session.open->0;
            if pages == 0 {
                after == (After {
                    session: SessionView { last_error: Some(path + " has no pages"@), ..session },
                    step: done(ResultView::Failed(path + " has no pages"@)),
                })
            } else {
                &&& after.step == done(ResultView::View(Outcome::Changed))
                &&& after.session == (SessionView {
                    open: Some(now),
                    active_stage: Some(before.next_stage),
                    ..session
                })
                &&& now.files == before.files.push(FileView { path, page_count: pages })
                &&& now.staging == before.staging.push(
                    StagedView {
                        id: before.next_stage,
                        document: before.files.len() as usize,
                    },
                )
                &&& before.next_stage < usize::MAX ==> now.next_stage == before.next_stage + 1
                &&& now.order.order == before.order.order
                &&& now.order.saved == before.order.saved
                &&& now.order.history == before.order.history
            }
        }),
{
}

/// A save that succeeded makes the file written the document's own, known to hold what was
/// written, and goes ahead with what waited for it. One that failed changes nothing but says why,
/// and asks again about what waited for it.
pub proof fn law_what_a_finished_save_comes_to(
    session: SessionView,
    path: Seq<char>,
    written: Seq<Source>,
    error: Seq<char>,
)
    requires
        session.open is Some,
        session.open->0.wf(),
    ensures
        ({
            let before = session.open->0;
            let kept = Some(
                DocumentView {
                    files: before.files.update(
                        0,
                        FileView { path, page_count: before.files[0].page_count },
                    ),
                    order: OrderView {
                        saved: written,
                        on_disk: if before.order.on_disk.len() > 0 {
                            before.order.on_disk.update(0, written)
                        } else {
                            before.order.on_disk
                        },
                        ..before.order
                    },
                    ..before
                },
            );
            let (after, step) = session.save_finished(path, written, None);
            match session.guard {
                Some(GuardView::Saving(IntentView::Quit)) => {
                    &&& after == (SessionView {
                        open: kept,
                        guard: None,
                        last_error: None,
                        quitting: true,
                        ..session
                    })
                    &&& step == Some(
                        StepView::Done {
                            result: ResultView::Quitting,
                            effect: EffectView::CloseWindow,
                        },
                    )
                },
                Some(GuardView::Saving(IntentView::CloseDocument)) => {
                    &&& after == (SessionView {
                        open: None,
                        guard: None,
                        last_error: None,
                        ..session
                    })
                    &&& step == Some(
                        StepView::Done {
                            result: ResultView::Closed,
                            effect: EffectView::ShowNothing,
                        },
                    )
                },
                Some(GuardView::Saving(IntentView::Open(next))) => {
                    &&& after == (SessionView {
                        open: kept,
                        guard: None,
                        last_error: None,
                        ..session
                    })
                    &&& step == Some(
                        StepView::Read(
                            ReadView { path: next, purpose: Purpose::Open, reported: false },
                        ),
                    )
                },
                _ => {
                    &&& after == (SessionView { open: kept, last_error: None, ..session })
                    &&& step is None
                },
            }
        }),
        ({
            let (after, step) = session.save_finished(path, written, Some(error));
            &&& step is None
            &&& after == (SessionView {
                last_error: Some(error),
                guard: match session.guard {
                    Some(GuardView::Saving(intent)) => Some(GuardView::Asking(intent)),
                    other => other,
                },
                ..session
            })
        }),
{
}

/// Showing another staged document makes that one show and changes nothing else; one that is not
/// staged is refused by its number.
pub proof fn law_another_staged_document_shows(
    session: SessionView,
    stage: usize,
    which: int,
    saving: bool,
)
    requires
        session.open is Some,
    ensures
        staged_at(session.open->0.staging, stage, which) ==> session.dispatched(
            CommandView::SetActiveStage { stage },
            saving,
        ) == (After {
            session: SessionView { active_stage: Some(stage), ..session },
            step: done(
                if session.active_stage == Some(stage) {
                    ResultView::Unchanged
                } else {
                    ResultView::View(Outcome::Changed)
                },
            ),
        }),
        not_staged(session.open->0.staging, stage) ==> {
            let after = session.dispatched(CommandView::SetActiveStage { stage }, saving);
            &&& after.step matches StepView::Done {
                result: ResultView::Failed(reason),
                effect: EffectView::Nothing,
            } && after.session == (SessionView { last_error: Some(reason), ..session })
        },
{
    if staged_at(session.open->0.staging, stage, which) {
        lemma_staged_at(session.open->0.staging, stage, which);
    }
    if not_staged(session.open->0.staging, stage) {
        lemma_not_staged(session.open->0.staging, stage);
    }
}

/// Picking pages of a staged document out by their numbers picks out exactly those pages of it,
/// and touches no other.
pub proof fn law_staged_pages_are_picked_by_their_numbers(
    session: SessionView,
    stage: usize,
    which: int,
    numbers: Seq<usize>,
    page: usize,
    other: usize,
    saving: bool,
)
    requires
        session.open is Some,
        session.open->0.wf(),
        staged_at(session.open->0.staging, stage, which),
        from_one(numbers),
        other != stage,
    ensures
        ({
            let document = session.open->0.staging[which].document;
            let after = session.dispatched(
                CommandView::SetStagedSelection { staged: StagedNameView::Stage(stage), pages: numbers },
                saving,
            ).session;
            let picked = after.staged_selection(stage).chosen;
            &&& after == (SessionView { staged_selections: after.staged_selections, ..session })
            &&& picked.contains(Source { document, page }) <==> page
                < session.open->0.files[document as int].page_count && exists|i: int|
                0 <= i < numbers.len() && #[trigger] numbers[i] == page + 1
            &&& after.staged_selections.contains_key(other)
                == session.staged_selections.contains_key(other)
            &&& session.staged_selections.contains_key(other) ==> after.staged_selections[other]
                == session.staged_selections[other]
        }),
{
    lemma_places(numbers);
    lemma_staged_at(session.open->0.staging, stage, which);
    let document = session.open->0.staging[which].document;
    let count = session.open->0.files[document as int].page_count;
    let shown = session.open->0.staged_sources(stage)->0;
    let at = places(numbers);
    let source = Source { document, page };
    assert(shown.len() == count);
    selection_laws::law_a_box_picks_exactly_what_it_covers(shown, at, source, 0);
    if page < count && exists|i: int| 0 <= i < numbers.len() && #[trigger] numbers[i] == page + 1 {
        let i = choose|i: int| 0 <= i < numbers.len() && #[trigger] numbers[i] == page + 1;
        assert(at[i] < shown.len() && shown[at[i] as int] == source);
    }
    if exists|i: int|
        {
            &&& 0 <= i < at.len()
            &&& (#[trigger] at[i]) < shown.len()
            &&& shown[at[i] as int] == source
        } {
        let i = choose|i: int|
            {
                &&& 0 <= i < at.len()
                &&& (#[trigger] at[i]) < shown.len()
                &&& shown[at[i] as int] == source
            };
        assert(numbers[i] == page + 1);
    }
}

/// Putting away the staged document that is showing leaves the others staged, and of those the
/// one with the highest number shows, or none where none is left.
pub proof fn law_putting_away_shows_the_one_staged_last(
    session: SessionView,
    stage: usize,
    which: int,
    other: StagedView,
    saving: bool,
)
    requires
        session.open is Some,
        session.active_stage == Some(stage),
        staged_at(session.open->0.staging, stage, which),
    ensures
        ({
            let after = session.dispatched(CommandView::ClearStaging, saving);
            let left = after.session.open->0.staging;
            &&& after.step == done(ResultView::View(Outcome::Changed))
            &&& after.session.open is Some
            &&& left.contains(other) <==> session.open->0.staging.contains(other) && other.id
                != stage
            &&& after.session.open->0.order == session.open->0.order
            &&& after.session.staged_selections == session.staged_selections.remove(stage)
            &&& match after.session.active_stage {
                Some(shows) => {
                    &&& exists|i: int| 0 <= i < left.len() && (#[trigger] left[i]).id == shows
                    &&& forall|i: int| 0 <= i < left.len() ==> (#[trigger] left[i]).id <= shows
                },
                None => left.len() == 0,
            }
        }),
{
    broadcast use vstd::seq_lib::group_filter_ensures;

    let staging = session.open->0.staging;
    let keep = |staged: StagedView| staged.id != stage;
    let rest = document::without(staging, stage);
    assert(rest == staging.filter(keep));
    assert(rest.len() < staging.len()) by {
        if rest.len() == staging.len() {
            lemma_filter_keeps_all(staging, keep);
            assert(keep(staging[which])) by {
                assert(rest[which] == staging[which]);
                assert(keep(rest[which]));
            }
        }
    }
    assert(rest.contains(other) <==> staging.contains(other) && other.id != stage) by {
        if rest.contains(other) {
            staging.lemma_filter_contains_rev(keep, other);
            let i = choose|i: int| 0 <= i < rest.len() && rest[i] == other;
            assert(keep(rest[i]));
        }
        if staging.contains(other) && other.id != stage {
            assert(keep(other));
        }
    }
    lemma_latest(rest);
}

proof fn lemma_filter_keeps_all(staging: Seq<StagedView>, keep: spec_fn(StagedView) -> bool)
    requires
        staging.filter(keep).len() == staging.len(),
    ensures
        staging.filter(keep) == staging,
    decreases staging.len(),
{
    reveal(Seq::filter);
    if staging.len() > 0 {
        let front = staging.drop_last();
        broadcast use vstd::seq_lib::group_filter_ensures;

        assert(front.filter(keep).len() <= front.len());
        lemma_filter_keeps_all(front, keep);
        assert(staging =~= front.push(staging.last()));
    }
}

proof fn lemma_latest(staging: Seq<StagedView>)
    ensures
        match document::latest(staging) {
            Some(shows) => {
                &&& exists|i: int| 0 <= i < staging.len() && (#[trigger] staging[i]).id == shows
                &&& forall|i: int| 0 <= i < staging.len() ==> (#[trigger] staging[i]).id <= shows
            },
            None => staging.len() == 0,
        },
    decreases staging.len(),
{
    if staging.len() > 0 {
        let front = staging.drop_last();
        lemma_latest(front);
        assert(staging[staging.len() - 1] == staging.last());
        if let Some(id) = document::latest(front) {
            let i = choose|i: int| 0 <= i < front.len() && (#[trigger] front[i]).id == id;
            assert(staging[i] == front[i]);
            let shows = document::latest(staging)->0;
            assert forall|i: int| 0 <= i < staging.len() implies (#[trigger] staging[i]).id
                <= shows by {
                if i < front.len() {
                    assert(staging[i] == front[i]);
                }
            }
        }
    }
}

} // verus!
