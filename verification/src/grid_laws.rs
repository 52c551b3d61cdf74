//! What is done in the page grid comes to the command that says the same of page numbers.

use vstd::prelude::*;

use crate::command::CommandView;
use crate::command_laws;
use crate::command_laws::{not_staged, staged_at};
use crate::document;
use crate::document::{DocumentView, FileView, StagedView};
use crate::gesture;
use crate::gesture::{Drawn, Gesture};
use crate::grid::GridMode;
use crate::order::Source;
use crate::selection;
use crate::picker::Purpose;
use crate::selection::{Pick, SelectionView};
use crate::session::{After, EffectView, ReadView, ResultView, SessionView, StepView};
use crate::snapshot;
use crate::stage::{StageId, StagedNameView};
use crate::view;
use crate::view::{PageNumber, ViewCommand};

verus! {

/// A page is shown with the number one above its position, and a number means the position one
/// below it.
pub proof fn law_numbers_stand_one_above_positions(
    positions: Seq<usize>,
    pages: Seq<PageNumber>,
    i: int,
)
    requires
        0 <= i < positions.len() ==> positions[i] < usize::MAX,
        0 <= i < pages.len() ==> pages[i].spec_get() > 0,
    ensures
        view::numbered(positions).len() == positions.len(),
        0 <= i < positions.len() ==> view::numbered(positions)[i] == positions[i] + 1,
        view::indices(pages).len() == pages.len(),
        0 <= i < pages.len() ==> view::indices(pages)[i] + 1 == pages[i].spec_get(),
        view::numbers(pages).len() == pages.len(),
        0 <= i < pages.len() ==> view::numbers(pages)[i] == pages[i].spec_get(),
{
}

/// Whether `numbers` are those of the pages of `shown` that are among `chosen`, ascending.
pub open spec fn numbers_the_chosen(
    numbers: Seq<usize>,
    shown: Seq<Source>,
    chosen: Set<Source>,
) -> bool {
    &&& forall|i: int|
        0 <= i < numbers.len() ==> 1 <= #[trigger] numbers[i] <= shown.len() && chosen.contains(
            shown[numbers[i] - 1],
        )
    &&& forall|i: int, j: int|
        0 <= i < j < numbers.len() ==> #[trigger] numbers[i] < #[trigger] numbers[j]
    &&& forall|p: int|
        0 <= p < shown.len() && chosen.contains(#[trigger] shown[p]) ==> exists|i: int|
            0 <= i < numbers.len() && #[trigger] numbers[i] == p + 1
}

/// What is picked out is named by the numbers of just those pages, ascending.
pub proof fn law_what_is_picked_out_is_named_by_number(shown: Seq<Source>, chosen: Set<Source>)
    requires
        shown.len() < usize::MAX,
    ensures
        numbers_the_chosen(snapshot::picked(shown, chosen), shown, chosen),
{
    let positions = selection::chosen_positions(shown, chosen);
    let numbers = snapshot::picked(shown, chosen);
    selection::law_positions_are_where_the_chosen_pages_are(shown, chosen);
    assert forall|i: int| 0 <= i < numbers.len() implies 1 <= #[trigger] numbers[i] <= shown.len()
        && chosen.contains(shown[numbers[i] - 1]) by {
        let p = positions[i];
        assert(p < shown.len());
        assert(positions.contains(p as int as usize));
        assert(chosen.contains(shown[p as int]));
    }
    assert forall|i: int, j: int| 0 <= i < j < numbers.len() implies #[trigger] numbers[i]
        < #[trigger] numbers[j] by {
        assert(positions[i] < positions[j]);
    }
    assert forall|p: int| 0 <= p < shown.len() && chosen.contains(#[trigger] shown[p]) implies exists|
        i: int,
    | 0 <= i < numbers.len() && #[trigger] numbers[i] == p + 1 by {
        let i = choose|i: int| 0 <= i < positions.len() && positions[i] == p as usize;
        assert(numbers[i] == p + 1);
    }
}

/// A page that is picked out drags every page that is, by ascending position; any other drags
/// itself alone.
pub proof fn law_what_moves_with_a_page(shown: Seq<Source>, chosen: Set<Source>, from: usize)
    requires
        shown.len() < usize::MAX,
    ensures
        ({
            let moving = gesture::moving_with(shown, chosen, from);
            if from < shown.len() && chosen.contains(shown[from as int]) {
                numbers_the_chosen(view::numbered(moving), shown, chosen)
            } else {
                moving == seq![from]
            }
        }),
{
    law_what_is_picked_out_is_named_by_number(shown, chosen);
}

/// A click in the grid asks for the pages that are picked out after it.
pub proof fn law_a_click_asks_for_what_is_then_picked_out(
    session: SessionView,
    document: DocumentView,
    position: usize,
    pick: Pick,
)
    requires
        document.order.order.len() < usize::MAX,
    ensures
        session.open is None ==> gesture::command_of(Gesture::Picked(position, pick), session)
            is None,
        session.open == Some(document) ==> (gesture::command_of(
            Gesture::Picked(position, pick),
            session,
        ) matches Some(CommandView::SetSelection { pages }) && numbers_the_chosen(
            pages,
            document.order.order,
            session.selection.picked(document.order.order, position, pick).chosen,
        )),
{
    let shown = document.order.order;
    law_what_is_picked_out_is_named_by_number(
        shown,
        session.selection.picked(shown, position, pick).chosen,
    );
}

/// Whether a box covers the page at `p`.
pub open spec fn covers(covered: Seq<usize>, p: int) -> bool {
    exists|j: int| 0 <= j < covered.len() && #[trigger] covered[j] == p
}

/// A box in the grid asks for every page it covers, and for no page that is shown once and that
/// it does not cover.
pub proof fn law_a_box_asks_for_the_pages_it_covers(
    session: SessionView,
    document: DocumentView,
    covered: Vec<usize>,
    p: int,
)
    requires
        document.order.order.len() < usize::MAX,
        0 <= p < document.order.order.len(),
    ensures
        session.open is None ==> gesture::command_of(Gesture::Marquee(covered), session) is None,
        session.open == Some(document) ==> (gesture::command_of(
            Gesture::Marquee(covered),
            session,
        ) matches Some(CommandView::SetSelection { pages }) && {
            let shown = document.order.order;
            &&& covers(covered@, p) ==> pages.contains((p + 1) as usize)
            &&& pages.contains((p + 1) as usize) && (forall|q: int|
                0 <= q < shown.len() && q != p ==> #[trigger] shown[q] != shown[p]) ==> covers(
                covered@,
                p,
            )
        }),
{
    let shown = document.order.order;
    let chosen = selection::sources_at(shown, covered@);
    law_what_is_picked_out_is_named_by_number(shown, chosen);
    let pages = snapshot::picked(shown, chosen);
    if covers(covered@, p) {
        let j = choose|j: int| 0 <= j < covered@.len() && #[trigger] covered@[j] == p;
        assert(shown[covered@[j] as int] == shown[p]);
        assert(chosen.contains(shown[p]));
        let i = choose|i: int| 0 <= i < pages.len() && #[trigger] pages[i] == p + 1;
        assert(pages[i] == (p + 1) as usize);
    }
    if pages.contains((p + 1) as usize) {
        let i = choose|i: int| 0 <= i < pages.len() && pages[i] == (p + 1) as usize;
        assert(chosen.contains(shown[pages[i] - 1]));
        let j = choose|j: int|
            0 <= j < covered@.len() && (#[trigger] covered@[j]) < shown.len()
                && shown[covered@[j] as int] == shown[p];
        assert(shown[covered@[j] as int] == shown[p]);
    }
}

/// Whether `numbers` are one above `positions`, one by one.
pub open spec fn one_above(numbers: Seq<usize>, positions: Seq<usize>) -> bool {
    &&& numbers.len() == positions.len()
    &&& forall|i: int| 0 <= i < numbers.len() ==> #[trigger] numbers[i] == positions[i] + 1
}

/// Pages dragged to a slot are moved there by their numbers, in the order they were dragged in,
/// and pages dragged out of a staged document are placed there; a click that navigates goes to
/// the page clicked. Dragging nothing asks for nothing.
pub proof fn law_dragging_names_the_pages_dragged(
    session: SessionView,
    dragged: Vec<usize>,
    slot: usize,
)
    requires
        slot < usize::MAX,
        forall|i: int| 0 <= i < dragged@.len() ==> #[trigger] dragged@[i] < usize::MAX,
    ensures
        dragged@.len() == 0 ==> gesture::command_of(Gesture::Moved(dragged, slot), session) is None
            && gesture::command_of(Gesture::Placed(dragged, slot), session) is None,
        dragged@.len() > 0 ==> {
            &&& gesture::command_of(
                Gesture::Moved(dragged, slot),
                session,
            ) matches Some(CommandView::MovePages { from, to }) && to == slot + 1 && one_above(
                from,
                dragged@,
            )
            &&& gesture::command_of(
                Gesture::Placed(dragged, slot),
                session,
            ) matches Some(CommandView::InsertPages { pages, at }) && at == slot + 1 && one_above(
                pages,
                dragged@,
            )
        },
        gesture::command_of(
            Gesture::Navigated(slot),
            session,
        ) matches Some(CommandView::View(ViewCommand::GoToPage { page })) && page.spec_get()
            == slot + 1,
{
    PageNumber::lemma_has_its_number(view::numbered(seq![slot])[0]);
}

/// A tab asks for its mode, the search box for what was typed, and the staging area for what was
/// pressed in it; picking out all of a staged document names each of its pages once.
pub proof fn law_the_rest_of_the_grid_says_what_was_done(
    session: SessionView,
    mode: GridMode,
    query: String,
    stage: StageId,
)
    ensures
        gesture::command_of(Gesture::Mode(mode), session) == Some(
            CommandView::SetGridMode { mode },
        ),
        gesture::command_of(Gesture::Query(query), session) == Some(
            CommandView::SetPageFilter { query: query@ },
        ),
        gesture::command_of(Gesture::ClearStaging, session) == Some(CommandView::ClearStaging),
        gesture::command_of(Gesture::StageSwitched(stage), session) == Some(
            CommandView::SetActiveStage { stage: stage.spec_get() },
        ),
        session.open is None ==> gesture::command_of(Gesture::SelectAll(stage), session) is None,
        session.open matches Some(document) ==> (gesture::command_of(
            Gesture::SelectAll(stage),
            session,
        ) matches Some(CommandView::SetStagedSelection { staged, pages }) && {
            &&& staged == StagedNameView::Stage(stage.spec_get())
            &&& pages.len() == document.staged_page_count(stage.spec_get())
            &&& forall|i: int| 0 <= i < pages.len() ==> #[trigger] pages[i] == i + 1
        }),
{
}

/// Picking comes before everything else that was done in the same frame, a box before a drag,
/// and a drag before the rest; what is taken out is gone and nothing else is.
pub proof fn law_picking_comes_first(drawn: Drawn)
    ensures
        drawn.picked matches Some((position, pick)) ==> {
            &&& drawn.spec_next() == Some(Gesture::Picked(position, pick))
            &&& drawn.spec_rest() == (Drawn { picked: None, ..drawn })
        },
        drawn.picked is None ==> (drawn.marquee matches Some(covered) ==> {
            &&& drawn.spec_next() == Some(Gesture::Marquee(covered))
            &&& drawn.spec_rest() == (Drawn { marquee: None, ..drawn })
        }),
        drawn.picked is None && drawn.marquee is None ==> (drawn.moved matches Some((from, to)) ==> {
            &&& drawn.spec_next() == Some(Gesture::Moved(from, to))
            &&& drawn.spec_rest() == (Drawn { moved: None, ..drawn })
        }),
        drawn.picked is None && drawn.marquee is None && drawn.moved is None ==> (
        drawn.placed matches Some((pages, at)) ==> {
            &&& drawn.spec_next() == Some(Gesture::Placed(pages, at))
            &&& drawn.spec_rest() == (Drawn { placed: None, ..drawn })
        }),
{
}

/// Whatever is taken out is something that was done, as it was done, and it alone is gone
/// afterwards; nothing comes out only where nothing was done.
pub proof fn law_everything_done_is_taken_out_as_it_is(drawn: Drawn)
    ensures
        match drawn.spec_next() {
            Some(Gesture::Picked(position, pick)) => drawn.picked == Some((position, pick))
                && drawn.spec_rest() == (Drawn { picked: None, ..drawn }),
            Some(Gesture::Marquee(covered)) => drawn.marquee == Some(covered)
                && drawn.spec_rest() == (Drawn { marquee: None, ..drawn }),
            Some(Gesture::Moved(from, to)) => drawn.moved == Some((from, to))
                && drawn.spec_rest() == (Drawn { moved: None, ..drawn }),
            Some(Gesture::Placed(pages, at)) => drawn.placed == Some((pages, at))
                && drawn.spec_rest() == (Drawn { placed: None, ..drawn }),
            Some(Gesture::Navigated(position)) => drawn.navigated == Some(position)
                && drawn.spec_rest() == (Drawn { navigated: None, ..drawn }),
            Some(Gesture::Mode(mode)) => drawn.mode == Some(mode) && drawn.spec_rest() == (Drawn {
                mode: None,
                ..drawn
            }),
            Some(Gesture::Query(query)) => drawn.query == Some(query) && drawn.spec_rest() == (
            Drawn { query: None, ..drawn }),
            Some(Gesture::ClearStaging) => drawn.clear_staging && drawn.spec_rest() == (Drawn {
                clear_staging: false,
                ..drawn
            }),
            Some(Gesture::SelectAll(stage)) => drawn.select_all == Some(stage)
                && drawn.spec_rest() == (Drawn { select_all: None, ..drawn }),
            Some(Gesture::StageSwitched(stage)) => drawn.stage_switched == Some(stage)
                && drawn.spec_rest() == (Drawn { stage_switched: None, ..drawn }),
            None => drawn.picked is None && drawn.marquee is None && drawn.moved is None
                && drawn.placed is None && drawn.navigated is None && drawn.mode is None
                && drawn.query is None && !drawn.clear_staging && drawn.select_all is None
                && drawn.stage_switched is None,
        },
{
}

/// The pages of a staged document are all pages of the file it came from, in their order, and
/// are as many as that file has. What is not staged has none.
pub proof fn law_a_staged_document_shows_all_of_its_file(
    document: DocumentView,
    id: usize,
    at: int,
)
    ensures
        staged_at(document.staging, id, at) ==> {
            let file = document.staging[at].document;
            let count = document.files[file as int].page_count;
            &&& document.staged_page_count(id) == count
            &&& document.staged_sources(id) matches Some(pages) && {
                &&& pages.len() == count
                &&& forall|page: int|
                    0 <= page < count ==> (#[trigger] pages[page]).document == file
                        && pages[page].page == page
            }
        },
        not_staged(document.staging, id) ==> document.staged_page_count(id) == 0
            && document.staged_sources(id) is None,
{
    if staged_at(document.staging, id, at) {
        command_laws::lemma_staged_at(document.staging, id, at);
    }
    if not_staged(document.staging, id) {
        command_laws::lemma_not_staged(document.staging, id);
    }
}

/// A path means the document that was staged from it most recently, and no other path means it.
pub proof fn law_a_path_means_what_was_staged_from_it_last(
    staging: Seq<StagedView>,
    files: Seq<FileView>,
    path: Seq<char>,
    at: int,
)
    ensures
        0 <= at < staging.len() && files[staging[at].document as int].path == path && (forall|
            i: int,
        |
            at < i < staging.len() ==> files[(#[trigger] staging[i]).document as int].path != path)
            ==> document::staged_from(staging, files, path) == Some(staging[at].id),
        (forall|i: int|
            0 <= i < staging.len() ==> files[(#[trigger] staging[i]).document as int].path != path)
            ==> document::staged_from(staging, files, path) is None,
    decreases staging.len(),
{
    if staging.len() > 0 {
        let earlier = staging.drop_last();
        law_a_path_means_what_was_staged_from_it_last(earlier, files, path, at);
        let last = staging.len() - 1;
        assert(staging[last] == staging.last());
        assert(forall|i: int| 0 <= i < last ==> #[trigger] earlier[i] == staging[i]);
    }
}

/// A command that names a staged document means the one with that id or the one staged from that
/// path last, and is told what is wrong where there is none.
pub proof fn law_which_staged_document_is_meant(
    session: SessionView,
    document: DocumentView,
    id: usize,
    path: Seq<char>,
    at: int,
)
    requires
        session.open == Some(document),
    ensures
        staged_at(document.staging, id, at) ==> session.stage_named(StagedNameView::Stage(id))
            == Ok::<usize, Seq<char>>(id),
        not_staged(document.staging, id) ==> session.stage_named(StagedNameView::Stage(id)) is Err,
        0 <= at < document.staging.len()
            && document.files[document.staging[at].document as int].path == path && (forall|i: int|
            at < i < document.staging.len()
                ==> document.files[(#[trigger] document.staging[i]).document as int].path != path)
            ==> session.stage_named(StagedNameView::Path(path)) == Ok::<usize, Seq<char>>(
            document.staging[at].id,
        ),
        (forall|i: int|
            0 <= i < document.staging.len()
                ==> document.files[(#[trigger] document.staging[i]).document as int].path != path)
            ==> session.stage_named(StagedNameView::Path(path)) is Err,
{
    law_a_path_means_what_was_staged_from_it_last(document.staging, document.files, path, at);
    if staged_at(document.staging, id, at) {
        command_laws::lemma_staged_at(document.staging, id, at);
    }
    if not_staged(document.staging, id) {
        command_laws::lemma_not_staged(document.staging, id);
    }
}

/// What is put away is gone, and every other staged document stays.
pub proof fn law_only_what_is_put_away_is_gone(staging: Seq<StagedView>, id: usize, other: StagedView)
    ensures
        not_staged(document::without(staging, id), id),
        other.id != id ==> document::without(staging, id).contains(other) == staging.contains(
            other,
        ),
    decreases staging.len(),
{
    reveal(Seq::filter);
    if staging.len() > 0 {
        let less = staging.drop_last();
        law_only_what_is_put_away_is_gone(less, id, other);
        let kept = document::without(less, id);
        let last = staging.last();
        let all = document::without(staging, id);
        assert(all == if last.id != id {
            kept.push(last)
        } else {
            kept
        });
        assert(staging == less.push(last));
        assert forall|i: int| 0 <= i < all.len() implies (#[trigger] all[i]).id != id by {
            if i < kept.len() {
                assert(all[i] == kept[i]);
            }
        }
        broadcast use vstd::seq_lib::group_seq_properties;

    }
}

/// Numbers of staged documents count on by one.
pub proof fn law_the_next_number_is_one_more(number: usize)
    requires
        number < usize::MAX,
    ensures
        StageId::spec_next(number) == number + 1,
{
}

/// A click or a box in the staged document that is showing changes what is picked out there, as
/// it would in the grid, and nothing else. With none showing it changes nothing.
pub proof fn law_picking_in_a_staged_document_stays_there(
    session: SessionView,
    document: DocumentView,
    stage: usize,
    at: int,
    position: usize,
    pick: Pick,
    covered: Seq<usize>,
)
    requires
        session.open == Some(document),
    ensures
        session.active_stage == Some(stage) && staged_at(document.staging, stage, at) ==> {
            let file = document.staging[at].document;
            let count = document.files[file as int].page_count;
            let shown = Seq::new(count as nat, |page: int| Source { document: file, page: page as usize });
            let before = session.staged_selection(stage);
            let clicked = session.staged_picked(position, pick);
            let boxed = session.staged_marquee(covered);
            &&& clicked.staged_selections == session.staged_selections.insert(
                stage,
                before.picked(shown, position, pick),
            )
            &&& boxed.staged_selections == session.staged_selections.insert(
                stage,
                SelectionView::set_to(shown, covered),
            )
            &&& (SessionView { staged_selections: session.staged_selections, ..clicked }) == session
            &&& (SessionView { staged_selections: session.staged_selections, ..boxed }) == session
        },
        session.active_stage is None || not_staged(document.staging, session.active_stage->0) ==> {
            &&& session.staged_picked(position, pick) == session
            &&& session.staged_marquee(covered) == session
        },
{
    if staged_at(document.staging, stage, at) {
        command_laws::lemma_staged_at(document.staging, stage, at);
        let file = document.staging[at].document;
        let count = document.files[file as int].page_count;
        let shown = Seq::new(count as nat, |page: int| Source { document: file, page: page as usize });
        assert(document.staged_sources(stage) == Some(shown)) by {
            assert(document.staged_sources(stage)->0 =~= shown);
        }
    }
    if session.active_stage is Some && not_staged(document.staging, session.active_stage->0) {
        command_laws::lemma_not_staged(document.staging, session.active_stage->0);
    }
}

/// What is picked out in a staged document is what was last picked out there, and nothing where
/// nothing was.
pub proof fn law_what_is_picked_out_in_a_staged_document(
    session: SessionView,
    stage: usize,
    source: Source,
)
    ensures
        session.staged_selections.contains_key(stage) ==> session.staged_selection(stage)
            == session.staged_selections[stage],
        !session.staged_selections.contains_key(stage) ==> !session.staged_selection(
            stage,
        ).chosen.contains(source) && session.staged_selection(stage).anchor is None,
{
}

/// A failure is remembered in its own words, a document opened or closed clears what was
/// remembered, and nothing else about the session or the step changes.
pub proof fn law_what_is_remembered_of_a_step(after: After, message: Seq<char>)
    ensures
        after.noted().step == after.step,
        (SessionView { last_error: after.session.last_error, ..after.noted().session })
            == after.session,
        match after.step {
            StepView::Done { result, .. } => {
                &&& result == ResultView::Failed(message) ==> after.noted().session.last_error
                    == Some(message)
                &&& result is Opened || result is Closed ==> after.noted().session.last_error
                    is None
                &&& !(result is Failed) && !(result is Opened) && !(result is Closed)
                    ==> after.noted() == after
            },
            _ => after.noted() == after,
        },
{
}

/// A file that could not be read fails with what was wrong with it and changes nothing else; one
/// without pages cannot be staged.
pub proof fn law_an_unreadable_file_changes_nothing(
    session: SessionView,
    read: ReadView,
    message: Seq<char>,
)
    ensures
        ({
            let after = session.file_read(read, Err(message));
            &&& after.step == StepView::Done {
                result: ResultView::Failed(message),
                effect: EffectView::Nothing,
            }
            &&& after.session == (SessionView {
                last_error: if read.reported {
                    Some(message)
                } else {
                    session.last_error
                },
                ..session
            })
        }),
        read.purpose == Purpose::Stage ==> session.file_read(read, Ok(0)) == session.file_read(
            read,
            Err(read.path + " has no pages"@),
        ),
{
}

/// A command is held back exactly where it would lose an order that differs from the file, while
/// the window is not closing anyway.
pub proof fn law_what_is_held_back(session: SessionView, command: CommandView)
    ensures
        session.holds_back(command) <==> {
            &&& session.open is Some
            &&& session.open->0.order.order != session.open->0.order.saved
            &&& !session.quitting
            &&& command is Quit || command is Close || command is Open
        },
{
}

} // verus!
