//! Everything that can be read about the program's state.

use vstd::prelude::*;
use vstd::string::*;

use crate::confirm::{Guard, GuardView};
use crate::document::DocumentView;
use crate::grid::GridMode;
use crate::queue;
use crate::queue::{Renders, RendersView};
use crate::search;
use crate::search::PageFilter;
use crate::selection;
use crate::session;
use crate::session::{Session, SessionView};
use crate::stage::StageId;
use crate::text;
use crate::view;
use crate::view::PageNumber;

verus! {

/// One staged document, as it can be read.
#[derive(Debug, Clone, PartialEq, Eq)]
pub struct StagedSnapshot {
    pub id: StageId,
    pub path: String,
    pub page_count: usize,
    /// The pages that the search names in it, or `None` when nothing is typed.
    pub filtered_pages: Option<Vec<PageNumber>>,
    /// The pages picked out in it, ascending.
    pub selection: Vec<PageNumber>,
}

/// Everything that can be read about the program's state, but for the view and the pages kept
/// drawn.
#[derive(Debug, Clone, PartialEq, Eq)]
pub struct Snapshot {
    /// Where the open document was opened from.
    pub document: Option<String>,
    /// Pages asked for and not drawn yet.
    pub renders_in_flight: usize,
    /// Pages that have been given up on, ascending.
    pub failed_pages: Vec<usize>,
    /// Why the last command failed.
    pub last_error: Option<String>,
    pub thumbnails: bool,
    pub grid_mode: GridMode,
    /// Every staged document, in the order they were staged.
    pub stages: Vec<StagedSnapshot>,
    /// Which of them is showing.
    pub active_stage: Option<StageId>,
    /// What is typed in the search box.
    pub page_filter: String,
    /// The pages that the search names, or `None` when nothing is typed.
    pub filtered_pages: Option<Vec<PageNumber>>,
    /// The pages picked out, ascending.
    pub selection: Vec<PageNumber>,
    pub unsaved_changes: bool,
    /// What is being asked about, if anything is.
    pub awaiting_answer: Option<String>,
    pub can_undo: bool,
    /// Where a save in flight is going.
    pub saving_to: Option<String>,
    /// Everything that was asked for is done.
    pub idle: bool,
}

/// Whether `pages` are those that a query names in a document of so many pages, ascending; there
/// is no list at all when nothing is typed.
pub open spec fn narrows(query: Seq<char>, page_count: usize, pages: Option<Seq<usize>>) -> bool {
    match pages {
        None => text::trimmed(query).len() == 0,
        Some(pages) => text::trimmed(query).len() > 0 && search::resolves(
            query,
            page_count,
            session::positions(pages),
        ) && forall|i: int| 0 <= i < pages.len() ==> #[trigger] pages[i] >= 1,
    }
}

/// The numbers in a list of pages, where there is one.
pub open spec fn numbers_in(pages: Option<Vec<PageNumber>>) -> Option<Seq<usize>> {
    match pages {
        Some(pages) => Some(view::numbers(pages@)),
        None => None,
    }
}

/// The pages that a query names in a document of so many pages.
pub fn narrowed(query: &str, page_count: usize) -> (pages: Option<Vec<PageNumber>>)
    ensures
        narrows(query@, page_count, numbers_in(pages)),
{
    match PageFilter::parse(query, page_count) {
        PageFilter::All => None,
        PageFilter::Only(positions) => {
            let pages = view::pages_at(positions.as_slice());
            proof {
                search::law_a_filter_names_only_pages_there_are(query@, page_count, positions@);
                let numbers = view::numbers(pages@);
                assert forall|i: int| 0 <= i < numbers.len() implies #[trigger] numbers[i] >= 1
                    && session::positions(numbers)[i] == positions@[i] by {
                    assert(positions@[i] < page_count);
                    assert(numbers[i] == view::numbered(positions@)[i]);
                }
                assert(session::positions(numbers) =~= positions@);
            }
            Some(pages)
        },
    }
}

/// The numbers of the pages picked out among those shown.
pub open spec fn picked(
    shown: Seq<crate::order::Source>,
    chosen: Set<crate::order::Source>,
) -> Seq<usize> {
    view::numbered(selection::chosen_positions(shown, chosen))
}

/// The numbers of the pages picked out in the grid, ascending. None without a document.
pub open spec fn selected_in(session: SessionView) -> Seq<usize> {
    match session.open {
        Some(document) => picked(document.order.order, session.selection.chosen),
        None => Seq::empty(),
    }
}

/// The pages picked out in the grid, ascending.
pub fn selected_pages(session: &Session) -> (pages: Vec<PageNumber>)
    ensures
        view::numbers(pages@) == selected_in(session@),
{
    match session.open() {
        Some(document) => view::pages_at(
            session.selection().positions(document.order()).as_slice(),
        ),
        None => {
            let pages: Vec<PageNumber> = Vec::new();
            proof {
                assert(view::numbers(pages@) =~= Seq::empty());
            }
            pages
        },
    }
}

/// The numbers of the pages picked out in a staged document, ascending.
pub open spec fn staged_selected_in(session: SessionView, stage: usize) -> Seq<usize> {
    match session.open {
        Some(document) => match document.staged_sources(stage) {
            Some(shown) => picked(shown, session.staged_selection(stage).chosen),
            None => Seq::empty(),
        },
        None => Seq::empty(),
    }
}

/// The pages picked out in a staged document, ascending.
pub fn staged_selected_pages(session: &Session, stage: StageId) -> (pages: Vec<PageNumber>)
    requires
        session@.wf(),
    ensures
        view::numbers(pages@) == staged_selected_in(session@, stage.spec_get()),
{
    let none: Vec<PageNumber> = Vec::new();
    proof {
        assert(view::numbers(none@) =~= Seq::empty());
    }
    let shown = match session.open() {
        Some(document) => document.staged_sources(stage),
        None => None,
    };
    match shown {
        Some(shown) => view::pages_at(
            session.staged_selection(stage).positions_among(shown.as_slice()).as_slice(),
        ),
        None => none,
    }
}

/// Whether `pages` are those that the search names in a staged document. One that is not there
/// has none to name.
pub open spec fn staged_narrows(
    session: SessionView,
    stage: usize,
    pages: Option<Seq<usize>>,
) -> bool {
    let page_count = match session.open {
        Some(document) => document.staged_page_count(stage),
        None => 0,
    };
    if page_count == 0 {
        pages is None
    } else {
        narrows(session.page_filter, page_count, pages)
    }
}

/// The pages that the search names in a staged document. The same query is read again for each
/// document, because each has a page count of its own.
pub fn staged_filtered_pages(session: &Session, stage: StageId) -> (pages: Option<
    Vec<PageNumber>,
>)
    requires
        session@.wf(),
    ensures
        staged_narrows(session@, stage.spec_get(), numbers_in(pages)),
{
    let page_count = match session.open() {
        Some(document) => document.staged_page_count(stage),
        None => 0,
    };
    if page_count == 0 {
        return None;
    }
    narrowed(session.page_filter(), page_count)
}

/// Whether a snapshot is that of a staged document.
pub open spec fn describes_stage(
    snapshot: StagedSnapshot,
    session: SessionView,
    document: DocumentView,
    index: int,
) -> bool {
    let staged = document.staging[index];
    &&& snapshot.id.spec_get() == staged.id
    &&& snapshot.path@ == document.files[staged.document as int].path
    &&& snapshot.page_count == document.staged_page_count(staged.id)
    &&& staged_narrows(session, staged.id, numbers_in(snapshot.filtered_pages))
    &&& view::numbers(snapshot.selection@) == staged_selected_in(session, staged.id)
}

/// Every staged document, in the order they were staged.
pub fn staged_snapshots(session: &Session) -> (stages: Vec<StagedSnapshot>)
    requires
        session@.wf(),
    ensures
        match session@.open {
            Some(document) => stages@.len() == document.staging.len() && forall|i: int|
                0 <= i < stages@.len() ==> describes_stage(
                    #[trigger] stages@[i],
                    session@,
                    document,
                    i,
                ),
            None => stages@.len() == 0,
        },
{
    let mut stages: Vec<StagedSnapshot> = Vec::new();
    let document = match session.open() {
        Some(document) => document,
        None => {
            return stages;
        },
    };
    let count = document.stages();
    let mut i: usize = 0;
    while i < count
        invariant
            i <= count,
            count == document@.staging.len(),
            session@.open == Some(document@),
            session@.wf(),
            stages@.len() == i,
            forall|j: int|
                0 <= j < i ==> describes_stage(#[trigger] stages@[j], session@, document@, j),
        decreases count - i,
    {
        let (id, path) = document.stage_at(i);
        stages.push(
            StagedSnapshot {
                id,
                path: String::from_str(path),
                page_count: document.staged_page_count(id),
                filtered_pages: staged_filtered_pages(session, id),
                selection: staged_selected_pages(session, id),
            },
        );
        i += 1;
    }
    stages
}

/// Whether nothing is outstanding: no page still to be drawn, no move still to be made, no save
/// running and no question unanswered. "Idle" means that everything asked for is done, not that
/// nothing is going on.
pub open spec fn is_settled(
    session: SessionView,
    moving: bool,
    saving: bool,
    drawing: bool,
) -> bool {
    !moving && session.guard is None && !saving && (session.open is None || !drawing)
}

/// Whether nothing is outstanding.
pub fn settled(session: &Session, moving: bool, saving: bool, drawing: bool) -> (settled: bool)
    ensures
        settled == is_settled(session@, moving, saving, drawing),
{
    !moving && session.guard().is_none() && !saving && (session.open().is_none() || !drawing)
}

/// What is being asked about, if anything is. Something that already waits for a save is not.
pub open spec fn awaited(session: SessionView) -> Option<Seq<char>> {
    match session.guard {
        Some(GuardView::Asking(intent)) => Some(intent.described()),
        _ => None,
    }
}

/// What is being asked about, if anything is.
pub fn awaiting_answer(session: &Session) -> (what: Option<String>)
    ensures
        match what {
            Some(what) => awaited(session@) == Some(what@),
            None => awaited(session@) is None,
        },
{
    match session.guard() {
        Some(Guard::Asking(intent)) => Some(intent.describe()),
        _ => None,
    }
}

/// A text, where there is one.
fn copied(given: Option<&str>) -> (copy: Option<String>)
    ensures
        match (given, copy) {
            (Some(given), Some(copy)) => copy@ == given@,
            (None, None) => true,
            _ => false,
        },
{
    match given {
        Some(given) => Some(String::from_str(given)),
        None => None,
    }
}

/// Whether a snapshot is that of a session.
pub open spec fn describes(
    snapshot: Snapshot,
    session: SessionView,
    renders: Option<RendersView>,
    saving_to: Option<Seq<char>>,
    idle: bool,
) -> bool {
    &&& match session.open {
        Some(document) => {
            &&& snapshot.document matches Some(path) && path@ == document.primary_path()
            &&& snapshot.stages@.len() == document.staging.len()
            &&& forall|i: int|
                0 <= i < snapshot.stages@.len() ==> describes_stage(
                    #[trigger] snapshot.stages@[i],
                    session,
                    document,
                    i,
                )
            &&& narrows(
                session.page_filter,
                document.order.order.len() as usize,
                numbers_in(snapshot.filtered_pages),
            )
            &&& snapshot.can_undo == (document.order.history.len() > 0)
        },
        None => {
            &&& snapshot.document is None
            &&& snapshot.stages@.len() == 0
            &&& snapshot.filtered_pages is None
            &&& !snapshot.can_undo
        },
    }
    &&& match renders {
        Some(renders) => {
            &&& snapshot.renders_in_flight == renders.in_flight.len()
            &&& queue::ascending(snapshot.failed_pages@)
            &&& snapshot.failed_pages@.to_set() == queue::numbers_of(
                queue::given_up(renders.failures),
            )
        },
        None => {
            &&& snapshot.renders_in_flight == 0
            &&& snapshot.failed_pages@.len() == 0
        },
    }
    &&& match snapshot.last_error {
        Some(message) => session.last_error == Some(message@),
        None => session.last_error is None,
    }
    &&& snapshot.thumbnails == session.thumbnails
    &&& snapshot.grid_mode == session.grid_mode
    &&& match snapshot.active_stage {
        Some(stage) => session.active_stage == Some(stage.spec_get()),
        None => session.active_stage is None,
    }
    &&& snapshot.page_filter@ == session.page_filter
    &&& view::numbers(snapshot.selection@) == selected_in(session)
    &&& snapshot.unsaved_changes == session.unsaved()
    &&& match snapshot.awaiting_answer {
        Some(what) => awaited(session) == Some(what@),
        None => awaited(session) is None,
    }
    &&& match snapshot.saving_to {
        Some(path) => saving_to == Some(path@),
        None => saving_to is None,
    }
    &&& snapshot.idle == idle
}

/// Everything that can be read about the program's state right now.
pub fn snapshot(
    session: &Session,
    renders: Option<&Renders>,
    saving_to: Option<&str>,
    idle: bool,
) -> (snapshot: Snapshot)
    requires
        session@.wf(),
    ensures
        describes(
            snapshot,
            session@,
            match renders {
                Some(renders) => Some(renders@),
                None => None,
            },
            match saving_to {
                Some(path) => Some(path@),
                None => None,
            },
            idle,
        ),
{
    let (document, filtered_pages, can_undo) = match session.open() {
        Some(document) => (
            Some(String::from_str(document.primary_path())),
            narrowed(session.page_filter(), document.order().len()),
            document.order().can_undo(),
        ),
        None => (None, None, false),
    };
    let (renders_in_flight, failed_pages) = match renders {
        Some(renders) => (renders.in_flight(), renders.failed_pages()),
        None => (0, Vec::new()),
    };
    Snapshot {
        document,
        renders_in_flight,
        failed_pages,
        last_error: copied(session.last_error()),
        thumbnails: session.thumbnails(),
        grid_mode: session.grid_mode(),
        stages: staged_snapshots(session),
        active_stage: session.active_stage(),
        page_filter: String::from_str(session.page_filter()),
        filtered_pages,
        selection: selected_pages(session),
        unsaved_changes: session.unsaved_changes(),
        awaiting_answer: awaiting_answer(session),
        can_undo,
        saving_to: copied(saving_to),
        idle,
    }
}

/// Where a list of staged documents has one, if it does.
pub open spec fn index_of(stages: Seq<StagedSnapshot>, stage: usize) -> Option<int>
    decreases stages.len(),
{
    if stages.len() == 0 {
        None
    } else if stages.first().id.spec_get() == stage {
        Some(0)
    } else {
        match index_of(stages.drop_first(), stage) {
            Some(index) => Some(index + 1),
            None => None,
        }
    }
}

impl Snapshot {
    /// The staged document that is showing, if one is.
    pub fn showing(&self) -> (stage: Option<&StagedSnapshot>)
        ensures
            match stage {
                Some(stage) => self.active_stage matches Some(active) && (index_of(
                    self.stages@,
                    active.spec_get(),
                ) matches Some(index) && *stage == self.stages@[index]),
                None => self.active_stage matches Some(active) ==> index_of(
                    self.stages@,
                    active.spec_get(),
                ) is None,
            },
    {
        let active = match self.active_stage {
            Some(active) => active,
            None => {
                return None;
            },
        };
        let ghost all = self.stages@;
        let ghost wanted = active.spec_get();
        let mut i: usize = 0;
        proof {
            assert(all.skip(0) =~= all);
        }
        while i < self.stages.len()
            invariant
                i <= self.stages.len(),
                all == self.stages@,
                wanted == active.spec_get(),
                self.active_stage == Some(active),
                index_of(all, wanted) == (match index_of(all.skip(i as int), wanted) {
                    Some(index) => Some(index + i),
                    None => None,
                }),
            decreases self.stages.len() - i,
        {
            proof {
                assert(all.skip(i as int).first() == all[i as int]);
                assert(all.skip(i as int).drop_first() =~= all.skip(i + 1));
            }
            if self.stages[i].id.get() == active.get() {
                return Some(&self.stages[i]);
            }
            i += 1;
        }
        None
    }
}

} // verus!
