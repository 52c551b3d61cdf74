//! What a snapshot tells of the program, and what a saved file holds.

use vstd::prelude::*;
use vstd::string::*;

use crate::command_laws::staged_at;
use crate::document::DocumentView;
use crate::gesture;
use crate::grid_laws;
use crate::grid_laws::numbers_the_chosen;
use crate::mail::Arrival;
use crate::order::{OrderView, Source};
use crate::pdf;
use crate::pdf::ObjectId;
use crate::queue;
use crate::queue::{CacheKey, RendersView};
use crate::save;
use crate::save::Loaded;
use crate::saver;
use crate::saver::Saved;
use crate::search;
use crate::search::PageFilter;
use crate::session::SessionView;
use crate::snapshot;
use crate::snapshot::Snapshot;
use crate::text;
use crate::text_laws::is_blank;
use crate::view;

verus! {

/// A snapshot names the document by the file it was opened from, and tells of it and of the grid
/// what they are.
pub proof fn law_a_snapshot_tells_what_is_shown(
    given: Snapshot,
    session: SessionView,
    document: DocumentView,
    renders: Option<RendersView>,
    saving_to: Option<Seq<char>>,
    idle: bool,
)
    requires
        snapshot::describes(given, session, renders, saving_to, idle),
        session.open == Some(document),
        document.order.order.len() < usize::MAX,
    ensures
        given.document is Some,
        given.document->0@ == document.files[0].path,
        given.can_undo == (document.order.history.len() > 0),
        given.unsaved_changes == (document.order.order != document.order.saved),
        given.thumbnails == session.thumbnails,
        given.grid_mode == session.grid_mode,
        given.page_filter@ == session.page_filter,
        numbers_the_chosen(
            view::numbers(given.selection@),
            document.order.order,
            session.selection.chosen,
        ),
        given.idle == idle,
        (given.last_error is Some) == (session.last_error is Some),
        given.last_error is Some ==> session.last_error == Some(given.last_error->0@),
        (given.saving_to is Some) == (saving_to is Some),
        given.saving_to is Some ==> saving_to == Some(given.saving_to->0@),
        (given.active_stage is Some) == (session.active_stage is Some),
        given.active_stage is Some ==> session.active_stage == Some(
            given.active_stage->0.spec_get(),
        ),
{
    grid_laws::law_what_is_picked_out_is_named_by_number(
        document.order.order,
        session.selection.chosen,
    );
}

/// With nothing open a snapshot tells of no document, no staged one and nothing picked out.
pub proof fn law_a_snapshot_of_nothing_tells_of_nothing(
    given: Snapshot,
    session: SessionView,
    renders: Option<RendersView>,
    saving_to: Option<Seq<char>>,
    idle: bool,
)
    requires
        snapshot::describes(given, session, renders, saving_to, idle),
        session.open is None,
    ensures
        given.document is None,
        given.stages@.len() == 0,
        given.filtered_pages is None,
        given.selection@.len() == 0,
        !given.can_undo,
        !given.unsaved_changes,
{
    assert(view::numbers(given.selection@).len() == 0);
}

/// A snapshot counts the pages on their way, and names each page that was given up on by its
/// number, once, ascending.
pub proof fn law_a_snapshot_names_the_failed_pages(
    given: Snapshot,
    session: SessionView,
    renders: RendersView,
    saving_to: Option<Seq<char>>,
    idle: bool,
    key: CacheKey,
    i: int,
    j: int,
)
    requires
        snapshot::describes(given, session, Some(renders), saving_to, idle),
        key.page < usize::MAX,
    ensures
        given.renders_in_flight == renders.in_flight.len(),
        renders.failures.contains_key(key) && renders.failures[key].retries_left == 0
            ==> given.failed_pages@.contains((key.page + 1) as usize),
        0 <= i < j < given.failed_pages@.len() ==> given.failed_pages@[i] < given.failed_pages@[j],
        0 <= i < given.failed_pages@.len() && given.failed_pages@[i] < usize::MAX ==> exists|
            failed: CacheKey,
        |
            renders.failures.contains_key(failed) && (#[trigger] renders.failures[failed]).retries_left
                == 0 && failed.page + 1 == given.failed_pages@[i],
{
    let failed = queue::given_up(renders.failures);
    let numbers = queue::numbers_of(failed);
    if failed.contains(key) {
        assert(numbers.contains(queue::number_of(key)));
        assert(given.failed_pages@.to_set().contains((key.page + 1) as usize));
    }
    if 0 <= i < given.failed_pages@.len() && given.failed_pages@[i] < usize::MAX {
        assert(given.failed_pages@.to_set().contains(given.failed_pages@[i]));
        let of = choose|of: CacheKey|
            failed.contains(of) && queue::number_of(of) == given.failed_pages@[i];
        assert(renders.failures[of].retries_left == 0);
    }
}

/// What is listed of a search is there exactly where something other than white space is typed,
/// and is each page that the search names, by its number, ascending.
pub proof fn law_what_a_search_lists(
    query: Seq<char>,
    page_count: usize,
    pages: Option<Seq<usize>>,
)
    requires
        snapshot::narrows(query, page_count, pages),
    ensures
        is_blank(query) <==> pages is None,
        pages matches Some(numbers) ==> {
            &&& forall|i: int, j: int|
                0 <= i < j < numbers.len() ==> #[trigger] numbers[i] < #[trigger] numbers[j]
            &&& forall|i: int|
                0 <= i < numbers.len() ==> 1 <= #[trigger] numbers[i] <= page_count
                    && search::matches_query(query, page_count, numbers[i] as int)
            &&& forall|n: usize|
                1 <= n <= page_count && #[trigger] search::matches_query(query, page_count, n as int)
                    ==> numbers.contains(n)
        },
{
    crate::text_laws::law_trimming_takes_only_white_space_off_the_ends(query);
    lemma_blank(query);
    if let Some(numbers) = pages {
        let positions = crate::session::positions(numbers);
        assert forall|i: int, j: int| 0 <= i < j < numbers.len() implies #[trigger] numbers[i]
            < #[trigger] numbers[j] by {
            assert(positions[i] < positions[j]);
        }
        assert forall|i: int| 0 <= i < numbers.len() implies 1 <= #[trigger] numbers[i]
            <= page_count && search::matches_query(query, page_count, numbers[i] as int) by {
            assert(positions[i] == numbers[i] - 1);
            assert(positions.contains(positions[i]));
        }
        assert forall|n: usize|
            1 <= n <= page_count && #[trigger] search::matches_query(
                query,
                page_count,
                n as int,
            ) implies numbers.contains(n) by {
            let p = (n - 1) as usize;
            assert(search::matches_query(query, page_count, p + 1));
            assert(positions.contains(p));
            let i = choose|i: int| 0 <= i < positions.len() && positions[i] == p;
            assert(numbers[i] == n);
        }
    }
}

proof fn lemma_blank(query: Seq<char>)
    ensures
        is_blank(query) <==> text::trimmed(query).len() == 0,
{
    if is_blank(query) {
        crate::text_laws::law_white_space_around_a_text_is_taken_off(
            query,
            Seq::empty(),
            Seq::empty(),
        );
        assert(query + Seq::empty() + Seq::empty() =~= query);
    }
    let ends = crate::text_laws::law_trimming_takes_only_white_space_off_the_ends(query);
    if text::trimmed(query).len() == 0 {
        assert(query =~= ends.0 + ends.1);
        assert forall|i: int| 0 <= i < query.len() implies text::is_space(#[trigger] query[i]) by {
            if i < ends.0.len() {
                assert(query[i] == ends.0[i]);
            } else {
                assert(query[i] == ends.1[i - ends.0.len()]);
            }
        }
    }
}

/// A snapshot tells of each staged document its number, its file and how many pages that has, in
/// the order they were staged; what is picked out there is named by number, and the search is
/// read against that document's own pages.
pub proof fn law_a_snapshot_tells_of_each_staged_document(
    given: Snapshot,
    session: SessionView,
    document: DocumentView,
    renders: Option<RendersView>,
    saving_to: Option<Seq<char>>,
    idle: bool,
    at: int,
)
    requires
        snapshot::describes(given, session, renders, saving_to, idle),
        session.open == Some(document),
        0 <= at < document.staging.len(),
        staged_at(document.staging, document.staging[at].id, at),
        document.files[document.staging[at].document as int].page_count < usize::MAX,
    ensures
        given.stages@.len() == document.staging.len(),
        ({
            let staged = document.staging[at];
            let told = given.stages@[at];
            let file = document.files[staged.document as int];
            let shown = Seq::new(
                file.page_count as nat,
                |page: int| Source { document: staged.document, page: page as usize },
            );
            &&& told.id.spec_get() == staged.id
            &&& told.path@ == file.path
            &&& told.page_count == file.page_count
            &&& numbers_the_chosen(
                view::numbers(told.selection@),
                shown,
                session.staged_selection(staged.id).chosen,
            )
            &&& file.page_count == 0 ==> told.filtered_pages is None
            &&& file.page_count > 0 ==> (told.filtered_pages is None <==> is_blank(
                session.page_filter,
            ))
            &&& file.page_count > 0 ==> snapshot::narrows(
                session.page_filter,
                file.page_count,
                snapshot::numbers_in(told.filtered_pages),
            )
        }),
{
    let staged = document.staging[at];
    let told = given.stages@[at];
    let file = document.files[staged.document as int];
    let shown = Seq::new(
        file.page_count as nat,
        |page: int| Source { document: staged.document, page: page as usize },
    );
    assert(snapshot::describes_stage(told, session, document, at));
    grid_laws::law_a_staged_document_shows_all_of_its_file(document, staged.id, at);
    assert(document.staged_sources(staged.id)->0 =~= shown);
    grid_laws::law_what_is_picked_out_is_named_by_number(
        shown,
        session.staged_selection(staged.id).chosen,
    );
    lemma_blank(session.page_filter);
}

/// A list of pages is told by their numbers, one by one.
pub proof fn law_a_list_of_pages_is_its_numbers(pages: Vec<view::PageNumber>, i: int)
    ensures
        snapshot::numbers_in(None) is None,
        snapshot::numbers_in(Some(pages)) matches Some(numbers) && numbers.len() == pages@.len() && (
        0 <= i < pages@.len() ==> numbers[i] == pages@[i].spec_get()),
{
}

/// The grid shows every page without a search, and as many as the search names with one.
pub proof fn law_how_many_pages_the_grid_shows(page_count: usize, positions: Vec<usize>)
    ensures
        PageFilter::All.spec_shown(page_count) == page_count,
        PageFilter::Only(positions).spec_shown(page_count) == positions@.len(),
{
}

/// A page of the staged document that is showing drags every page that is picked out there, if it
/// is one of them, and itself alone otherwise.
pub proof fn law_what_moves_with_a_staged_page(
    session: SessionView,
    document: DocumentView,
    stage: usize,
    at: int,
    from: usize,
)
    requires
        session.open == Some(document),
        session.active_stage == Some(stage),
        staged_at(document.staging, stage, at),
        document.files[document.staging[at].document as int].page_count < usize::MAX,
    ensures
        ({
            let moving = gesture::staged_moving_with(session, from);
            let file = document.staging[at].document;
            let count = document.files[file as int].page_count;
            let shown = Seq::new(
                count as nat,
                |page: int| Source { document: file, page: page as usize },
            );
            let chosen = session.staged_selection(stage).chosen;
            if from < count && chosen.contains(Source { document: file, page: from }) {
                numbers_the_chosen(view::numbered(moving), shown, chosen)
            } else {
                moving == seq![from]
            }
        }),
{
    let file = document.staging[at].document;
    let count = document.files[file as int].page_count;
    let shown = Seq::new(count as nat, |page: int| Source { document: file, page: page as usize });
    grid_laws::law_a_staged_document_shows_all_of_its_file(document, stage, at);
    assert(document.staged_sources(stage)->0 =~= shown);
    grid_laws::law_what_moves_with_a_page(shown, session.staged_selection(stage).chosen, from);
}

/// A report of a save is taken as it is; where the thread died, the save to that place has failed
/// and nothing is known to be written; with no report there is none.
pub proof fn law_what_a_report_of_a_save_comes_to(
    report: Saved,
    path: Seq<char>,
    saved: Option<Saved>,
)
    ensures
        saver::concludes(Arrival::Message(report), Some(path), saved) <==> saved == Some(report),
        saver::concludes(Arrival::Empty, Some(path), saved) <==> saved is None,
        saver::concludes(Arrival::Disconnected, Some(path), saved) ==> saved is Some
            && saved->0.path@ == path && saved->0.written@.len() == 0 && saved->0.error is Some
            && saved->0.error->0@ == "the save did not report back"@,
{
}

/// What is said of a page that could not be drawn names it by its number.
pub proof fn law_a_failed_page_is_named_in_its_title(key: CacheKey)
    requires
        key.page < usize::MAX,
    ensures
        queue::failed_title(key) == "page "@ + text::decimal_text((key.page + 1) as nat)
            + " could not be rendered"@,
{
}

/// Whether `at` is where a file that holds `on_disk` has `source` last.
pub open spec fn last_at(on_disk: Seq<Source>, source: Source, at: int) -> bool {
    &&& 0 <= at < on_disk.len()
    &&& on_disk[at] == source
    &&& forall|later: int| at < later < on_disk.len() ==> #[trigger] on_disk[later] != source
}

/// A source is the page of its file that stands where the file has it.
pub proof fn law_a_source_is_where_its_file_has_it_last(
    on_disk: Seq<Source>,
    pages: Seq<ObjectId>,
    source: Source,
    at: int,
)
    requires
        last_at(on_disk, source, at),
    ensures
        save::object_for(on_disk, pages, source) == Some(pages[at]),
    decreases on_disk.len(),
{
    let last = on_disk.len() - 1;
    if at < last {
        assert(on_disk[last] != source);
        let earlier = on_disk.drop_last();
        assert(forall|i: int| 0 <= i < last ==> #[trigger] earlier[i] == on_disk[i]);
        law_a_source_is_where_its_file_has_it_last(earlier, pages, source, at);
    }
}

/// A saved file shows one page for each that is shown, in that order: page `i` is the page of its
/// own document that stands where that document's file has it. Their number is the count of the
/// page tree, and each has the root as its parent.
pub proof fn law_a_saved_file_shows_the_pages_shown(
    loaded: Seq<Loaded>,
    sources: Seq<Seq<char>>,
    order: OrderView,
    destination: Seq<char>,
    i: int,
    at: int,
)
    requires
        save::holds_the_pages_shown(loaded, sources, order, destination),
        0 <= i < order.order.len(),
        last_at(order.on_disk[order.order[i].document as int], order.order[i], at),
    ensures
        ({
            let kept = pdf::pruned(save::composed(loaded, sources, order, destination)->Ok_0);
            let objects = pdf::objects_in(kept);
            let root = pdf::page_tree_of(kept)->0;
            let kids = pdf::kids_at(objects, root)->0;
            let from = save::contributed(loaded, sources, order, order.order[i].document as int);
            let page = pdf::pages_in(from)[at];
            &&& pdf::page_tree_of(kept) is Some
            &&& pdf::kids_at(objects, root) is Some
            &&& kids.len() == order.order.len()
            &&& kids[i] == Some(page)
            &&& pdf::entry_at(objects, root, "Count".spec_bytes()) == Some(
                pdf::integer_object(order.order.len() as i64),
            )
            &&& pdf::dictionary_at(objects, page) is Some ==> pdf::entry_at(
                objects,
                page,
                "Parent".spec_bytes(),
            ) == Some(pdf::reference_object(root))
            &&& forall|key: Seq<u8>|
                pdf::entry_at(pdf::objects_in(from), page, key) is Some && key
                    != "Parent".spec_bytes() && key != "Kids".spec_bytes() && key
                    != "Count".spec_bytes() ==> #[trigger] pdf::entry_at(objects, page, key)
                    == pdf::entry_at(pdf::objects_in(from), page, key)
        }),
{
    let k = order.order[i].document as int;
    let from = save::contributed(loaded, sources, order, k);
    let all = save::merged(loaded, sources, order, loaded.len())->Ok_0;
    let ids = save::objects_shown(order.order, all.files, sources, destination)->Ok_0;
    law_a_source_is_where_its_file_has_it_last(
        order.on_disk[k],
        pdf::pages_in(from),
        order.order[i],
        at,
    );
    assert(ids[i] == pdf::pages_in(from)[at]);
}

} // verus!
