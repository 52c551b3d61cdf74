//! What the window offers, says and replies.

use vstd::prelude::*;

use crate::chrome;
use crate::chrome::{Item, ItemView, Label, PressView, StatusDocument, Tone, Toolbar};
use crate::command;
use crate::command::{Command, CommandView};
use crate::confirm;
use crate::confirm::{Answer, GuardView, IntentView};
use crate::devtools;
use crate::devtools::{BenchmarkView, FrameTiming, Millis};
use crate::document;
use crate::document::{DocumentView, OpenFile, Staged};
use crate::edits;
use crate::edits::{Edits, Situation};
use crate::gesture;
use crate::grid::GridMode;
use crate::grid_laws;
use crate::grid_laws::numbers_the_chosen;
use crate::input::DropActionView;
use crate::json;
use crate::json::Json;
use crate::label;
use crate::mail::Arrival;
use crate::navigation;
use crate::picker;
use crate::picker::Purpose;
use crate::queue;
use crate::reply;
use crate::report;
use crate::report::Size;
use crate::save;
use crate::save::{Overwrite, SaveErrorView};
use crate::session::{ResultView, SessionView};
use crate::snapshot;
use crate::snapshot::StagedSnapshot;
use crate::text;
use crate::view::{Outcome, PageNumber, Rejection, ScrollMode, ViewCommand, ZoomTarget};

verus! {

/// Whether an item is a button with this text that produces this.
pub open spec fn is_button(item: ItemView, text: Seq<char>, produces: Option<PressView>) -> bool {
    item matches ItemView::Button { text: shown, produces: made, .. } && shown == text && made
        == produces
}

/// Whether an item is a toggle with this text that is lit like this and produces this.
pub open spec fn is_toggle(item: ItemView, text: Seq<char>, on: bool, produces: PressView) -> bool {
    item matches ItemView::Toggle { text: shown, on: lit, produces: made, .. } && shown == text
        && lit == on && made == produces
}

/// A button of the view produces its command.
pub open spec fn views(command: ViewCommand) -> Option<PressView> {
    Some(PressView::Command(CommandView::View(command)))
}

/// The left of the toolbar opens a file, adds one where there is something to add to, shows or
/// hides the page grid and goes to either end. No dialog is offered while one is open.
pub proof fn law_what_the_left_of_the_toolbar_does(state: Toolbar)
    ensures
        ({
            let items = chrome::left_items(state);
            &&& items.len() == 8
            &&& is_button(
                items[0],
                "Open…"@,
                if state.picker_open {
                    None
                } else {
                    Some(PressView::Dialog(Purpose::Open))
                },
            )
            &&& is_button(
                items[1],
                "Add pages…"@,
                if state.document_open && !state.picker_open {
                    Some(PressView::Dialog(Purpose::Insert))
                } else {
                    None
                },
            )
            &&& is_toggle(
                items[3],
                "Pages"@,
                state.thumbnails,
                PressView::Command(state.edits.toggle_thumbnails@),
            )
            &&& is_button(items[5], "\u{23EE}"@, views(ViewCommand::FirstPage))
            &&& is_button(items[6], "\u{23ED}"@, views(ViewCommand::LastPage))
            &&& items[2] is Separator && items[4] is Separator && items[7] is Separator
        }),
{
}

/// Whether a button with this text produces a command where it is offered.
pub open spec fn offers(item: ItemView, text: Seq<char>, command: Option<Command>) -> bool {
    match command {
        Some(command) => is_button(item, text, Some(PressView::Command(command@))),
        None => is_button(item, text, None),
    }
}

/// The middle of the toolbar offers each edit under its own name, and only where it is possible.
pub proof fn law_what_the_middle_of_the_toolbar_does(edits: Edits)
    ensures
        ({
            let items = chrome::edit_items(edits);
            &&& items.len() == 6
            &&& offers(items[0], "Up"@, edits.move_earlier)
            &&& offers(items[1], "Down"@, edits.move_later)
            &&& offers(items[2], "Delete"@, edits.delete)
            &&& offers(items[3], "Undo"@, edits.undo)
            &&& offers(items[4], "Save"@, edits.save)
            &&& items[5] is Separator
        }),
{
}

/// The right of the toolbar zooms out and in by one rung, fits the width or the page, and turns
/// to the other way of scrolling. What is in force is lit.
pub proof fn law_what_the_right_of_the_toolbar_does(target: ZoomTarget, mode: ScrollMode)
    ensures
        ({
            let items = chrome::right_items(target, mode);
            &&& items.len() == 6
            &&& is_button(items[0], "\u{2212}"@, views(ViewCommand::StepZoom { rungs: -1i32 }))
            &&& is_button(items[1], "+"@, views(ViewCommand::StepZoom { rungs: 1 }))
            &&& is_toggle(
                items[2],
                "Width"@,
                target == ZoomTarget::FitWidth,
                PressView::Command(
                    CommandView::View(ViewCommand::SetZoom { target: ZoomTarget::FitWidth }),
                ),
            )
            &&& is_toggle(
                items[3],
                "Page"@,
                target == ZoomTarget::FitPage,
                PressView::Command(
                    CommandView::View(ViewCommand::SetZoom { target: ZoomTarget::FitPage }),
                ),
            )
            &&& items[4] is Separator
            &&& mode == ScrollMode::Free ==> is_toggle(
                items[5],
                "Paged"@,
                false,
                PressView::Command(
                    CommandView::View(ViewCommand::SetScrollMode { mode: ScrollMode::Paged }),
                ),
            )
            &&& mode == ScrollMode::Paged ==> is_toggle(
                items[5],
                "Paged"@,
                true,
                PressView::Command(
                    CommandView::View(ViewCommand::SetScrollMode { mode: ScrollMode::Free }),
                ),
            )
        }),
{
}

/// The status bar says which page of how many is showing, how many pages are picked out and how
/// many failed where any are, in that order; what went wrong comes last of all.
pub proof fn law_what_the_status_bar_says(
    open: StatusDocument,
    saving_to: Option<Seq<char>>,
    unsaved: bool,
    message: Seq<char>,
)
    ensures
        ({
            let labels = chrome::document_labels(open);
            let picked: int = if open.selected > 0 {
                1
            } else {
                0
            };
            let failed: int = if open.abandoned > 0 {
                1
            } else {
                0
            };
            &&& labels.len() == 6 + picked + failed
            &&& labels[0].text == "page "@ + text::decimal_text(open.current_page as nat) + " of "@
                + text::decimal_text(open.page_count as nat)
            &&& labels[1].text == open.zoom@
            &&& labels[2].text == open.scroll_mode@
            &&& labels[3].text == open.cache@
            &&& labels[4].text == text::decimal_text(open.workers as nat) + " workers, "@
                + text::decimal_text(open.renders_in_flight as nat) + " in flight"@
            &&& labels[5].text == open.timing@
            &&& forall|i: int| 0 <= i < 6 ==> #[trigger] labels[i].tone == Tone::Plain
            &&& open.selected > 0 ==> labels[6].text == text::decimal_text(open.selected as nat)
                + " selected"@ && labels[6].tone == Tone::Selection
            &&& open.abandoned > 0 ==> labels.last().text == text::decimal_text(
                open.abandoned as nat,
            ) + " failed"@ && labels.last().tone == Tone::Error
        }),
        ({
            let said = chrome::status_labels(Some(open), saving_to, unsaved, Some(message));
            let quiet = chrome::status_labels(Some(open), saving_to, unsaved, None);
            &&& said.last().text == message && said.last().tone == Tone::Error
            &&& said.len() == quiet.len() + 1
            &&& quiet.len() == chrome::document_labels(open).len() + (if saving_to is Some
                || unsaved {
                1int
            } else {
                0
            })
        }),
        ({
            let labels = chrome::saving_labels(saving_to, unsaved);
            &&& saving_to matches Some(path) ==> labels.len() == 1 && labels[0].text
                == "saving to "@ + label::label_of(path) + "…"@ && labels[0].tone == Tone::Plain
            &&& saving_to is None && unsaved ==> labels.len() == 1 && labels[0].text
                == "unsaved changes"@ && labels[0].tone == Tone::Warning
            &&& saving_to is None && !unsaved ==> labels.len() == 0
        }),
{
}

/// Each result is replied to by its own word, and only a refusal and a failure are no success.
pub proof fn law_what_is_replied(rejection: Rejection, message: Seq<char>)
    ensures
        reply::outcome_of(ResultView::View(Outcome::Changed)) == Some("changed"@),
        reply::outcome_of(ResultView::View(Outcome::Unchanged)) == Some("unchanged"@),
        reply::outcome_of(ResultView::Opened) == Some("opened"@),
        reply::outcome_of(ResultView::Closed) == Some("closed"@),
        reply::outcome_of(ResultView::CaptureStarted) == Some("capturing"@),
        reply::outcome_of(ResultView::Edited) == Some("edited"@),
        reply::outcome_of(ResultView::Saving) == Some("saving"@),
        reply::outcome_of(ResultView::NeedsAnswer) == Some("needs_answer"@),
        reply::outcome_of(ResultView::Cancelled) == Some("cancelled"@),
        reply::outcome_of(ResultView::Unchanged) == Some("unchanged"@),
        reply::outcome_of(ResultView::Quitting) == Some("quitting"@),
        reply::outcome_of(ResultView::View(Outcome::Rejected(rejection))) is None,
        reply::outcome_of(ResultView::Failed(message)) is None,
        reply::error_of(ResultView::Failed(message)) == message,
        reply::error_of(ResultView::View(Outcome::Rejected(rejection))) == rejection.spec_message(),
{
}

/// A success and a failure carry the id of what they reply to; one has a word and no reason, the
/// other a reason and no word.
pub proof fn law_a_reply_succeeds_or_fails(
    given: reply::Reply,
    id: Option<u64>,
    other: Option<u64>,
    words: Seq<char>,
)
    ensures
        reply::succeeds(given, id, words) ==> given.id == id && given.ok && given.error is None
            && given.outcome is Some && given.outcome->0@ == words,
        reply::fails(given, id, words) ==> given.id == id && !given.ok && given.outcome is None
            && given.error is Some && given.error->0@ == words,
        !(reply::succeeds(given, id, words) && reply::fails(given, other, words)),
{
}

/// The answers and the modes of the grid are read by their wire names, and nothing else is.
pub proof fn law_names_mean_what_they_say(name: Seq<char>)
    ensures
        Answer::named("save"@) == Some(Answer::Save),
        Answer::named("discard"@) == Some(Answer::Discard),
        Answer::named("cancel"@) == Some(Answer::Cancel),
        Answer::named(name) is Some ==> name == "save"@ || name == "discard"@ || name == "cancel"@,
        GridMode::named("navigate"@) == Some(GridMode::Navigate),
        GridMode::named("reorganize"@) == Some(GridMode::Reorganize),
        GridMode::named("merge"@) == Some(GridMode::Merge),
        GridMode::named(name) is Some ==> name == "navigate"@ || name == "reorganize"@ || name
            == "merge"@,
{
    reveal_strlit("save");
    reveal_strlit("discard");
    reveal_strlit("cancel");
    reveal_strlit("navigate");
    reveal_strlit("reorganize");
    reveal_strlit("merge");
    assert("save"@[0] == 's' && "discard"@[0] == 'd' && "cancel"@[0] == 'c');
    assert("navigate"@[0] == 'n' && "reorganize"@[0] == 'r' && "merge"@[0] == 'm');
}

/// What would lose the document is what the command says, and is asked about in its own words.
/// Only a question that is open is waited for.
pub proof fn law_what_is_asked_about_is_what_was_asked_for(
    session: SessionView,
    intent: IntentView,
    path: Seq<char>,
)
    ensures
        confirm::intent_in(CommandView::Quit) == Some(IntentView::Quit),
        confirm::intent_in(CommandView::Close) == Some(IntentView::CloseDocument),
        confirm::intent_in(CommandView::Open { path }) == Some(IntentView::Open(path)),
        IntentView::Quit.described() == "quit"@,
        IntentView::CloseDocument.described() == "close this document"@,
        IntentView::Open(path).described() == "open "@ + path,
        session.guard == Some(GuardView::Asking(intent)) ==> snapshot::awaited(session) == Some(
            intent.described(),
        ),
        session.guard == Some(GuardView::Saving(intent)) ==> snapshot::awaited(session) is None,
        session.guard is None ==> snapshot::awaited(session) is None,
{
}

/// The edits possible are told by what is shown: how many pages there are, whether a step is
/// remembered, whether the order differs from the file, and what is picked out.
pub proof fn law_the_situation_is_that_of_the_document(
    situation: Situation,
    session: SessionView,
    document: DocumentView,
    current: PageNumber,
    saving: bool,
)
    requires
        gesture::situation_in(situation, session, current, saving),
        document.order.order.len() < usize::MAX,
    ensures
        situation.current == current,
        situation.saving == saving,
        situation.thumbnails == session.thumbnails,
        session.open is None ==> situation.pages == 0 && !situation.can_undo
            && situation.selection@.len() == 0,
        session.open == Some(document) ==> {
            let shown = document.order.order;
            let numbers = crate::view::numbers(situation.selection@);
            &&& situation.pages == shown.len()
            &&& situation.can_undo == (document.order.history.len() > 0)
            &&& situation.unsaved_changes == (shown != document.order.saved)
            &&& numbers_the_chosen(numbers, shown, session.selection.chosen)
        },
{
    grid_laws::law_what_is_picked_out_is_named_by_number(
        document.order.order,
        session.selection.chosen,
    );
    if session.open is None {
        assert(crate::view::numbers(situation.selection@).len() == 0);
    }
}

/// A command that moves a page names that page and where it goes, one that deletes names the
/// pages it deletes, and no other command does either.
pub proof fn law_what_an_edit_offered_names(
    from: PageNumber,
    to: PageNumber,
    other: PageNumber,
    number: int,
    pages: Seq<PageNumber>,
    named: Vec<PageNumber>,
)
    ensures
        edits::moves(Some(Command::MovePage { from, to }), other, number) <==> from == other
            && to.spec_get() == number,
        edits::deletes(Some(Command::DeletePages { pages: named }), pages) <==> named@ == pages,
        !edits::moves(None, other, number),
        !edits::deletes(None, pages),
        !edits::moves(Some(Command::Undo), other, number),
        !edits::deletes(Some(Command::Undo), pages),
        navigation::offered(true, ViewCommand::NextPage) == Some(
            Command::View(ViewCommand::NextPage),
        ),
        navigation::offered(false, ViewCommand::NextPage) is None,
{
}

/// A request to save is refused exactly where it names a different number of files than there
/// are documents, where it would replace a file it must not, and where it names none.
pub proof fn law_when_a_request_to_save_is_refused(
    paths: nat,
    documents: nat,
    destination: Seq<char>,
    exists: bool,
    overwrite: Overwrite,
)
    ensures
        ({
            let refusal = save::refusal(paths, documents, destination, exists, overwrite);
            &&& refusal is None <==> paths == documents && paths > 0 && !(exists && overwrite
                == Overwrite::Refuse)
            &&& refusal == Some(SaveErrorView::WouldOverwrite { path: destination }) <==> paths
                == documents && exists && overwrite == Overwrite::Refuse
            &&& paths != documents ==> refusal == Some(
                SaveErrorView::PageTree {
                    path: destination,
                    detail: "given "@ + text::decimal_text(paths)
                        + " source path(s) for an order spanning "@ + text::decimal_text(documents)
                        + " document(s)"@,
                },
            )
        }),
{
}

/// What is wrong is said with the numbers in their places.
pub proof fn law_numbers_stand_in_their_places(
    page: PageNumber,
    count: usize,
    path: Seq<char>,
    opened: nat,
    found: nat,
    width: u32,
    height: u32,
    bytes: usize,
)
    ensures
        (Rejection::NoSuchPage { page, page_count: count }).spec_message() == "page "@
            + text::decimal_text(page.spec_get() as nat) + " does not exist; the document has "@
            + text::decimal_text(count as nat) + " page(s)"@,
        (SaveErrorView::PageCountMismatch { path, opened, found }).message() == "cannot edit "@
            + path + " safely: its page tree was expected to hold "@ + text::decimal_text(opened)
            + " page(s) but reads as "@ + text::decimal_text(found) + " for writing"@,
        (SaveErrorView::WouldOverwrite { path }).message() == path + " already exists"@,
        save::source_text(crate::order::Source { document: count, page: bytes })
            == "Source { document: "@ + text::decimal_text(count as nat) + ", page: "@
            + text::decimal_text(bytes as nat) + " }"@,
        queue::misshapen(width, height, bytes) == "renderer returned "@ + text::decimal_text(
            bytes as nat,
        ) + " bytes for a "@ + text::decimal_text(width as nat) + "x"@ + text::decimal_text(
            height as nat,
        ) + " page"@,
        devtools::too_late(width) == "no screenshot arrived within "@ + text::decimal_text(
            width as nat,
        ) + " frames"@,
{
}

/// The hint over the window names the file that will be opened or added, and warns of the
/// question that opening one will bring where changes are unsaved; other files are mentioned
/// only where there are any.
pub proof fn law_the_hint_says_what_the_drop_does(path: Seq<char>, ignored: nat, unsaved: bool)
    ensures
        (DropActionView::Open { path, ignored: 0 }).hint(false) == "Open "@ + label::label_of(path),
        (DropActionView::Insert { path, ignored: 0 }).hint(unsaved) == "Add pages from "@
            + label::label_of(path),
        (DropActionView::Open { path, ignored }).hint(true) == (DropActionView::Open {
            path,
            ignored,
        }).hint(false) + " — "@ + "you will be asked about your unsaved page changes"@,
        ignored > 0 ==> (DropActionView::Open { path, ignored }).hint(false) == "Open "@
            + label::label_of(path) + (" — "@ + "ignoring "@ + text::decimal_text(ignored)
            + " other file(s)"@),
        ignored > 0 ==> (DropActionView::Insert { path, ignored }).hint(unsaved)
            == "Add pages from "@ + label::label_of(path) + (" — "@ + "ignoring "@
            + text::decimal_text(ignored) + " other file(s)"@),
        (DropActionView::Refuse { reason: path }).hint(unsaved) == path,
{
}

/// A dialog that answered is closed with what was chosen, one that died is closed with nothing,
/// and one that has said nothing yet stays open.
pub proof fn law_a_dialog_stays_open_until_it_answers(chosen: Option<String>)
    ensures
        picker::settled(Arrival::Message(chosen)) == (false, chosen),
        picker::settled(Arrival::Disconnected) == (false, None::<String>),
        picker::settled(Arrival::Empty) == (true, None::<String>),
{
}

/// Times stand in the order of the numbers they are: below zero before zero and up, the further
/// below the earlier; what is no number stands beyond all that are.
pub proof fn law_times_are_ordered_by_what_they_are(a: Millis, b: Millis)
    ensures
        a.bits < b.bits < 0x8000_0000 ==> a.spec_rank() < b.spec_rank(),
        0x8000_0000 <= a.bits < b.bits ==> b.spec_rank() < a.spec_rank(),
        a.bits < 0x8000_0000 <= b.bits ==> b.spec_rank() < a.spec_rank(),
        a.spec_is_nan() <==> 0x7F80_0000 < a.bits < 0x8000_0000 || a.bits > 0xFF80_0000,
{
}

/// The worse of two times is one of them, and neither is above it; what is no number never
/// replaces what was.
pub proof fn law_the_worse_time_is_the_higher_one(worst: Millis, time: Millis)
    ensures
        ({
            let kept = devtools::worse(worst, time);
            &&& kept == worst || kept == time
            &&& kept.spec_rank() >= worst.spec_rank()
            &&& !time.spec_is_nan() ==> kept.spec_rank() >= time.spec_rank()
            &&& time.spec_is_nan() ==> kept == worst
        }),
{
}

/// Sixty frames come before the first that is measured, and only their worst is kept.
pub proof fn law_sixty_frames_are_not_measured(frames: u32, timing: FrameTiming, view: BenchmarkView)
    ensures
        devtools::fresh(frames).warmup_left == 60,
        devtools::fresh(frames).measured.len() == 0,
        devtools::fresh(frames).warmup_worst.bits == 0,
        frames > 0 ==> devtools::fresh(frames).frames_left == frames,
        devtools::fresh(0).frames_left == 1,
        view.warmup_left > 0 ==> {
            let after = view.recorded(timing);
            &&& after.warmup_left + 1 == view.warmup_left
            &&& after.measured == view.measured
            &&& after.frames_left == view.frames_left
            &&& after.warmup_worst == devtools::worse(view.warmup_worst, timing.frame_ms)
        },
        view.warmup_left == 0 && view.frames_left > 0 ==> {
            let after = view.recorded(timing);
            &&& after.warmup_left == 0
            &&& after.measured == view.measured.push(timing)
            &&& after.frames_left + 1 == view.frames_left
            &&& after.warmup_worst == view.warmup_worst
        },
{
}

/// The time at a percentage stands as near to that part of the way as any, and at the whole of
/// it stands the last.
pub proof fn law_the_time_at_a_percentage_is_the_nearest(count: nat, percent: nat)
    requires
        count > 0,
        percent <= 100,
    ensures
        ({
            let at = devtools::rank_at(count, percent) as int;
            let way = (count - 1) * percent;
            &&& 0 <= at < count
            &&& 100 * at - 50 <= way < 100 * at + 50
        }),
        devtools::rank_at(count, 0) == 0,
        devtools::rank_at(count, 100) == count - 1,
{
    let way = (count - 1) * percent;
    assert(0 <= way <= (count - 1) * 100) by (nonlinear_arith)
        requires
            count > 0,
            percent <= 100,
            way == (count - 1) * percent,
    ;
    assert((count - 1) * 0 == 0) by (nonlinear_arith);
}

/// The times in order are those measured, none before a lower one.
pub proof fn law_times_in_order_are_the_times_measured(samples: Seq<Millis>, i: int, j: int)
    requires
        0 <= i < j < samples.len(),
    ensures
        devtools::in_order(samples).len() == samples.len(),
        devtools::in_order(samples)[i].spec_rank() <= devtools::in_order(samples)[j].spec_rank(),
        devtools::in_order(samples).to_multiset() == samples.to_multiset(),
{
    let leq = |a: Millis, b: Millis| a.spec_rank() <= b.spec_rank();
    devtools::lemma_ordered();
    samples.lemma_sort_by_ensures(leq);
    let sorted = samples.sort_by(leq);
    assert(devtools::in_order(samples) == sorted);
    assert(sorted.len() == samples.len()) by {
        broadcast use vstd::seq_lib::group_to_multiset_ensures;

        assert(sorted.len() == sorted.to_multiset().len());
    }
    assert(leq(sorted[i], sorted[j]));
}

/// One size is said to be that of every page; of several, the first five are listed under their
/// number, and how many more there are is said where there are more.
pub proof fn law_how_sizes_are_listed(sizes: Seq<Size>)
    ensures
        ({
            let lines = report::size_lines(sizes);
            let listed: int = if sizes.len() < 5 {
                sizes.len() as int
            } else {
                5
            };
            &&& sizes.len() == 1 ==> lines.len() == 1 && lines[0] == "  page size:     "@
                + report::size_text(sizes[0]) + " (uniform)"@
            &&& sizes.len() != 1 ==> {
                &&& lines.len() == 1 + listed + (if sizes.len() > 5 {
                    1int
                } else {
                    0
                })
                &&& lines[0] == "  page sizes:    "@ + text::decimal_text(sizes.len())
                    + " distinct"@
                &&& forall|i: int|
                    0 <= i < listed ==> lines[i + 1] == "                 "@ + report::size_text(
                        #[trigger] sizes[i],
                    )
                &&& sizes.len() > 5 ==> lines.last() == "                 ... and "@
                    + text::decimal_text((sizes.len() - 5) as nat) + " more"@
            }
        }),
{
}

/// A size is said width first, and sizes are ordered by width and then by height.
pub proof fn law_width_comes_before_height(left: Size, right: Size)
    ensures
        report::size_text(left) == text::signed_text(left.0 as int) + "x"@ + text::signed_text(
            left.1 as int,
        ) + " pt"@,
        left.0 < right.0 ==> report::before(left, right),
        left.0 > right.0 ==> !report::before(left, right),
        left.0 == right.0 ==> report::before(left, right) == (left.1 < right.1),
{
}

/// The staged document showing is the first in the list with its id.
pub proof fn law_a_staged_document_is_found_by_its_id(
    stages: Seq<StagedSnapshot>,
    stage: usize,
    at: int,
)
    ensures
        0 <= at < stages.len() && stages[at].id.spec_get() == stage && (forall|i: int|
            0 <= i < at ==> (#[trigger] stages[i]).id.spec_get() != stage) ==> snapshot::index_of(
            stages,
            stage,
        ) == Some(at),
        (forall|i: int| 0 <= i < stages.len() ==> (#[trigger] stages[i]).id.spec_get() != stage)
            ==> snapshot::index_of(stages, stage) is None,
    decreases stages.len(),
{
    if stages.len() > 0 {
        let rest = stages.drop_first();
        law_a_staged_document_is_found_by_its_id(rest, stage, at - 1);
        assert(forall|i: int| 0 <= i < rest.len() ==> #[trigger] rest[i] == stages[i + 1]);
        assert(stages[0] == stages.first());
    }
}

/// A list of what the window shows is told item by item, in its order.
pub proof fn law_what_is_shown_is_told_item_by_item(
    items: Seq<Item>,
    labels: Seq<Label>,
    lines: Seq<String>,
    names: Seq<&'static str>,
    i: int,
)
    ensures
        chrome::items_in(items).len() == items.len(),
        0 <= i < items.len() ==> chrome::items_in(items)[i] == items[i]@,
        chrome::labels_in(labels).len() == labels.len(),
        0 <= i < labels.len() ==> chrome::labels_in(labels)[i].text == labels[i].text@
            && chrome::labels_in(labels)[i].tone == labels[i].tone,
        report::texts(lines).len() == lines.len(),
        0 <= i < lines.len() ==> report::texts(lines)[i] == lines[i]@,
        save::texts(lines).len() == lines.len(),
        0 <= i < lines.len() ==> save::texts(lines)[i] == lines[i]@,
        command::texts(names).len() == names.len(),
        0 <= i < names.len() ==> command::texts(names)[i] == names[i]@,
{
}

/// The files and the staged documents of a document, and the members of an object, are told one
/// by one, in their order.
pub proof fn law_what_is_held_is_told_one_by_one(
    files: Seq<OpenFile>,
    staging: Seq<Staged>,
    members: Seq<(String, Json)>,
    i: int,
)
    ensures
        document::files_in(files).len() == files.len(),
        0 <= i < files.len() ==> document::files_in(files)[i] == files[i]@,
        document::staging_in(staging).len() == staging.len(),
        0 <= i < staging.len() ==> document::staging_in(staging)[i] == staging[i]@,
        json::members_in(members).len() == members.len(),
        0 <= i < members.len() ==> json::members_in(members)[i].0 == members[i].0@
            && json::members_in(members)[i].1 == members[i].1@,
{
}

} // verus!
