//! Driving the whole program by its commands, with files that are only a number of pages.

use porpoise::command::Command;
use porpoise::confirm::{Answer, Guard, Intent};
use porpoise::edits::Edits;
use porpoise::gesture::situation;
use porpoise::grid::GridMode;
use porpoise::order::Source;
use porpoise::protocol::{receive, RequestBody};
use porpoise::reply::{event_for, event_for_save, Event, IdleWatch, Reply};
use porpoise::saver::Saved;
use porpoise::selection::Pick;
use porpoise::session::{DispatchResult, Effect, Session, Step};
use porpoise::snapshot::{settled, snapshot, Snapshot};
use porpoise::stage::StageId;
use porpoise::view::{Outcome, PageNumber};

const PAGES: usize = 6;

/// A session, the files there are, and a save that may be running.
struct Desk {
    session: Session,
    files: Vec<(String, usize)>,
    saving: Option<(String, Vec<Source>)>,
    events: Vec<Event>,
    closed: bool,
}

impl Desk {
    fn empty(files: &[(&str, usize)]) -> Desk {
        Desk {
            session: Session::new(),
            files: files.iter().map(|(path, pages)| (String::from(*path), *pages)).collect(),
            saving: None,
            events: Vec::new(),
            closed: false,
        }
    }

    fn with(path: &str, pages: usize, others: &[(&str, usize)]) -> Desk {
        let mut desk = Desk::empty(others);
        desk.files.push((String::from(path), pages));
        desk.session = Session::with_document(String::from(path), pages);
        desk
    }

    fn perform(&mut self, effect: Effect) {
        if let Some(event) = event_for(&effect) {
            self.events.push(event);
        }
        match effect {
            Effect::Save { destination, .. } => {
                let order = self.session.open().expect("something to save").order();
                self.saving = Some((destination, order.as_slice().to_vec()));
            }
            Effect::CloseWindow => self.closed = true,
            _ => {}
        }
    }

    fn finish(&mut self, step: Step) -> DispatchResult {
        match step {
            Step::Done { result, effect } => {
                self.perform(effect);
                result
            }
            Step::Apply(_) => DispatchResult::View(Outcome::Changed),
            Step::Read(read) => {
                let found = self.files.iter().find(|(path, _)| *path == read.path);
                let outcome = match found {
                    Some((_, pages)) => Ok(*pages),
                    None => Err(format!("{}: no such file", read.path)),
                };
                let step = self.session.file_read(read, outcome);
                self.finish(step)
            }
        }
    }

    fn dispatch(&mut self, command: Command) -> DispatchResult {
        let step = self.session.dispatch(command, self.saving.is_some());
        self.finish(step)
    }

    fn send(&mut self, line: &str) -> Reply {
        match receive(line) {
            Err(refusal) => Reply::failed(refusal.id, &refusal.reason.message()),
            Ok(None) => panic!("{line} is blank"),
            Ok(Some(request)) => match request.body {
                RequestBody::Command(command) => self.dispatch(command).into_reply(request.id),
                RequestBody::Snapshot => Reply::with_snapshot(request.id, self.snapshot()),
                RequestBody::Commands => Reply::with_commands(request.id),
            },
        }
    }

    fn outcome(&mut self, line: &str) -> Option<&'static str> {
        self.send(line).outcome
    }

    fn snapshot(&self) -> Snapshot {
        let saving_to = self.saving.as_ref().map(|(path, _)| path.as_str());
        let idle = settled(&self.session, false, self.saving.is_some(), false);
        snapshot(&self.session, None, saving_to, idle)
    }

    fn page_count(&self) -> usize {
        self.session.open().map_or(0, |open| open.order().len())
    }

    fn shown(&self) -> Vec<(usize, usize)> {
        let order = self.session.open().expect("a document").order();
        order.as_slice().iter().map(|source| (source.document, source.page)).collect()
    }

    fn selection(&self) -> Vec<usize> {
        numbers(&self.snapshot().selection)
    }

    fn report(&mut self, saved: Saved) {
        self.events.push(event_for_save(&saved));
        if let Some(step) = self.session.save_finished(saved) {
            self.finish(step);
        }
    }

    fn save_ends(&mut self) {
        let (path, written) = self.saving.take().expect("a save running");
        self.files.retain(|(known, _)| *known != path);
        self.files.push((path.clone(), written.len()));
        self.report(Saved { path, written, error: None });
    }

    fn save_fails(&mut self, error: &str) {
        let (path, written) = self.saving.take().expect("a save running");
        self.report(Saved { path, written, error: Some(String::from(error)) });
    }

    fn make_it_dirty(&mut self) {
        assert_eq!(
            self.outcome(r#"{"command":"move_page","from":1,"to":3}"#),
            Some("edited"),
            "the fixture did not become dirty"
        );
        assert!(self.snapshot().unsaved_changes);
    }
}

fn numbers(pages: &[PageNumber]) -> Vec<usize> {
    pages.iter().map(|page| page.get()).collect()
}

fn page(number: usize) -> PageNumber {
    PageNumber::new(number).expect("not zero")
}

#[test]
fn an_agent_can_open_a_document_that_was_not_on_the_command_line() {
    let mut desk = Desk::empty(&[("e2e-open.pdf", PAGES)]);
    assert_eq!(desk.page_count(), 0, "expected an empty window");

    let reply = desk.send(r#"{"id":1,"command":"open","path":"e2e-open.pdf"}"#);
    assert!(reply.ok);
    assert_eq!(
        desk.events,
        [Event::DocumentOpened { path: String::from("e2e-open.pdf"), page_count: PAGES }]
    );
    assert_eq!(desk.page_count(), PAGES);
}

#[test]
fn an_agent_can_reorder_a_document_and_save_it() {
    let mut desk = Desk::with("e2e-reorder.pdf", PAGES, &[]);
    assert!(!desk.snapshot().unsaved_changes, "a freshly opened document reported unsaved changes");

    assert_eq!(desk.outcome(r#"{"command":"move_page","from":1,"to":3}"#), Some("edited"));
    assert_eq!(desk.events, [Event::PagesReordered { page_count: PAGES }]);
    let snapshot = desk.snapshot();
    assert!(snapshot.unsaved_changes);
    assert!(snapshot.can_undo);
    assert_eq!(desk.page_count(), PAGES, "a move changed the page count");

    assert_eq!(desk.outcome(r#"{"command":"delete_page","page":2}"#), Some("edited"));
    assert_eq!(desk.page_count(), PAGES - 1, "the deleted page is still counted");

    assert_eq!(desk.outcome(r#"{"command":"undo"}"#), Some("edited"));
    assert_eq!(desk.page_count(), PAGES, "undo did not restore the deleted page");
    assert!(desk.snapshot().unsaved_changes, "undo went back further than one edit");

    assert_eq!(
        desk.outcome(r#"{"command":"save_as","path":"e2e-reorder-saved.pdf"}"#),
        Some("saving"),
        "a save must not claim to be finished before the file exists"
    );
    assert_eq!(desk.snapshot().saving_to.as_deref(), Some("e2e-reorder-saved.pdf"));
    desk.save_ends();
    assert_eq!(
        desk.events.last(),
        Some(&Event::Saved { path: String::from("e2e-reorder-saved.pdf") })
    );
    assert_eq!(desk.outcome(r#"{"command":"open","path":"e2e-reorder-saved.pdf"}"#), Some("opened"));
    assert_eq!(desk.page_count(), PAGES, "the saved document has the wrong number of pages");
}

#[test]
fn an_agent_can_insert_pages_from_another_document_and_save_it() {
    let mut desk = Desk::with("primary.pdf", 3, &[("inserted.pdf", 2)]);
    assert_eq!(desk.page_count(), 3);
    assert!(!desk.snapshot().unsaved_changes);

    assert_eq!(desk.outcome(r#"{"command":"insert_file","path":"inserted.pdf"}"#), Some("edited"));
    assert_eq!(
        desk.events.last(),
        Some(&Event::PagesReordered { page_count: 5 }),
        "expected 3 + 2 pages after inserting"
    );
    assert!(desk.snapshot().unsaved_changes, "inserting pages was not counted as an unsaved change");
    assert_eq!(desk.page_count(), 5);

    assert_eq!(
        desk.outcome(r#"{"command":"move_page","from":4,"to":1}"#),
        Some("edited"),
        "the inserted page could not be moved like any other"
    );
    assert_eq!(desk.shown(), [(1, 0), (0, 0), (0, 1), (0, 2), (1, 1)]);

    assert_eq!(desk.outcome(r#"{"command":"save_as","path":"saved.pdf"}"#), Some("saving"));
    desk.save_ends();
    assert_eq!(desk.events.last(), Some(&Event::Saved { path: String::from("saved.pdf") }));
    assert!(!desk.snapshot().unsaved_changes);
    assert_eq!(desk.outcome(r#"{"command":"open","path":"saved.pdf"}"#), Some("opened"));
    assert_eq!(desk.page_count(), 5, "the merged document has the wrong number of pages");
}

#[test]
fn an_agent_can_stage_a_document_and_insert_its_pages_and_save_it() {
    let mut desk = Desk::with("primary.pdf", 3, &[("staged.pdf", 3)]);
    assert_eq!(desk.snapshot().showing(), None, "nothing was staged yet");

    assert_eq!(
        desk.outcome(r#"{"command":"stage_document","path":"staged.pdf"}"#),
        Some("changed"),
        "stage_document did not report a change"
    );
    let snapshot = desk.snapshot();
    assert_eq!(snapshot.showing().map(|staged| staged.path.as_str()), Some("staged.pdf"));
    assert_eq!(desk.page_count(), 3, "staging alone changed the open document's page count");
    assert!(!snapshot.unsaved_changes, "staging alone counted as an unsaved change");

    assert_eq!(
        desk.outcome(r#"{"command":"insert_pages","pages":[1],"at":2}"#),
        Some("edited"),
        "insert_pages did not report an edit"
    );
    assert_eq!(
        desk.events.last(),
        Some(&Event::PagesReordered { page_count: 4 }),
        "expected 3 + 1 pages after inserting"
    );
    assert_eq!(desk.shown(), [(0, 0), (1, 0), (0, 1), (0, 2)]);

    assert_eq!(
        desk.outcome(r#"{"command":"insert_pages","pages":[2,3],"at":1}"#),
        Some("edited"),
        "a second insert_pages from the same staged document was refused"
    );
    assert_eq!(
        desk.events.last(),
        Some(&Event::PagesReordered { page_count: 6 }),
        "expected 4 + 2 pages after the second insert"
    );

    assert_eq!(desk.outcome(r#"{"command":"clear_staging"}"#), Some("changed"));
    assert_eq!(desk.snapshot().showing(), None, "clear_staging did not clear the staged path");
    assert_eq!(desk.page_count(), 6, "clearing staging discarded already-inserted pages");
    assert_eq!(desk.outcome(r#"{"command":"clear_staging"}"#), Some("unchanged"));

    assert_eq!(desk.outcome(r#"{"command":"save_as","path":"saved.pdf"}"#), Some("saving"));
    desk.save_ends();
    assert_eq!(desk.outcome(r#"{"command":"open","path":"saved.pdf"}"#), Some("opened"));
    assert_eq!(desk.page_count(), 6, "the merged document has the wrong number of pages");
}

#[test]
fn an_agent_can_select_all_of_the_staged_documents_pages() {
    let mut desk = Desk::with("primary.pdf", 2, &[("staged.pdf", 3)]);
    let staged_selection = |desk: &Desk| -> Vec<usize> {
        desk.snapshot().showing().map_or(Vec::new(), |staged| numbers(&staged.selection))
    };

    assert_eq!(
        desk.outcome(r#"{"command":"stage_document","path":"staged.pdf"}"#),
        Some("changed")
    );
    assert!(staged_selection(&desk).is_empty(), "something was picked out right after staging");

    let reply = desk.send(r#"{"command":"set_staged_selection","path":"primary.pdf","pages":[1]}"#);
    assert!(!reply.ok);
    assert!(
        reply.error.as_ref().is_some_and(|error| error.contains("is staged")),
        "unexpected error: {reply:?}"
    );
    assert!(staged_selection(&desk).is_empty(), "the refused request still picked something out");

    let all = r#"{"command":"set_staged_selection","path":"staged.pdf","pages":[1,2,3]}"#;
    assert_eq!(desk.outcome(all), Some("changed"), "set_staged_selection did not report a change");
    assert_eq!(staged_selection(&desk), vec![1, 2, 3], "every staged page should be picked out");
    assert_eq!(desk.outcome(all), Some("unchanged"));

    assert_eq!(
        desk.outcome(r#"{"command":"set_staged_selection","path":"staged.pdf","pages":[]}"#),
        Some("changed")
    );
    assert!(staged_selection(&desk).is_empty());

    assert_eq!(desk.outcome(r#"{"command":"clear_staging"}"#), Some("changed"));
    let reply = desk.send(r#"{"command":"set_staged_selection","path":"staged.pdf","pages":[1]}"#);
    assert!(!reply.ok);
    assert!(
        reply.error.as_ref().is_some_and(|error| error.contains("nothing is staged")),
        "unexpected error: {reply:?}"
    );
}

#[test]
fn staging_a_document_with_nothing_open_is_refused() {
    let mut desk = Desk::empty(&[]);
    let reply = desk.send(r#"{"command":"stage_document","path":"does-not-matter.pdf"}"#);
    assert!(!reply.ok, "staged a document into a window with nothing open: {reply:?}");
    assert!(
        reply.error.as_ref().is_some_and(|error| error.contains("nothing is open")),
        "unexpected error: {reply:?}"
    );
}

#[test]
fn inserting_a_file_with_nothing_open_is_refused() {
    let mut desk = Desk::empty(&[("refused.pdf", 2)]);
    let reply = desk.send(r#"{"command":"insert_file","path":"refused.pdf"}"#);
    assert!(!reply.ok, "inserted pages into a window with nothing open: {reply:?}");
}

#[test]
fn the_page_grid_can_be_opened_and_closed_by_command() {
    let mut desk = Desk::with("grid.pdf", PAGES, &[]);
    assert!(!desk.snapshot().thumbnails, "the grid was showing before it was asked for");

    let show = r#"{"command":"set_thumbnails","visible":true}"#;
    assert_eq!(desk.outcome(show), Some("changed"));
    assert!(desk.snapshot().thumbnails);
    assert_eq!(desk.outcome(show), Some("unchanged"));
    assert_eq!(desk.outcome(r#"{"command":"set_thumbnails","visible":false}"#), Some("changed"));
    assert!(!desk.snapshot().thumbnails);

    let reply = desk.send(r#"{"command":"set_thumbnails"}"#);
    assert!(!reply.ok, "set_thumbnails with no argument was accepted");
}

#[test]
fn pages_can_be_picked_out_and_moved_as_a_group() {
    let mut desk = Desk::with("group.pdf", PAGES, &[]);
    assert!(desk.selection().is_empty(), "something was picked out before anything asked for it");

    assert_eq!(desk.outcome(r#"{"command":"set_selection","pages":[2,4,5]}"#), Some("changed"));
    assert_eq!(desk.selection(), vec![2, 4, 5]);

    assert_eq!(
        desk.outcome(r#"{"command":"move_pages","from":[2,4,5],"to":2}"#),
        Some("edited")
    );
    assert_eq!(
        desk.selection(),
        vec![2, 3, 4],
        "the selection did not follow the pages it was pointing at"
    );

    assert_eq!(desk.outcome(r#"{"command":"undo"}"#), Some("edited"));
    assert_eq!(desk.selection(), vec![2, 4, 5], "undo left the group half moved");

    assert_eq!(desk.outcome(r#"{"command":"delete_pages","pages":[2,4,5]}"#), Some("edited"));
    assert_eq!(desk.page_count(), 3, "a six-page document lost the wrong number of pages");
    assert!(desk.selection().is_empty(), "pages that are gone still counted as picked out");

    assert_eq!(desk.outcome(r#"{"command":"delete_pages","pages":[1,2,3]}"#), Some("unchanged"));
    assert_eq!(desk.page_count(), 3, "emptying the document was accepted");

    let reply = desk.send(r#"{"command":"set_selection","pages":[0]}"#);
    assert!(!reply.ok, "page zero was accepted in a list");

    assert_eq!(
        desk.outcome(r#"{"command":"quit"}"#),
        Some("needs_answer"),
        "a group edit did not count as unsaved changes"
    );
    assert_eq!(desk.outcome(r#"{"command":"answer","choice":"discard"}"#), Some("quitting"));
    assert!(desk.closed);
}

#[test]
fn the_page_grid_can_be_narrowed_to_a_few_pages() {
    let mut desk = Desk::with("filter.pdf", PAGES, &[]);
    let filtered = |desk: &Desk| desk.snapshot().filtered_pages.map(|pages| numbers(&pages));
    assert_eq!(filtered(&desk), None, "the grid was narrowed before anything asked");

    assert_eq!(desk.outcome(r#"{"command":"set_page_filter","query":"2-4"}"#), Some("changed"));
    assert_eq!(filtered(&desk), Some(vec![2, 3, 4]));
    assert_eq!(desk.snapshot().page_filter, "2-4", "the query itself was not reported back");

    assert!(desk.send(r#"{"command":"set_page_filter","query":"1,3-4,99"}"#).ok);
    assert_eq!(filtered(&desk), Some(vec![1, 3, 4]));

    let nonsense = r#"{"command":"set_page_filter","query":"nonsense"}"#;
    assert!(
        desk.send(nonsense).ok,
        "an unreadable query was refused; it should match nothing instead"
    );
    assert_eq!(filtered(&desk), Some(Vec::new()));
    assert_eq!(desk.outcome(nonsense), Some("unchanged"));

    desk.send(r#"{"command":"set_thumbnails","visible":true}"#);
    desk.send(r#"{"command":"set_grid_mode","mode":"reorganize"}"#);
    desk.send(r#"{"command":"set_page_filter","query":""}"#);
    desk.send(r#"{"command":"set_selection","pages":[1,2]}"#);
    assert_eq!(desk.selection().len(), 2);
    desk.send(r#"{"command":"set_page_filter","query":"5"}"#);
    assert_eq!(desk.selection().len(), 0, "narrowing kept a selection the query had hidden");

    assert!(desk.send(r#"{"command":"set_page_filter"}"#).ok);
    assert_eq!(filtered(&desk), None);

    let reply = desk.send(r#"{"command":"set_page_filter","query":7}"#);
    assert!(!reply.ok, "a numeric query was accepted; it should ask for a string");
}

#[test]
fn the_search_box_narrows_the_staging_viewport_independently() {
    let mut desk = Desk::with("primary.pdf", 3, &[("staged.pdf", 10)]);
    let staged_filtered = |desk: &Desk| -> Option<Vec<usize>> {
        let snapshot = desk.snapshot();
        let staged = snapshot.showing()?;
        staged.filtered_pages.as_ref().map(|pages| numbers(pages))
    };
    assert_eq!(staged_filtered(&desk), None, "nothing is staged yet, so there is nothing to narrow");

    assert_eq!(
        desk.outcome(r#"{"command":"stage_document","path":"staged.pdf"}"#),
        Some("changed")
    );
    assert_eq!(staged_filtered(&desk), None);

    assert_eq!(desk.outcome(r#"{"command":"set_page_filter","query":"1-9"}"#), Some("changed"));
    assert_eq!(
        desk.snapshot().filtered_pages.map(|pages| numbers(&pages)),
        Some(vec![1, 2, 3]),
        "the 3-page primary should clamp to its own three pages"
    );
    assert_eq!(
        staged_filtered(&desk),
        Some(vec![1, 2, 3, 4, 5, 6, 7, 8, 9]),
        "the 10-page staged document should show pages 1 through 9, not the primary's three"
    );

    assert_eq!(desk.outcome(r#"{"command":"clear_staging"}"#), Some("changed"));
    assert_eq!(staged_filtered(&desk), None);
}

#[test]
fn leaving_reorganize_mode_forgets_the_selection() {
    let mut desk = Desk::with("selection.pdf", PAGES, &[]);
    desk.send(r#"{"command":"set_thumbnails","visible":true}"#);
    desk.send(r#"{"command":"set_grid_mode","mode":"reorganize"}"#);
    desk.send(r#"{"command":"set_selection","pages":[1,2]}"#);
    assert_eq!(desk.selection().len(), 2);

    desk.send(r#"{"command":"set_grid_mode","mode":"navigate"}"#);
    assert_eq!(
        desk.selection().len(),
        0,
        "switching to navigation kept a selection nothing was drawing"
    );

    desk.send(r#"{"command":"set_grid_mode","mode":"reorganize"}"#);
    desk.send(r#"{"command":"set_selection","pages":[1,2]}"#);
    assert_eq!(desk.selection().len(), 2);
    desk.send(r#"{"command":"set_thumbnails","visible":false}"#);
    assert_eq!(
        desk.selection().len(),
        0,
        "closing the grid kept a selection nothing was drawing"
    );
}

#[test]
fn the_page_grid_mode_can_be_set_by_command() {
    let mut desk = Desk::with("mode.pdf", PAGES, &[]);
    assert_eq!(desk.snapshot().grid_mode, GridMode::Navigate);

    let reorganize = r#"{"command":"set_grid_mode","mode":"reorganize"}"#;
    assert_eq!(desk.outcome(reorganize), Some("changed"));
    assert_eq!(desk.snapshot().grid_mode, GridMode::Reorganize);
    assert_eq!(desk.outcome(reorganize), Some("unchanged"));
    assert_eq!(desk.outcome(r#"{"command":"set_grid_mode","mode":"navigate"}"#), Some("changed"));

    let reply = desk.send(r#"{"command":"set_grid_mode","mode":"reorder"}"#);
    assert!(!reply.ok);
    let error = reply.error.expect("a reason");
    assert!(
        error.contains("navigate") && error.contains("reorganize") && error.contains("merge"),
        "the refusal did not name the modes: {error}"
    );

    assert!(desk.send(reorganize).ok);
    assert!(desk.send(r#"{"command":"set_thumbnails","visible":true}"#).ok);
    assert!(desk.send(r#"{"command":"set_thumbnails","visible":false}"#).ok);
    assert_eq!(desk.snapshot().grid_mode, GridMode::Reorganize, "closing the grid forgot the mode");
}

#[test]
fn saving_an_unedited_document_over_itself_is_refused() {
    let mut desk = Desk::with("no-op.pdf", PAGES, &[]);
    assert_eq!(desk.outcome(r#"{"command":"save"}"#), Some("unchanged"));
    assert!(desk.saving.is_none(), "the file was rewritten anyway");
}

#[test]
fn a_file_that_will_not_open_reports_a_visible_reason() {
    let mut desk = Desk::with("good.pdf", PAGES, &[]);
    assert_eq!(desk.snapshot().last_error, None, "a healthy session reported an error");

    let reply = desk.send(r#"{"command":"open","path":"e2e-does-not-exist.pdf"}"#);
    assert!(!reply.ok, "opening a missing file claimed to succeed: {reply:?}");
    let reported = desk.snapshot().last_error.expect("a readable reason");
    assert!(
        reported.contains("e2e-does-not-exist"),
        "the reason does not name the file: {reported}"
    );
    assert_eq!(desk.page_count(), PAGES, "a failed open discarded the working document");

    assert!(desk.send(r#"{"command":"open","path":"good.pdf"}"#).ok);
    assert_eq!(desk.snapshot().last_error, None, "the error survived a successful open");
}

#[test]
fn a_malformed_message_is_refused_without_killing_the_session() {
    let mut desk = Desk::with("malformed.pdf", PAGES, &[]);
    for bad in [
        "not json",
        "{",
        "[]",
        r#"{"command":"teleport"}"#,
        r#"{"command":"go_to_page","page":"three"}"#,
        r#"{"command":"open"}"#,
        r#"{"id":-1,"command":"next_page"}"#,
    ] {
        assert!(!desk.send(bad).ok, "{bad} was accepted");
    }

    let reply = desk.send(r#"{"id":8,"command":"go_to_page","page":2}"#);
    assert_eq!((reply.id, reply.ok), (Some(8), true));
}

#[test]
fn quitting_with_unsaved_changes_asks_before_losing_them() {
    let mut desk = Desk::with("quit.pdf", PAGES, &[]);
    desk.make_it_dirty();

    let reply = desk.send(r#"{"command":"quit"}"#);
    assert!(reply.ok);
    assert_eq!(
        reply.outcome,
        Some("needs_answer"),
        "quit went ahead and lost the reordering: {reply:?}"
    );

    let snapshot = desk.snapshot();
    let asking = snapshot.awaiting_answer.expect("the snapshot should say what is waiting");
    assert!(asking.contains("quit"), "unhelpful: {asking}");
    assert!(!snapshot.idle, "reported idle with a question nobody had answered");

    assert_eq!(desk.outcome(r#"{"command":"answer","choice":"cancel"}"#), Some("cancelled"));
    let snapshot = desk.snapshot();
    assert_eq!(snapshot.awaiting_answer, None);
    assert!(snapshot.unsaved_changes, "cancelling threw the changes away");

    assert_eq!(desk.outcome(r#"{"command":"quit"}"#), Some("needs_answer"));
    assert!(!desk.closed);
    assert_eq!(desk.outcome(r#"{"command":"answer","choice":"discard"}"#), Some("quitting"));
    assert!(desk.closed);
}

#[test]
fn opening_another_document_with_unsaved_changes_asks_first() {
    let mut desk = Desk::with("open-a.pdf", PAGES, &[("open-b.pdf", PAGES)]);
    desk.make_it_dirty();

    assert_eq!(
        desk.outcome(r#"{"command":"open","path":"open-b.pdf"}"#),
        Some("needs_answer"),
        "opening another file discarded the reordering without asking"
    );
    let snapshot = desk.snapshot();
    let asking = snapshot.awaiting_answer.expect("should say what is waiting");
    assert!(asking.contains("open-b"), "did not say which file: {asking}");
    assert_eq!(
        snapshot.document.as_deref(),
        Some("open-a.pdf"),
        "the document was replaced before the question was answered"
    );

    assert_eq!(desk.outcome(r#"{"command":"answer","choice":"discard"}"#), Some("opened"));
    let snapshot = desk.snapshot();
    assert_eq!(snapshot.document.as_deref(), Some("open-b.pdf"));
    assert!(!snapshot.unsaved_changes);
}

#[test]
fn answering_save_writes_the_file_before_going_ahead() {
    let mut desk = Desk::with("save.pdf", PAGES, &[]);
    assert_eq!(desk.outcome(r#"{"command":"delete_page","page":2}"#), Some("edited"));
    assert_eq!(desk.outcome(r#"{"command":"close"}"#), Some("needs_answer"));
    assert_eq!(
        desk.outcome(r#"{"command":"answer","choice":"save"}"#),
        Some("saving"),
        "answering save must not claim the file is written yet"
    );
    assert_eq!(desk.snapshot().document.as_deref(), Some("save.pdf"));
    assert!(matches!(desk.session.guard(), Some(Guard::Saving(_))));

    desk.events.clear();
    desk.save_ends();
    assert_eq!(
        desk.events,
        [Event::Saved { path: String::from("save.pdf") }, Event::DocumentClosed],
        "the write lands first, and only then is the document closed"
    );
    let snapshot = desk.snapshot();
    assert_eq!(snapshot.document, None);
    assert_eq!(snapshot.awaiting_answer, None);

    assert_eq!(desk.outcome(r#"{"command":"open","path":"save.pdf"}"#), Some("opened"));
    assert_eq!(
        desk.page_count(),
        PAGES - 1,
        "the file does not contain the edit that was saved for us"
    );
}

#[test]
fn a_saved_document_stops_claiming_unsaved_changes() {
    let mut desk = Desk::with("clean.pdf", PAGES, &[]);
    desk.make_it_dirty();
    assert_eq!(desk.outcome(r#"{"command":"save"}"#), Some("saving"));
    desk.save_ends();
    assert!(
        !desk.snapshot().unsaved_changes,
        "still claiming unsaved changes after writing them"
    );
    assert_eq!(desk.outcome(r#"{"command":"quit"}"#), Some("quitting"));
}

#[test]
fn answering_save_with_nothing_left_to_save_still_goes_ahead() {
    let mut desk = Desk::with("nothing-to-save.pdf", PAGES, &[]);
    desk.make_it_dirty();
    assert_eq!(desk.outcome(r#"{"command":"close"}"#), Some("needs_answer"));
    assert_eq!(desk.outcome(r#"{"command":"undo"}"#), Some("edited"));
    assert!(!desk.snapshot().unsaved_changes);
    assert_eq!(
        desk.outcome(r#"{"command":"answer","choice":"save"}"#),
        Some("closed"),
        "stranded the question with nothing to save"
    );
}

#[test]
fn answering_when_nothing_was_asked_does_nothing() {
    let mut desk = Desk::with("stray.pdf", PAGES, &[]);
    for choice in ["discard", "save", "cancel"] {
        assert_eq!(
            desk.outcome(&format!(r#"{{"command":"answer","choice":"{choice}"}}"#)),
            Some("unchanged"),
            "a stray {choice} did something"
        );
    }
    assert!(desk.snapshot().document.is_some(), "a stray answer closed the document");
}

#[test]
fn a_save_that_fails_while_a_question_waits_asks_again() {
    let mut desk = Desk::with("full.pdf", PAGES, &[]);
    desk.make_it_dirty();
    assert_eq!(desk.outcome(r#"{"command":"quit"}"#), Some("needs_answer"));
    assert_eq!(desk.outcome(r#"{"command":"answer","choice":"save"}"#), Some("saving"));
    desk.save_fails("disk full");

    assert_eq!(
        desk.events.last(),
        Some(&Event::SaveFailed { error: String::from("disk full") })
    );
    assert!(!desk.closed, "quit although nothing was written");
    let snapshot = desk.snapshot();
    assert_eq!(snapshot.last_error.as_deref(), Some("disk full"));
    assert_eq!(snapshot.awaiting_answer.as_deref(), Some("quit"));
    assert!(snapshot.unsaved_changes);
}

#[test]
fn a_save_refused_because_one_runs_leaves_the_question() {
    let mut desk = Desk::with("busy.pdf", PAGES, &[]);
    desk.make_it_dirty();
    assert_eq!(desk.outcome(r#"{"command":"save"}"#), Some("saving"));
    let reply = desk.send(r#"{"command":"save_as","path":"other.pdf"}"#);
    assert_eq!(reply.error.as_deref(), Some("a save is already running"));

    assert_eq!(desk.outcome(r#"{"command":"quit"}"#), Some("needs_answer"));
    let reply = desk.send(r#"{"command":"answer","choice":"save"}"#);
    assert_eq!(reply.error.as_deref(), Some("a save is already running"));
    assert_eq!(desk.snapshot().awaiting_answer.as_deref(), Some("quit"));
}

#[test]
fn edits_made_while_a_save_runs_are_still_unsaved() {
    let mut desk = Desk::with("racing.pdf", PAGES, &[]);
    desk.make_it_dirty();
    assert_eq!(desk.outcome(r#"{"command":"save"}"#), Some("saving"));
    assert_eq!(desk.outcome(r#"{"command":"delete_page","page":1}"#), Some("edited"));
    desk.save_ends();
    assert!(desk.snapshot().unsaved_changes);
    assert_eq!(desk.outcome(r#"{"command":"undo"}"#), Some("edited"));
    assert!(!desk.snapshot().unsaved_changes);
}

#[test]
fn saving_elsewhere_moves_the_document_there() {
    let mut desk = Desk::with("here.pdf", PAGES, &[]);
    desk.make_it_dirty();
    assert_eq!(desk.outcome(r#"{"command":"save_as","path":"there.pdf"}"#), Some("saving"));
    desk.save_ends();
    assert_eq!(desk.snapshot().document.as_deref(), Some("there.pdf"));
}

#[test]
fn a_file_without_pages_cannot_be_staged() {
    let mut desk = Desk::with("primary.pdf", 2, &[("hollow.pdf", 0)]);
    let reply = desk.send(r#"{"command":"stage_document","path":"hollow.pdf"}"#);
    assert_eq!(reply.error.as_deref(), Some("hollow.pdf has no pages"));
    assert!(desk.snapshot().stages.is_empty());
}

#[test]
fn two_documents_can_be_staged_side_by_side() {
    let mut desk = Desk::with("primary.pdf", 2, &[("a.pdf", 3), ("b.pdf", 4)]);
    assert_eq!(desk.outcome(r#"{"command":"stage_document","path":"a.pdf"}"#), Some("changed"));
    assert_eq!(desk.outcome(r#"{"command":"stage_document","path":"b.pdf"}"#), Some("changed"));
    let snapshot = desk.snapshot();
    assert_eq!(
        snapshot
            .stages
            .iter()
            .map(|staged| (staged.id.get(), staged.path.as_str(), staged.page_count))
            .collect::<Vec<_>>(),
        [(1, "a.pdf", 3), (2, "b.pdf", 4)]
    );
    assert_eq!(snapshot.active_stage, Some(StageId::first().next()));

    assert_eq!(desk.outcome(r#"{"command":"set_active_stage","stage":1}"#), Some("changed"));
    assert_eq!(desk.outcome(r#"{"command":"set_active_stage","stage":1}"#), Some("unchanged"));
    let reply = desk.send(r#"{"command":"set_active_stage","stage":7}"#);
    assert_eq!(reply.error.as_deref(), Some("stage 7 is not currently staged"));
    assert_eq!(desk.outcome(r#"{"command":"insert_pages","pages":[3],"at":1}"#), Some("edited"));
    assert_eq!(desk.shown(), [(1, 2), (0, 0), (0, 1)]);

    assert_eq!(desk.outcome(r#"{"command":"clear_staging"}"#), Some("changed"));
    assert_eq!(desk.snapshot().active_stage, Some(StageId::first().next()));
    assert_eq!(desk.outcome(r#"{"command":"stage_document","path":"a.pdf"}"#), Some("changed"));
    let ids: Vec<usize> = desk.snapshot().stages.iter().map(|staged| staged.id.get()).collect();
    assert_eq!(ids, [2, 3], "an id was handed out twice");
}

#[test]
fn a_staged_page_is_picked_out_by_clicking_it() {
    let mut desk = Desk::with("primary.pdf", 2, &[("a.pdf", 4)]);
    desk.send(r#"{"command":"stage_document","path":"a.pdf"}"#);
    desk.session.pick_staged(1, Pick::Only);
    desk.session.pick_staged(3, Pick::Range);
    let picked = |desk: &Desk| numbers(&desk.snapshot().showing().expect("a stage").selection);
    assert_eq!(picked(&desk), [2, 3, 4]);
    desk.session.cover_staged(&[0]);
    assert_eq!(picked(&desk), [1]);
}

#[test]
fn every_command_needs_a_document_but_for_a_few() {
    let mut desk = Desk::empty(&[]);
    for line in [
        r#"{"command":"close"}"#,
        r#"{"command":"undo"}"#,
        r#"{"command":"save"}"#,
        r#"{"command":"save_as","path":"a.pdf"}"#,
        r#"{"command":"move_page","from":1,"to":2}"#,
        r#"{"command":"delete_page","page":1}"#,
        r#"{"command":"set_selection","pages":[1]}"#,
        r#"{"command":"insert_pages","pages":[1],"at":1}"#,
    ] {
        let reply = desk.send(line);
        assert!(
            !reply.ok || reply.outcome == Some("unchanged") || reply.outcome == Some("closed"),
            "{line} changed something: {reply:?}"
        );
        assert_eq!(desk.page_count(), 0);
    }
    assert_eq!(desk.outcome(r#"{"command":"quit"}"#), Some("quitting"));
    assert!(desk.closed);
}

#[test]
fn a_capture_has_only_started_when_it_is_answered() {
    let mut desk = Desk::empty(&[]);
    let step = desk.session.dispatch(Command::Capture { path: String::from("window.png") }, false);
    assert_eq!(
        step,
        Step::Done {
            result: DispatchResult::CaptureStarted,
            effect: Effect::Capture { path: String::from("window.png") },
        }
    );
    assert_eq!(DispatchResult::CaptureStarted.into_reply(None).outcome, Some("capturing"));
}

#[test]
fn a_window_that_is_closing_is_not_asked_again() {
    let mut desk = Desk::with("late.pdf", PAGES, &[]);
    desk.make_it_dirty();
    desk.dispatch(Command::Quit);
    desk.dispatch(Command::Answer { choice: Answer::Discard });
    assert!(desk.session.quitting());
    assert_eq!(desk.dispatch(Command::Quit), DispatchResult::Quitting);
}

#[test]
fn idle_waits_for_everything_outstanding() {
    let desk = Desk::with("idle.pdf", PAGES, &[]);
    assert!(settled(&desk.session, false, false, false));
    assert!(!settled(&desk.session, true, false, false), "idle with a move still pending");
    assert!(!settled(&desk.session, false, true, false), "idle with a save running");
    assert!(!settled(&desk.session, false, false, true), "idle with a page still missing");

    let mut watch = IdleWatch::new();
    assert!(!watch.becomes_idle(true));
    assert!(!watch.becomes_idle(false));
    assert!(watch.becomes_idle(true));
    assert!(!watch.becomes_idle(true), "said twice that it is idle");
}

#[test]
fn a_reason_given_from_outside_is_shown() {
    let mut desk = Desk::with("drop.pdf", PAGES, &[]);
    desk.session.refuse("minutes.docx is not a PDF");
    assert_eq!(desk.snapshot().last_error.as_deref(), Some("minutes.docx is not a PDF"));
    assert_eq!(desk.page_count(), PAGES);
}

#[test]
fn a_question_does_not_change_what_is_open() {
    let mut desk = Desk::with("asked.pdf", PAGES, &[]);
    desk.make_it_dirty();
    let before = desk.shown();
    assert_eq!(desk.dispatch(Command::Close), DispatchResult::NeedsAnswer);
    assert_eq!(desk.shown(), before);
    assert_eq!(desk.dispatch(Command::DeletePage { page: page(1) }), DispatchResult::Edited);
    assert!(matches!(desk.session.guard(), Some(Guard::Asking(_))));
}

#[test]
fn what_is_offered_for_the_page_on_screen_is_carried_out() {
    let mut desk = Desk::with("offered.pdf", 3, &[]);
    assert_eq!(desk.outcome(r#"{"command":"move_page","from":2,"to":1}"#), Some("edited"));
    assert_eq!(desk.outcome(r#"{"command":"move_page","from":2,"to":3}"#), Some("edited"));
    assert_eq!(desk.shown(), [(0, 1), (0, 2), (0, 0)]);
    assert_eq!(desk.outcome(r#"{"command":"undo"}"#), Some("edited"));
    assert_eq!(desk.shown(), [(0, 1), (0, 0), (0, 2)]);
    assert_eq!(desk.outcome(r#"{"command":"save"}"#), Some("saving"));
    assert_eq!(desk.snapshot().saving_to.as_deref(), Some("offered.pdf"));
}

#[test]
fn the_selection_is_forgotten_once() {
    for (before, line) in [
        (r#"{"command":"set_thumbnails","visible":true}"#, r#"{"command":"set_thumbnails","visible":false}"#),
        (r#"{"command":"set_grid_mode","mode":"reorganize"}"#, r#"{"command":"set_grid_mode","mode":"navigate"}"#),
        (r#"{"command":"set_page_filter","query":""}"#, r#"{"command":"set_page_filter","query":"1-2"}"#),
    ] {
        let mut desk = Desk::with("forget.pdf", PAGES, &[]);
        desk.send(before);
        assert_eq!(desk.outcome(r#"{"command":"set_selection","pages":[2,3]}"#), Some("changed"));
        assert_eq!(desk.selection(), [2, 3]);
        assert_eq!(desk.outcome(line), Some("changed"), "{line}");
        assert!(desk.selection().is_empty(), "{line}");
        assert_eq!(desk.outcome(line), Some("unchanged"), "{line}");
    }
}

#[test]
fn the_pages_picked_out_are_deleted_together() {
    let mut desk = Desk::with("group.pdf", 4, &[]);
    assert_eq!(desk.outcome(r#"{"command":"set_selection","pages":[1,3]}"#), Some("changed"));
    let now = situation(&desk.session, page(2), false);
    let delete = Edits::available(now).delete.expect("something to delete");
    assert_eq!(desk.dispatch(delete).into_reply(None).outcome, Some("edited"));
    assert_eq!(desk.shown(), [(0, 1), (0, 3)]);
    assert_eq!(desk.outcome(r#"{"command":"undo"}"#), Some("edited"));
    assert_eq!(desk.page_count(), 4, "one group was more than one step");
}

#[test]
fn a_question_being_asked_outlives_a_save() {
    for fails in [false, true] {
        let mut desk = Desk::with("asked.pdf", PAGES, &[]);
        desk.make_it_dirty();
        assert_eq!(desk.outcome(r#"{"command":"save"}"#), Some("saving"));
        assert_eq!(desk.outcome(r#"{"command":"quit"}"#), Some("needs_answer"));
        if fails {
            desk.save_fails("the disk is full");
        } else {
            desk.save_ends();
        }
        assert_eq!(desk.session.guard(), Some(&Guard::Asking(Intent::Quit)));
        assert!(!desk.closed);
        assert!(desk.send(r#"{"command":"answer","choice":"discard"}"#).ok);
        assert!(desk.closed, "the answer was not heard");
    }
}

#[test]
fn the_merge_mode_can_be_set_without_a_staged_document() {
    let mut desk = Desk::with("merge-tab.pdf", PAGES, &[]);
    assert!(desk.send(r#"{"command":"set_thumbnails","visible":true}"#).ok);
    assert_eq!(desk.outcome(r#"{"command":"set_grid_mode","mode":"merge"}"#), Some("changed"));
    assert_eq!(desk.snapshot().grid_mode.wire_name(), "merge");
    assert_eq!(desk.outcome(r#"{"command":"capture","path":"out.png"}"#), Some("capturing"));
}

#[test]
fn merging_keeps_what_is_picked_out_of_a_staged_document() {
    let mut desk = Desk::with("primary.pdf", 3, &[("beside.pdf", 4)]);
    assert_eq!(desk.outcome(r#"{"command":"stage_document","path":"beside.pdf"}"#), Some("changed"));
    let pick = r#"{"command":"set_staged_selection","stage":1,"pages":[2,3]}"#;
    assert_eq!(desk.outcome(pick), Some("changed"));
    assert_eq!(desk.outcome(r#"{"command":"set_selection","pages":[1]}"#), Some("changed"));

    assert_eq!(desk.outcome(r#"{"command":"set_grid_mode","mode":"merge"}"#), Some("changed"));
    assert!(desk.selection().is_empty(), "a selection nobody can see was kept");
    assert_eq!(numbers(&desk.snapshot().stages[0].selection), [2, 3]);

    assert_eq!(desk.outcome(r#"{"command":"set_grid_mode","mode":"navigate"}"#), Some("changed"));
    assert!(numbers(&desk.snapshot().stages[0].selection).is_empty());
}

#[test]
fn a_staged_document_that_is_not_showing_can_be_put_away() {
    let mut desk = Desk::with("primary.pdf", 3, &[("one.pdf", 2), ("two.pdf", 4), ("three.pdf", 5)]);
    for path in ["one.pdf", "two.pdf", "three.pdf"] {
        let line = format!(r#"{{"command":"stage_document","path":"{path}"}}"#);
        assert_eq!(desk.outcome(&line), Some("changed"));
    }
    let (first, second) = (StageId::first(), StageId::first().next());
    let third = second.next();
    assert_eq!(desk.snapshot().active_stage, Some(third));

    desk.session.close_stage(first);
    assert_eq!(desk.snapshot().stages.len(), 2);
    assert_eq!(desk.snapshot().active_stage, Some(third), "what was showing is still there");

    desk.session.close_stage(first);
    assert_eq!(desk.snapshot().stages.len(), 2, "it was put away already");

    desk.session.close_stage(third);
    assert_eq!(desk.snapshot().active_stage, Some(second));
    assert_eq!(desk.outcome(r#"{"command":"clear_staging"}"#), Some("changed"));
    assert_eq!(desk.snapshot().active_stage, None);
}
