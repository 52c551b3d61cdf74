//! The control protocol: one JSON object per line.
//!
//! ```text
//! in   {"id":1,"command":"go_to_page","page":4}
//! out  {"id":1,"ok":true,"outcome":"changed"}
//! out  {"event":"page_rendered","page":4}
//! out  {"event":"idle"}
//! ```
//!
//! `id` is optional and echoed back. A line that cannot be decoded is answered with the reason,
//! and with its id where it got far enough to have one.

use vstd::prelude::*;
use vstd::string::*;

use crate::command;
use crate::command::{Command, CommandView};
use crate::confirm::Answer;
use crate::grid::GridMode;
use crate::json;
use crate::json::{Json, JsonView};
use crate::stage::{StageId, StagedName, StagedNameView};
use crate::text;
use crate::view;
use crate::view::{PageNumber, Real, ScrollMode, ViewCommand, ZoomTarget};

verus! {

/// The members of a JSON object.
pub type Members = Seq<(Seq<char>, JsonView)>;

/// What was wanted and not found.
pub open spec fn wanted(what: Seq<char>, field: Seq<char>) -> Seq<char> {
    "expected "@ + what + " \""@ + field + "\""@
}

/// What was wanted and not found.
fn want(what: &str, field: &str) -> (detail: String)
    ensures
        detail@ == wanted(what@, field@),
{
    let mut detail = String::from_str("expected ");
    detail.append(what);
    detail.append(" \"");
    detail.append(field);
    detail.append("\"");
    detail
}

/// The text that a field holds, if it holds one.
pub open spec fn text_in(members: Members, field: Seq<char>) -> Option<Seq<char>> {
    match json::member(members, field) {
        Some(JsonView::Text(text)) => Some(text),
        _ => None,
    }
}

/// The text that a field holds.
fn text_at<'a>(members: &'a [(String, Json)], field: &str) -> (text: Option<&'a str>)
    ensures
        match text {
            Some(text) => text_in(json::members_in(members@), field@) == Some(text@),
            None => text_in(json::members_in(members@), field@) is None,
        },
{
    match json::find(members, field) {
        Some(Json::Text(text)) => Some(text.as_str()),
        _ => None,
    }
}

/// The page number that a value is, if it is one: an integer from 1 up.
pub open spec fn page_of(json: JsonView) -> Option<usize> {
    match json {
        JsonView::Number(number) => match number.natural {
            Some(n) => if 1 <= n <= usize::MAX {
                Some(n as usize)
            } else {
                None
            },
            None => None,
        },
        _ => None,
    }
}

/// The counting number that a value is, if it is one.
fn count_of(json: &Json) -> (number: Option<usize>)
    ensures
        number == page_of(json@),
        number is Some ==> number->0 >= 1,
{
    match json {
        Json::Number(number) => match number.natural {
            Some(n) => if n >= 1 && n <= usize::MAX as u64 {
                Some(n as usize)
            } else {
                None
            },
            None => None,
        },
        _ => None,
    }
}

/// The page number that a field holds, if it holds one.
pub open spec fn page_in(members: Members, field: Seq<char>) -> Option<usize> {
    match json::member(members, field) {
        Some(value) => page_of(value),
        None => None,
    }
}

/// The page that a field names.
fn page_at(members: &[(String, Json)], field: &str) -> (page: Option<PageNumber>)
    ensures
        match page {
            Some(page) => page_in(json::members_in(members@), field@) == Some(page.spec_get())
                && page == PageNumber::numbered(page.spec_get()),
            None => page_in(json::members_in(members@), field@) is None,
        },
{
    match json::find(members, field) {
        Some(value) => match count_of(value) {
            Some(number) => PageNumber::new(number),
            None => None,
        },
        None => None,
    }
}

/// The page numbers in a list, if all of its items are page numbers.
pub open spec fn pages_of(items: Seq<JsonView>) -> Option<Seq<usize>> {
    if forall|i: int| 0 <= i < items.len() ==> page_of(#[trigger] items[i]) is Some {
        Some(Seq::new(items.len(), |i: int| page_of(items[i])->0))
    } else {
        None
    }
}

/// The page numbers that a field lists, if it is such a list.
pub open spec fn pages_in(members: Members, field: Seq<char>) -> Option<Seq<usize>> {
    match json::member(members, field) {
        Some(JsonView::List(items)) => pages_of(items),
        _ => None,
    }
}

/// The pages that a field lists.
fn pages_at(members: &[(String, Json)], field: &str) -> (pages: Option<Vec<PageNumber>>)
    ensures
        match pages {
            Some(pages) => pages_in(json::members_in(members@), field@) == Some(
                view::numbers(pages@),
            ),
            None => pages_in(json::members_in(members@), field@) is None,
        },
{
    let items = match json::find(members, field) {
        Some(Json::List(items)) => items,
        _ => {
            return None;
        },
    };
    let ghost listed = items@.map_values(|item: Json| item@);
    proof {
        json::lemma_items(*items);
    }
    let mut pages: Vec<PageNumber> = Vec::new();
    let mut i: usize = 0;
    while i < items.len()
        invariant
            i <= items.len(),
            listed == items@.map_values(|item: Json| item@),
            pages_in(json::members_in(members@), field@) == pages_of(listed),
            pages@.len() == i,
            forall|j: int|
                0 <= j < i ==> page_of(#[trigger] listed[j]) == Some(pages@[j].spec_get()),
        decreases items.len() - i,
    {
        proof {
            assert(listed[i as int] == items@[i as int]@);
        }
        let page = match count_of(&items[i]) {
            Some(number) => PageNumber::new(number),
            None => None,
        };
        match page {
            Some(page) => {
                pages.push(page);
            },
            None => {
                return None;
            },
        }
        i += 1;
    }
    proof {
        assert(pages_of(listed)->0 =~= view::numbers(pages@));
    }
    Some(pages)
}

/// The number that a field holds, if it holds one.
pub open spec fn real_in(members: Members, field: Seq<char>) -> Option<Real> {
    match json::member(members, field) {
        Some(JsonView::Number(number)) => number.real,
        _ => None,
    }
}

/// The number that a field holds.
fn real_at(members: &[(String, Json)], field: &str) -> (number: Option<Real>)
    ensures
        number == real_in(json::members_in(members@), field@),
{
    match json::find(members, field) {
        Some(Json::Number(number)) => number.real,
        _ => None,
    }
}

/// The integer that a field holds, if it holds one that fits.
pub open spec fn integer_in(members: Members, field: Seq<char>) -> Option<i32> {
    match json::member(members, field) {
        Some(JsonView::Number(number)) => match number.integer {
            Some(n) => if i32::MIN <= n <= i32::MAX {
                Some(n as i32)
            } else {
                None
            },
            None => None,
        },
        _ => None,
    }
}

/// The integer that a field holds.
fn integer_at(members: &[(String, Json)], field: &str) -> (integer: Option<i32>)
    ensures
        integer == integer_in(json::members_in(members@), field@),
{
    match json::find(members, field) {
        Some(Json::Number(number)) => match number.integer {
            Some(n) => if n >= i32::MIN as i64 && n <= i32::MAX as i64 {
                Some(n as i32)
            } else {
                None
            },
            None => None,
        },
        _ => None,
    }
}

/// The truth value that a field holds, if it holds one.
pub open spec fn truth_in(members: Members, field: Seq<char>) -> Option<bool> {
    match json::member(members, field) {
        Some(JsonView::Truth(truth)) => Some(truth),
        _ => None,
    }
}

/// The truth value that a field holds.
fn truth_at(members: &[(String, Json)], field: &str) -> (truth: Option<bool>)
    ensures
        truth == truth_in(json::members_in(members@), field@),
{
    match json::find(members, field) {
        Some(Json::Truth(truth)) => Some(*truth),
        _ => None,
    }
}

/// The zoom target that a value is: one of two names, or an object with a factor.
pub open spec fn target_of(json: JsonView) -> Option<ZoomTarget> {
    match json {
        JsonView::Text(text) => if text == "fit_width"@ {
            Some(ZoomTarget::FitWidth)
        } else if text == "fit_page"@ {
            Some(ZoomTarget::FitPage)
        } else {
            None
        },
        JsonView::Object(members) => if members.len() == 1 {
            match real_in(members, "fixed"@) {
                Some(factor) => Some(ZoomTarget::Fixed(factor)),
                None => None,
            }
        } else {
            None
        },
        _ => None,
    }
}

/// The zoom target that a field holds, if it holds one.
pub open spec fn target_in(members: Members) -> Option<ZoomTarget> {
    match json::member(members, "target"@) {
        Some(value) => target_of(value),
        None => None,
    }
}

/// The zoom target that a field holds.
fn target_at(members: &[(String, Json)]) -> (target: Option<ZoomTarget>)
    ensures
        target == target_in(json::members_in(members@)),
{
    match json::find(members, "target") {
        Some(Json::Text(text)) => if text::same_text(text.as_str(), "fit_width") {
            Some(ZoomTarget::FitWidth)
        } else if text::same_text(text.as_str(), "fit_page") {
            Some(ZoomTarget::FitPage)
        } else {
            None
        },
        Some(Json::Object(inner)) => {
            proof {
                json::lemma_members(*inner);
            }
            if inner.len() == 1 {
                match real_at(inner.as_slice(), "fixed") {
                    Some(factor) => Some(ZoomTarget::Fixed(factor)),
                    None => None,
                }
            } else {
                None
            }
        },
        _ => None,
    }
}

/// The way of scrolling that a field names, if it names one.
pub open spec fn scroll_mode_in(members: Members) -> Option<ScrollMode> {
    match text_in(members, "mode"@) {
        Some(name) => if name == "free"@ {
            Some(ScrollMode::Free)
        } else if name == "paged"@ {
            Some(ScrollMode::Paged)
        } else {
            None
        },
        None => None,
    }
}

/// The way of scrolling that a field names.
fn scroll_mode_at(members: &[(String, Json)]) -> (mode: Option<ScrollMode>)
    ensures
        mode == scroll_mode_in(json::members_in(members@)),
{
    match text_at(members, "mode") {
        Some(name) => if text::same_text(name, "free") {
            Some(ScrollMode::Free)
        } else if text::same_text(name, "paged") {
            Some(ScrollMode::Paged)
        } else {
            None
        },
        None => None,
    }
}

/// What is wrong with an argument of a view command that cannot be used: it is missing, or it
/// is not what was wanted.
pub open spec fn unusable(members: Members, what: Seq<char>, field: Seq<char>) -> Seq<char> {
    if json::member(members, field) is None {
        "missing field `"@ + field + "`"@
    } else {
        wanted(what, field)
    }
}

/// What is wrong with an argument of a view command that cannot be used.
fn complain(members: &[(String, Json)], what: &str, field: &str) -> (detail: String)
    ensures
        detail@ == unusable(json::members_in(members@), what@, field@),
{
    if json::find(members, field).is_none() {
        let mut detail = String::from_str("missing field `");
        detail.append(field);
        detail.append("`");
        detail
    } else {
        want(what, field)
    }
}

/// The view command with a name and arguments, or what is wrong with them. `None` where no
/// view command has that name.
pub open spec fn view_command_in(name: Seq<char>, members: Members) -> Option<
    Result<ViewCommand, Seq<char>>,
> {
    if name == "first_page"@ {
        Some(Ok(ViewCommand::FirstPage))
    } else if name == "previous_page"@ {
        Some(Ok(ViewCommand::PreviousPage))
    } else if name == "next_page"@ {
        Some(Ok(ViewCommand::NextPage))
    } else if name == "last_page"@ {
        Some(Ok(ViewCommand::LastPage))
    } else if name == "go_to_page"@ {
        Some(
            match page_in(members, "page"@) {
                Some(page) => Ok(ViewCommand::GoToPage { page: PageNumber::numbered(page) }),
                None => Err(unusable(members, "a page number"@, "page"@)),
            },
        )
    } else if name == "scroll_by"@ {
        Some(
            match real_in(members, "points"@) {
                Some(points) => Ok(ViewCommand::ScrollBy { points }),
                None => Err(unusable(members, "a number"@, "points"@)),
            },
        )
    } else if name == "scroll_to"@ {
        Some(
            match real_in(members, "points"@) {
                Some(points) => Ok(ViewCommand::ScrollTo { points }),
                None => Err(unusable(members, "a number"@, "points"@)),
            },
        )
    } else if name == "scroll_by_viewports"@ {
        Some(
            match real_in(members, "fraction"@) {
                Some(fraction) => Ok(ViewCommand::ScrollByViewports { fraction }),
                None => Err(unusable(members, "a number"@, "fraction"@)),
            },
        )
    } else if name == "pan_by"@ {
        Some(
            match real_in(members, "points"@) {
                Some(points) => Ok(ViewCommand::PanBy { points }),
                None => Err(unusable(members, "a number"@, "points"@)),
            },
        )
    } else if name == "set_zoom"@ {
        Some(
            match target_in(members) {
                Some(target) => Ok(ViewCommand::SetZoom { target }),
                None => Err(unusable(members, "fit_width, fit_page or a fixed factor as the"@, "target"@)),
            },
        )
    } else if name == "step_zoom"@ {
        Some(
            match integer_in(members, "rungs"@) {
                Some(rungs) => Ok(ViewCommand::StepZoom { rungs }),
                None => Err(unusable(members, "an integer"@, "rungs"@)),
            },
        )
    } else if name == "set_scroll_mode"@ {
        Some(
            match scroll_mode_in(members) {
                Some(mode) => Ok(ViewCommand::SetScrollMode { mode }),
                None => Err(unusable(members, "free or paged as the"@, "mode"@)),
            },
        )
    } else {
        None
    }
}

/// The view command with a name and arguments, or what is wrong with them.
fn view_command_at(name: &str, members: &[(String, Json)]) -> (command: Option<
    Result<ViewCommand, String>,
>)
    ensures
        match command {
            Some(Ok(command)) => view_command_in(name@, json::members_in(members@)) == Some(
                Ok::<ViewCommand, Seq<char>>(command),
            ),
            Some(Err(detail)) => view_command_in(name@, json::members_in(members@)) == Some(
                Err::<ViewCommand, Seq<char>>(detail@),
            ),
            None => view_command_in(name@, json::members_in(members@)) is None,
        },
{
    if text::same_text(name, "first_page") {
        Some(Ok(ViewCommand::FirstPage))
    } else if text::same_text(name, "previous_page") {
        Some(Ok(ViewCommand::PreviousPage))
    } else if text::same_text(name, "next_page") {
        Some(Ok(ViewCommand::NextPage))
    } else if text::same_text(name, "last_page") {
        Some(Ok(ViewCommand::LastPage))
    } else if text::same_text(name, "go_to_page") {
        Some(
            match page_at(members, "page") {
                Some(page) => Ok(ViewCommand::GoToPage { page }),
                None => Err(complain(members, "a page number", "page")),
            },
        )
    } else if text::same_text(name, "scroll_by") {
        Some(
            match real_at(members, "points") {
                Some(points) => Ok(ViewCommand::ScrollBy { points }),
                None => Err(complain(members, "a number", "points")),
            },
        )
    } else if text::same_text(name, "scroll_to") {
        Some(
            match real_at(members, "points") {
                Some(points) => Ok(ViewCommand::ScrollTo { points }),
                None => Err(complain(members, "a number", "points")),
            },
        )
    } else if text::same_text(name, "scroll_by_viewports") {
        Some(
            match real_at(members, "fraction") {
                Some(fraction) => Ok(ViewCommand::ScrollByViewports { fraction }),
                None => Err(complain(members, "a number", "fraction")),
            },
        )
    } else if text::same_text(name, "pan_by") {
        Some(
            match real_at(members, "points") {
                Some(points) => Ok(ViewCommand::PanBy { points }),
                None => Err(complain(members, "a number", "points")),
            },
        )
    } else if text::same_text(name, "set_zoom") {
        Some(
            match target_at(members) {
                Some(target) => Ok(ViewCommand::SetZoom { target }),
                None => Err(complain(members, "fit_width, fit_page or a fixed factor as the", "target")),
            },
        )
    } else if text::same_text(name, "step_zoom") {
        Some(
            match integer_at(members, "rungs") {
                Some(rungs) => Ok(ViewCommand::StepZoom { rungs }),
                None => Err(complain(members, "an integer", "rungs")),
            },
        )
    } else if text::same_text(name, "set_scroll_mode") {
        Some(
            match scroll_mode_at(members) {
                Some(mode) => Ok(ViewCommand::SetScrollMode { mode }),
                None => Err(complain(members, "free or paged as the", "mode")),
            },
        )
    } else {
        None
    }
}

/// What a request wants. Commands change state; queries only read it.
#[derive(Debug, Clone, PartialEq, Eq)]
pub enum RequestBody {
    /// Carry out a command.
    Command(Command),
    /// Report the current state.
    Snapshot,
    /// List every command.
    Commands,
}

/// What a request wants, by its texts and numbers.
#[verifier::ext_equal]
pub enum BodyView {
    Command(CommandView),
    Snapshot,
    Commands,
}

impl View for RequestBody {
    type V = BodyView;

    open spec fn view(&self) -> BodyView {
        match self {
            RequestBody::Command(command) => BodyView::Command(command@),
            RequestBody::Snapshot => BodyView::Snapshot,
            RequestBody::Commands => BodyView::Commands,
        }
    }
}

/// A decoded message.
#[derive(Debug, Clone, PartialEq, Eq)]
pub struct Request {
    /// Echoed back on the reply, if there is one.
    pub id: Option<u64>,
    /// What was asked for.
    pub body: RequestBody,
}

/// The staged document that a request names, by `stage` or by `path`.
pub open spec fn staged_in(members: Members) -> Option<StagedNameView> {
    match json::member(members, "stage"@) {
        Some(value) => match page_of(value) {
            Some(stage) => Some(StagedNameView::Stage(stage)),
            None => None,
        },
        None => match text_in(members, "path"@) {
            Some(path) => Some(StagedNameView::Path(path)),
            None => None,
        },
    }
}

/// The staged document that a request names.
fn staged_at(members: &[(String, Json)]) -> (staged: Option<StagedName>)
    ensures
        match staged {
            Some(staged) => staged_in(json::members_in(members@)) == Some(staged@),
            None => staged_in(json::members_in(members@)) is None,
        },
{
    match json::find(members, "stage") {
        Some(value) => match count_of(value) {
            Some(number) => match StageId::new(number) {
                Some(id) => Some(StagedName::Stage(id)),
                None => None,
            },
            None => None,
        },
        None => match text_at(members, "path") {
            Some(path) => Some(StagedName::Path(String::from_str(path))),
            None => None,
        },
    }
}

/// The query that a filter is set to: none given is an empty one, and one that is no text is
/// refused.
pub open spec fn query_in(members: Members) -> Option<Seq<char>> {
    match json::member(members, "query"@) {
        None => Some(Seq::empty()),
        Some(JsonView::Text(query)) => Some(query),
        Some(_) => None,
    }
}

/// The query that a filter is set to.
fn query_at(members: &[(String, Json)]) -> (query: Option<String>)
    ensures
        match query {
            Some(query) => query_in(json::members_in(members@)) == Some(query@),
            None => query_in(json::members_in(members@)) is None,
        },
{
    match json::find(members, "query") {
        None => Some(String::new()),
        Some(Json::Text(query)) => Some(String::from_str(query.as_str())),
        Some(_) => None,
    }
}

/// What was wanted of a field that takes one of a few names.
pub open spec fn wanted_one_of(field: Seq<char>, names: Seq<char>) -> Seq<char> {
    "expected \""@ + field + "\" to be one of: "@ + names
}

/// What was wanted of a field that takes one of a few names.
fn want_one_of(field: &str, names: &str) -> (detail: String)
    ensures
        detail@ == wanted_one_of(field@, names@),
{
    let mut detail = String::from_str("expected \"");
    detail.append(field);
    detail.append("\" to be one of: ");
    detail.append(names);
    detail
}

/// The names of the grid modes.
pub open spec fn grid_mode_names() -> Seq<char> {
    GridMode::Navigate.spec_wire_name() + ", "@ + GridMode::Reorganize.spec_wire_name() + ", "@
        + GridMode::Merge.spec_wire_name()
}

/// The names of the answers.
pub open spec fn answer_names() -> Seq<char> {
    Answer::Save.spec_wire_name() + ", "@ + Answer::Discard.spec_wire_name() + ", "@
        + Answer::Cancel.spec_wire_name()
}

/// A result with the command that a path makes.
pub open spec fn path_command(name: Seq<char>, path: Seq<char>) -> Option<CommandView> {
    if name == "open"@ {
        Some(CommandView::Open { path })
    } else if name == "insert_file"@ {
        Some(CommandView::InsertFile { path })
    } else if name == "stage_document"@ {
        Some(CommandView::StageDocument { path })
    } else if name == "capture"@ {
        Some(CommandView::Capture { path })
    } else if name == "save_as"@ {
        Some(CommandView::SaveAs { path })
    } else {
        None
    }
}

/// The command of that name which takes a path.
fn path_command_at(name: &str, path: &str) -> (command: Option<Command>)
    ensures
        match command {
            Some(command) => path_command(name@, path@) == Some(command@),
            None => path_command(name@, path@) is None,
        },
{
    if text::same_text(name, "open") {
        Some(Command::Open { path: String::from_str(path) })
    } else if text::same_text(name, "insert_file") {
        Some(Command::InsertFile { path: String::from_str(path) })
    } else if text::same_text(name, "stage_document") {
        Some(Command::StageDocument { path: String::from_str(path) })
    } else if text::same_text(name, "capture") {
        Some(Command::Capture { path: String::from_str(path) })
    } else if text::same_text(name, "save_as") {
        Some(Command::SaveAs { path: String::from_str(path) })
    } else {
        None
    }
}

/// The command of that name which takes nothing.
pub open spec fn bare_command(name: Seq<char>) -> Option<CommandView> {
    if name == "close"@ {
        Some(CommandView::Close)
    } else if name == "clear_staging"@ {
        Some(CommandView::ClearStaging)
    } else if name == "undo"@ {
        Some(CommandView::Undo)
    } else if name == "save"@ {
        Some(CommandView::Save)
    } else if name == "quit"@ {
        Some(CommandView::Quit)
    } else {
        None
    }
}

/// The command of that name which takes nothing.
fn bare_command_at(name: &str) -> (command: Option<Command>)
    ensures
        match command {
            Some(command) => bare_command(name@) == Some(command@),
            None => bare_command(name@) is None,
        },
{
    if text::same_text(name, "close") {
        Some(Command::Close)
    } else if text::same_text(name, "clear_staging") {
        Some(Command::ClearStaging)
    } else if text::same_text(name, "undo") {
        Some(Command::Undo)
    } else if text::same_text(name, "save") {
        Some(Command::Save)
    } else if text::same_text(name, "quit") {
        Some(Command::Quit)
    } else {
        None
    }
}

/// The command of that name which is about pages, or what is wrong with its arguments. `None`
/// where no such command has that name.
pub open spec fn page_command_in(name: Seq<char>, members: Members) -> Option<
    Result<CommandView, Seq<char>>,
> {
    if name == "move_page"@ {
        Some(
            match (page_in(members, "from"@), page_in(members, "to"@)) {
                (Some(from), Some(to)) => Ok(CommandView::MovePage { from, to }),
                (None, _) => Err(wanted("a page number"@, "from"@)),
                (_, None) => Err(wanted("a page number"@, "to"@)),
            },
        )
    } else if name == "move_pages"@ {
        Some(
            match (pages_in(members, "from"@), page_in(members, "to"@)) {
                (Some(from), Some(to)) => Ok(CommandView::MovePages { from, to }),
                (None, _) => Err(wanted("a list of page numbers"@, "from"@)),
                (_, None) => Err(wanted("a page number"@, "to"@)),
            },
        )
    } else if name == "delete_page"@ {
        Some(
            match page_in(members, "page"@) {
                Some(page) => Ok(CommandView::DeletePage { page }),
                None => Err(wanted("a page number"@, "page"@)),
            },
        )
    } else if name == "delete_pages"@ {
        Some(
            match pages_in(members, "pages"@) {
                Some(pages) => Ok(CommandView::DeletePages { pages }),
                None => Err(wanted("a list of page numbers"@, "pages"@)),
            },
        )
    } else if name == "set_selection"@ {
        Some(
            match pages_in(members, "pages"@) {
                Some(pages) => Ok(CommandView::SetSelection { pages }),
                None => Err(wanted("a list of page numbers"@, "pages"@)),
            },
        )
    } else if name == "insert_pages"@ {
        Some(
            match (pages_in(members, "pages"@), page_in(members, "at"@)) {
                (Some(pages), Some(at)) => Ok(CommandView::InsertPages { pages, at }),
                (None, _) => Err(wanted("a list of page numbers"@, "pages"@)),
                (_, None) => Err(wanted("a page number"@, "at"@)),
            },
        )
    } else if name == "set_staged_selection"@ {
        Some(
            match (staged_in(members), pages_in(members, "pages"@)) {
                (Some(staged), Some(pages)) => Ok(
                    CommandView::SetStagedSelection { staged, pages },
                ),
                (None, _) => Err(wanted("a stage number or a path as the"@, "stage"@)),
                (_, None) => Err(wanted("a list of page numbers"@, "pages"@)),
            },
        )
    } else {
        None
    }
}

/// The command of that name which is about pages, or what is wrong with its arguments.
fn page_command_at(name: &str, members: &[(String, Json)]) -> (command: Option<
    Result<Command, String>,
>)
    ensures
        match command {
            Some(Ok(command)) => page_command_in(name@, json::members_in(members@)) == Some(
                Ok::<CommandView, Seq<char>>(command@),
            ),
            Some(Err(detail)) => page_command_in(name@, json::members_in(members@)) == Some(
                Err::<CommandView, Seq<char>>(detail@),
            ),
            None => page_command_in(name@, json::members_in(members@)) is None,
        },
{
    if text::same_text(name, "move_page") {
        Some(
            match (page_at(members, "from"), page_at(members, "to")) {
                (Some(from), Some(to)) => Ok(Command::MovePage { from, to }),
                (None, _) => Err(want("a page number", "from")),
                (_, None) => Err(want("a page number", "to")),
            },
        )
    } else if text::same_text(name, "move_pages") {
        Some(
            match (pages_at(members, "from"), page_at(members, "to")) {
                (Some(from), Some(to)) => Ok(Command::MovePages { from, to }),
                (None, _) => Err(want("a list of page numbers", "from")),
                (_, None) => Err(want("a page number", "to")),
            },
        )
    } else if text::same_text(name, "delete_page") {
        Some(
            match page_at(members, "page") {
                Some(page) => Ok(Command::DeletePage { page }),
                None => Err(want("a page number", "page")),
            },
        )
    } else if text::same_text(name, "delete_pages") {
        Some(
            match pages_at(members, "pages") {
                Some(pages) => Ok(Command::DeletePages { pages }),
                None => Err(want("a list of page numbers", "pages")),
            },
        )
    } else if text::same_text(name, "set_selection") {
        Some(
            match pages_at(members, "pages") {
                Some(pages) => Ok(Command::SetSelection { pages }),
                None => Err(want("a list of page numbers", "pages")),
            },
        )
    } else if text::same_text(name, "insert_pages") {
        Some(
            match (pages_at(members, "pages"), page_at(members, "at")) {
                (Some(pages), Some(at)) => Ok(Command::InsertPages { pages, at }),
                (None, _) => Err(want("a list of page numbers", "pages")),
                (_, None) => Err(want("a page number", "at")),
            },
        )
    } else if text::same_text(name, "set_staged_selection") {
        Some(
            match (staged_at(members), pages_at(members, "pages")) {
                (Some(staged), Some(pages)) => Ok(
                    Command::SetStagedSelection { staged, pages },
                ),
                (None, _) => Err(want("a stage number or a path as the", "stage")),
                (_, None) => Err(want("a list of page numbers", "pages")),
            },
        )
    } else {
        None
    }
}

/// The command of that name which sets something else, or what is wrong with its arguments.
/// `None` where no such command has that name.
pub open spec fn setting_in(name: Seq<char>, members: Members) -> Option<
    Result<CommandView, Seq<char>>,
> {
    if name == "set_active_stage"@ {
        Some(
            match page_in(members, "stage"@) {
                Some(stage) => Ok(CommandView::SetActiveStage { stage }),
                None => Err(wanted("a stage number"@, "stage"@)),
            },
        )
    } else if name == "set_page_filter"@ {
        Some(
            match query_in(members) {
                Some(query) => Ok(CommandView::SetPageFilter { query }),
                None => Err(wanted("a string"@, "query"@)),
            },
        )
    } else if name == "set_thumbnails"@ {
        Some(
            match truth_in(members, "visible"@) {
                Some(visible) => Ok(CommandView::SetThumbnails { visible }),
                None => Err(wanted("a boolean"@, "visible"@)),
            },
        )
    } else if name == "set_grid_mode"@ {
        Some(
            match text_in(members, "mode"@) {
                Some(mode) => match GridMode::named(mode) {
                    Some(mode) => Ok(CommandView::SetGridMode { mode }),
                    None => Err(wanted_one_of("mode"@, grid_mode_names())),
                },
                None => Err(wanted_one_of("mode"@, grid_mode_names())),
            },
        )
    } else if name == "answer"@ {
        Some(
            match text_in(members, "choice"@) {
                Some(choice) => match Answer::named(choice) {
                    Some(choice) => Ok(CommandView::Answer { choice }),
                    None => Err(wanted_one_of("choice"@, answer_names())),
                },
                None => Err(wanted_one_of("choice"@, answer_names())),
            },
        )
    } else {
        None
    }
}

/// The names of the answers.
fn all_answers() -> (names: String)
    ensures
        names@ == answer_names(),
{
    let mut names = String::from_str(Answer::Save.wire_name());
    names.append(", ");
    names.append(Answer::Discard.wire_name());
    names.append(", ");
    names.append(Answer::Cancel.wire_name());
    names
}

/// The command of that name which sets something else, or what is wrong with its arguments.
fn setting_at(name: &str, members: &[(String, Json)]) -> (command: Option<
    Result<Command, String>,
>)
    ensures
        match command {
            Some(Ok(command)) => setting_in(name@, json::members_in(members@)) == Some(
                Ok::<CommandView, Seq<char>>(command@),
            ),
            Some(Err(detail)) => setting_in(name@, json::members_in(members@)) == Some(
                Err::<CommandView, Seq<char>>(detail@),
            ),
            None => setting_in(name@, json::members_in(members@)) is None,
        },
{
    if text::same_text(name, "set_active_stage") {
        let stage = match page_at(members, "stage") {
            Some(page) => StageId::new(page.get()),
            None => None,
        };
        Some(
            match stage {
                Some(stage) => Ok(Command::SetActiveStage { stage }),
                None => Err(want("a stage number", "stage")),
            },
        )
    } else if text::same_text(name, "set_page_filter") {
        Some(
            match query_at(members) {
                Some(query) => Ok(Command::SetPageFilter { query }),
                None => Err(want("a string", "query")),
            },
        )
    } else if text::same_text(name, "set_thumbnails") {
        Some(
            match truth_at(members, "visible") {
                Some(visible) => Ok(Command::SetThumbnails { visible }),
                None => Err(want("a boolean", "visible")),
            },
        )
    } else if text::same_text(name, "set_grid_mode") {
        let mode = match text_at(members, "mode") {
            Some(mode) => GridMode::from_wire_name(mode),
            None => None,
        };
        Some(
            match mode {
                Some(mode) => Ok(Command::SetGridMode { mode }),
                None => Err(want_one_of("mode", GridMode::every_name().as_str())),
            },
        )
    } else if text::same_text(name, "answer") {
        let choice = match text_at(members, "choice") {
            Some(choice) => Answer::from_wire_name(choice),
            None => None,
        };
        Some(
            match choice {
                Some(choice) => Ok(Command::Answer { choice }),
                None => Err(want_one_of("choice", all_answers().as_str())),
            },
        )
    } else {
        None
    }
}

/// What a request by that name and with those arguments wants, or what is wrong with its
/// arguments. `None` where nothing has that name.
pub open spec fn body_in(name: Seq<char>, members: Members) -> Option<
    Result<BodyView, Seq<char>>,
> {
    if name == "snapshot"@ {
        Some(Ok(BodyView::Snapshot))
    } else if name == "commands"@ {
        Some(Ok(BodyView::Commands))
    } else if let Some(command) = bare_command(name) {
        Some(Ok(BodyView::Command(command)))
    } else if path_command(name, Seq::empty()) is Some {
        Some(
            match text_in(members, "path"@) {
                Some(path) => Ok(BodyView::Command(path_command(name, path)->0)),
                None => Err(wanted("a string"@, "path"@)),
            },
        )
    } else if let Some(command) = page_command_in(name, members) {
        Some(
            match command {
                Ok(command) => Ok(BodyView::Command(command)),
                Err(detail) => Err(detail),
            },
        )
    } else if let Some(command) = setting_in(name, members) {
        Some(
            match command {
                Ok(command) => Ok(BodyView::Command(command)),
                Err(detail) => Err(detail),
            },
        )
    } else {
        match view_command_in(name, members) {
            Some(Ok(command)) => Some(Ok(BodyView::Command(CommandView::View(command)))),
            Some(Err(detail)) => Some(Err(detail)),
            None => None,
        }
    }
}

/// What a request wants, or what is wrong with its arguments.
pub fn body_of(name: &str, members: &[(String, Json)]) -> (body: Option<
    Result<RequestBody, String>,
>)
    ensures
        match body {
            Some(Ok(body)) => body_in(name@, json::members_in(members@)) == Some(
                Ok::<BodyView, Seq<char>>(body@),
            ),
            Some(Err(detail)) => body_in(name@, json::members_in(members@)) == Some(
                Err::<BodyView, Seq<char>>(detail@),
            ),
            None => body_in(name@, json::members_in(members@)) is None,
        },
{
    if text::same_text(name, "snapshot") {
        return Some(Ok(RequestBody::Snapshot));
    }
    if text::same_text(name, "commands") {
        return Some(Ok(RequestBody::Commands));
    }
    if let Some(command) = bare_command_at(name) {
        return Some(Ok(RequestBody::Command(command)));
    }
    let path = text_at(members, "path");
    let given = match path {
        Some(path) => path,
        None => "",
    };
    if let Some(command) = path_command_at(name, given) {
        return Some(
            match path {
                Some(_) => Ok(RequestBody::Command(command)),
                None => Err(want("a string", "path")),
            },
        );
    }
    if let Some(command) = page_command_at(name, members) {
        return Some(
            match command {
                Ok(command) => Ok(RequestBody::Command(command)),
                Err(detail) => Err(detail),
            },
        );
    }
    if let Some(command) = setting_at(name, members) {
        return Some(
            match command {
                Ok(command) => Ok(RequestBody::Command(command)),
                Err(detail) => Err(detail),
            },
        );
    }
    match view_command_at(name, members) {
        Some(Ok(command)) => Some(Ok(RequestBody::Command(Command::View(command)))),
        Some(Err(detail)) => Some(Err(detail)),
        None => None,
    }
}

/// Longest line that is accepted, in bytes, so that an outside process cannot exhaust memory by
/// never ending one.
pub const MAX_LINE_BYTES: usize = 1_048_576;

/// Why a line could not be decoded.
#[derive(Debug, Clone, PartialEq, Eq)]
pub enum DecodeError {
    TooLong,
    NotUtf8 { detail: String },
    NotJson { detail: String },
    NotAnObject,
    MissingCommand,
    CommandNotAString,
    BadId,
    UnknownCommand { name: String, valid: String },
    BadArguments { command: String, detail: String },
}

/// Why a line could not be decoded, by its texts.
#[verifier::ext_equal]
pub enum DecodeErrorView {
    TooLong,
    NotUtf8 { detail: Seq<char> },
    NotJson { detail: Seq<char> },
    NotAnObject,
    MissingCommand,
    CommandNotAString,
    BadId,
    UnknownCommand { name: Seq<char>, valid: Seq<char> },
    BadArguments { command: Seq<char>, detail: Seq<char> },
}

impl View for DecodeError {
    type V = DecodeErrorView;

    open spec fn view(&self) -> DecodeErrorView {
        match self {
            DecodeError::TooLong => DecodeErrorView::TooLong,
            DecodeError::NotUtf8 { detail } => DecodeErrorView::NotUtf8 { detail: detail@ },
            DecodeError::NotJson { detail } => DecodeErrorView::NotJson { detail: detail@ },
            DecodeError::NotAnObject => DecodeErrorView::NotAnObject,
            DecodeError::MissingCommand => DecodeErrorView::MissingCommand,
            DecodeError::CommandNotAString => DecodeErrorView::CommandNotAString,
            DecodeError::BadId => DecodeErrorView::BadId,
            DecodeError::UnknownCommand { name, valid } => DecodeErrorView::UnknownCommand {
                name: name@,
                valid: valid@,
            },
            DecodeError::BadArguments { command, detail } => DecodeErrorView::BadArguments {
                command: command@,
                detail: detail@,
            },
        }
    }
}

impl DecodeErrorView {
    /// The error in words.
    pub open spec fn message(self) -> Seq<char> {
        match self {
            DecodeErrorView::TooLong => "line exceeds the "@ + text::decimal_text(
                MAX_LINE_BYTES as nat,
            ) + " byte limit"@,
            DecodeErrorView::NotUtf8 { detail } => "not valid UTF-8: "@ + detail,
            DecodeErrorView::NotJson { detail } => "not valid JSON: "@ + detail,
            DecodeErrorView::NotAnObject => "expected a JSON object"@,
            DecodeErrorView::MissingCommand => "missing the \"command\" field"@,
            DecodeErrorView::CommandNotAString => "\"command\" must be a string"@,
            DecodeErrorView::BadId => "\"id\" must be a non-negative integer"@,
            DecodeErrorView::UnknownCommand { name, valid } => "unknown command \""@ + name
                + "\"; valid commands are: "@ + valid,
            DecodeErrorView::BadArguments { command, detail } => "\""@ + command
                + "\" has bad arguments: "@ + detail,
        }
    }
}

impl DecodeError {
    /// The error in words.
    pub fn message(&self) -> (message: String)
        ensures
            message@ == self@.message(),
    {
        match self {
            DecodeError::TooLong => {
                let mut message = String::from_str("line exceeds the ");
                message.append(text::decimal(MAX_LINE_BYTES).as_str());
                message.append(" byte limit");
                message
            },
            DecodeError::NotUtf8 { detail } => text::joined("not valid UTF-8: ", detail.as_str()),
            DecodeError::NotJson { detail } => text::joined("not valid JSON: ", detail.as_str()),
            DecodeError::NotAnObject => String::from_str("expected a JSON object"),
            DecodeError::MissingCommand => String::from_str("missing the \"command\" field"),
            DecodeError::CommandNotAString => String::from_str("\"command\" must be a string"),
            DecodeError::BadId => String::from_str("\"id\" must be a non-negative integer"),
            DecodeError::UnknownCommand { name, valid } => {
                let mut message = String::from_str("unknown command \"");
                message.append(name.as_str());
                message.append("\"; valid commands are: ");
                message.append(valid.as_str());
                message
            },
            DecodeError::BadArguments { command, detail } => {
                let mut message = String::from_str("\"");
                message.append(command.as_str());
                message.append("\" has bad arguments: ");
                message.append(detail.as_str());
                message
            },
        }
    }
}

/// A line that could not be decoded, with its id where it got far enough to have one.
#[derive(Debug, Clone, PartialEq, Eq)]
pub struct Refusal {
    pub id: Option<u64>,
    pub reason: DecodeError,
}

/// Texts with a comma between each and the next.
pub open spec fn listed(names: Seq<Seq<char>>) -> Seq<char>
    decreases names.len(),
{
    if names.len() == 0 {
        Seq::empty()
    } else if names.len() == 1 {
        names[0]
    } else {
        listed(names.drop_last()) + ", "@ + names.last()
    }
}

/// Every command by its name, in a list.
pub open spec fn every_name() -> Seq<char> {
    listed(command::view_names() + command::shell_names())
}

/// Every command by its name, in a list.
fn list_names() -> (list: String)
    ensures
        list@ == every_name(),
{
    let names = Command::all_names();
    let ghost all = command::texts(names@);
    let mut list = String::new();
    let mut i: usize = 0;
    proof {
        assert(list@ =~= listed(all.take(0)));
    }
    while i < names.len()
        invariant
            i <= names.len(),
            all == command::texts(names@),
            list@ == listed(all.take(i as int)),
        decreases names.len() - i,
    {
        proof {
            assert(all.take(i + 1).drop_last() =~= all.take(i as int));
            assert(all.take(i + 1).last() == names@[i as int]@);
        }
        if i > 0 {
            list.append(", ");
        }
        list.append(names[i]);
        proof {
            if i == 0 {
                assert(all.take(0) =~= Seq::<Seq<char>>::empty());
                assert(list@ =~= listed(all.take(1)));
            }
        }
        i += 1;
    }
    proof {
        assert(all.take(i as int) =~= all);
    }
    list
}

/// The id that a request carries: none, one, or one that cannot be used.
pub open spec fn id_in(members: Members) -> Result<Option<u64>, DecodeErrorView> {
    match json::member(members, "id"@) {
        None | Some(JsonView::Null) => Ok(None),
        Some(JsonView::Number(number)) => match number.natural {
            Some(id) => Ok(Some(id)),
            None => Err(DecodeErrorView::BadId),
        },
        Some(_) => Err(DecodeErrorView::BadId),
    }
}

/// The id that a request carries.
fn id_at(members: &[(String, Json)]) -> (id: Option<Option<u64>>)
    ensures
        match id {
            Some(id) => id_in(json::members_in(members@)) == Ok::<Option<u64>, DecodeErrorView>(id),
            None => id_in(json::members_in(members@)) == Err::<Option<u64>, DecodeErrorView>(
                DecodeErrorView::BadId,
            ),
        },
{
    match json::find(members, "id") {
        None => Some(None),
        Some(Json::Null) => Some(None),
        Some(Json::Number(number)) => match number.natural {
            Some(id) => Some(Some(id)),
            None => None,
        },
        Some(_) => None,
    }
}

/// A decoded message, by its texts and numbers.
#[verifier::ext_equal]
pub struct RequestView {
    pub id: Option<u64>,
    pub body: BodyView,
}

/// A line that could not be decoded, by its texts and numbers.
#[verifier::ext_equal]
pub struct RefusalView {
    pub id: Option<u64>,
    pub reason: DecodeErrorView,
}

impl View for Request {
    type V = RequestView;

    open spec fn view(&self) -> RequestView {
        RequestView { id: self.id, body: self.body@ }
    }
}

impl View for Refusal {
    type V = RefusalView;

    open spec fn view(&self) -> RefusalView {
        RefusalView { id: self.id, reason: self.reason@ }
    }
}

/// What a JSON value asks for. The id is looked at first, so that whatever is wrong with the
/// rest can be answered to whoever asked.
pub open spec fn requested(json: JsonView) -> Result<RequestView, RefusalView> {
    match json {
        JsonView::Object(members) => match id_in(members) {
            Err(reason) => Err(RefusalView { id: None, reason }),
            Ok(id) => match json::member(members, "command"@) {
                None => Err(RefusalView { id, reason: DecodeErrorView::MissingCommand }),
                Some(JsonView::Text(name)) => match body_in(name, members) {
                    Some(Ok(body)) => Ok(RequestView { id, body }),
                    Some(Err(detail)) => Err(
                        RefusalView {
                            id,
                            reason: DecodeErrorView::BadArguments { command: name, detail },
                        },
                    ),
                    None => Err(
                        RefusalView {
                            id,
                            reason: DecodeErrorView::UnknownCommand { name, valid: every_name() },
                        },
                    ),
                },
                Some(_) => Err(RefusalView { id, reason: DecodeErrorView::CommandNotAString }),
            },
        },
        _ => Err(RefusalView { id: None, reason: DecodeErrorView::NotAnObject }),
    }
}

/// Decodes a JSON value.
pub fn request_of(json: &Json) -> (request: Result<Request, Refusal>)
    ensures
        match request {
            Ok(request) => requested(json@) == Ok::<RequestView, RefusalView>(request@),
            Err(refusal) => requested(json@) == Err::<RequestView, RefusalView>(refusal@),
        },
{
    let members = match json {
        Json::Object(members) => members,
        _ => {
            return Err(Refusal { id: None, reason: DecodeError::NotAnObject });
        },
    };
    proof {
        json::lemma_members(*members);
    }
    let id = match id_at(members.as_slice()) {
        Some(id) => id,
        None => {
            return Err(Refusal { id: None, reason: DecodeError::BadId });
        },
    };
    let name = match json::find(members.as_slice(), "command") {
        None => {
            return Err(Refusal { id, reason: DecodeError::MissingCommand });
        },
        Some(Json::Text(name)) => name,
        Some(_) => {
            return Err(Refusal { id, reason: DecodeError::CommandNotAString });
        },
    };
    match body_of(name.as_str(), members.as_slice()) {
        Some(Ok(body)) => Ok(Request { id, body }),
        Some(Err(detail)) => Err(
            Refusal {
                id,
                reason: DecodeError::BadArguments {
                    command: String::from_str(name.as_str()),
                    detail,
                },
            },
        ),
        None => Err(
            Refusal {
                id,
                reason: DecodeError::UnknownCommand {
                    name: String::from_str(name.as_str()),
                    valid: list_names(),
                },
            },
        ),
    }
}

/// The mark that some tools put at the start of a text.
pub const BYTE_ORDER_MARK: char = '\u{feff}';

/// A text without such marks at its start.
pub open spec fn unmarked(line: Seq<char>) -> Seq<char>
    decreases line.len(),
{
    if line.len() > 0 && line.first() == BYTE_ORDER_MARK {
        unmarked(line.drop_first())
    } else {
        line
    }
}

/// What is left of a line to be read as JSON.
pub open spec fn stripped(line: Seq<char>) -> Seq<char> {
    text::trimmed(unmarked(line))
}

/// What is left of a line to be read as JSON.
fn strip(line: &str) -> (rest: String)
    ensures
        rest@ == stripped(line@),
{
    let chars = text::chars_of(line);
    let mut from: usize = 0;
    proof {
        assert(chars@.skip(0) =~= chars@);
    }
    while from < chars.len() && chars[from] == BYTE_ORDER_MARK
        invariant
            from <= chars.len(),
            unmarked(chars@) == unmarked(chars@.skip(from as int)),
        decreases chars.len() - from,
    {
        proof {
            assert(chars@.skip(from as int).drop_first() =~= chars@.skip(from + 1));
        }
        from += 1;
    }
    let ghost marks_gone = chars@.skip(from as int);
    let rest = vstd::slice::slice_subrange(chars.as_slice(), from, chars.len());
    proof {
        assert(rest@ =~= marks_gone);
    }
    text::text_of(text::trim(rest))
}

/// What a line asks for, if anything. A blank one asks for nothing.
pub open spec fn received(line: Seq<char>) -> Result<
    Option<RequestView>,
    RefusalView,
> {
    if vstd::utf8::encode_utf8(line).len() > MAX_LINE_BYTES {
        Err(RefusalView { id: None, reason: DecodeErrorView::TooLong })
    } else if stripped(line).len() == 0 {
        Ok(None)
    } else {
        match json::read(stripped(line)) {
            Err(detail) => Err(
                RefusalView { id: None, reason: DecodeErrorView::NotJson { detail } },
            ),
            Ok(json) => match requested(json) {
                Ok(request) => Ok(Some(request)),
                Err(refusal) => Err(refusal),
            },
        }
    }
}

/// Decodes one line, keeping the id of one that is refused. A blank one decodes to nothing.
pub fn receive(line: &str) -> (request: Result<Option<Request>, Refusal>)
    ensures
        match request {
            Ok(Some(request)) => received(line@) == Ok::<
                Option<RequestView>,
                RefusalView,
            >(Some(request@)),
            Ok(None) => received(line@) == Ok::<
                Option<RequestView>,
                RefusalView,
            >(None),
            Err(refusal) => received(line@) == Err::<
                Option<RequestView>,
                RefusalView,
            >(refusal@),
        },
{
    if line.as_bytes().len() > MAX_LINE_BYTES {
        return Err(Refusal { id: None, reason: DecodeError::TooLong });
    }
    let rest = strip(line);
    if rest.as_str().is_empty() {
        return Ok(None);
    }
    match json::parse(rest.as_str()) {
        Err(detail) => Err(Refusal { id: None, reason: DecodeError::NotJson { detail } }),
        Ok(json) => match request_of(&json) {
            Ok(request) => Ok(Some(request)),
            Err(refusal) => Err(refusal),
        },
    }
}

/// Decodes one line. A blank one decodes to nothing.
pub fn decode(line: &str) -> (request: Result<Option<Request>, DecodeError>)
    ensures
        match (request, received(line@)) {
            (Ok(Some(request)), Ok(Some(expected))) => request@ == expected,
            (Ok(None), Ok(None)) => true,
            (Err(reason), Err(refusal)) => reason@ == refusal.reason,
            _ => false,
        },
{
    match receive(line) {
        Ok(request) => Ok(request),
        Err(refusal) => Err(refusal.reason),
    }
}

/// Whatever is wrong with a line that carries a usable id, the refusal carries it too, so that
/// nobody waits for a reply that cannot be matched.
pub proof fn law_a_refusal_keeps_the_id(members: Members)
    ensures
        requested(JsonView::Object(members)) matches Err(refusal) ==> (id_in(members) matches Ok(
            id,
        ) ==> refusal.id == id),
{
}

/// A request is answered under the id it was sent with.
pub proof fn law_a_request_keeps_the_id(members: Members)
    ensures
        requested(JsonView::Object(members)) matches Ok(request) ==> id_in(members) == Ok::<
            Option<u64>,
            DecodeErrorView,
        >(request.id),
{
}

/// A command is never decoded with a page number of zero: pages count from 1.
pub proof fn law_page_zero_is_refused(members: Members, field: Seq<char>)
    ensures
        page_in(members, field) matches Some(page) ==> page >= 1,
        pages_in(members, field) matches Some(pages) ==> forall|i: int|
            0 <= i < pages.len() ==> (#[trigger] pages[i]) >= 1,
{
    if let Some(JsonView::List(items)) = json::member(members, field) {
        if let Some(pages) = pages_of(items) {
            assert forall|i: int| 0 <= i < pages.len() implies (#[trigger] pages[i]) >= 1 by {
                assert(page_of(items[i]) is Some);
            }
        }
    }
}

} // verus!
