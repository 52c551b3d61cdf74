//! How each command is written on the wire: its name, and the members that hold its arguments.

use vstd::prelude::*;

use crate::command;
use crate::command::{Command, CommandView};
use crate::confirm::Answer;
use crate::grid::GridMode;
use crate::json;
use crate::json::{JsonView, Number};
use crate::protocol;
use crate::protocol::{BodyView, DecodeErrorView, Members, RefusalView, RequestView};
use crate::protocol_laws;
use crate::stage::StagedNameView;
use crate::view::{PageNumber, Real, ScrollMode, ViewCommand, ZoomTarget};

verus! {

/// Whether the first member called `field` is `value`.
pub open spec fn holds(members: Members, field: Seq<char>, value: JsonView) -> bool {
    exists|i: int|
        {
            &&& 0 <= i < members.len()
            &&& (#[trigger] members[i]).0 == field
            &&& members[i].1 == value
            &&& forall|j: int| 0 <= j < i ==> (#[trigger] members[j]).0 != field
        }
}

/// Whether there is no member called `field`.
pub open spec fn lacks(members: Members, field: Seq<char>) -> bool {
    forall|i: int| 0 <= i < members.len() ==> (#[trigger] members[i]).0 != field
}

/// Whether a value is the counting number `n`.
pub open spec fn is_count(value: JsonView, n: int) -> bool {
    &&& 1 <= n <= usize::MAX
    &&& value matches JsonView::Number(number) && number.natural matches Some(natural) && natural
        == n
}

/// Whether a value is a list of the counting numbers `counts`, in that order.
pub open spec fn is_counts(value: JsonView, counts: Seq<usize>) -> bool {
    &&& value matches JsonView::List(items) && items.len() == counts.len() && forall|i: int|
        0 <= i < items.len() ==> is_count(#[trigger] items[i], counts[i] as int)
}

/// Whether `field` holds the counting number `n`.
pub open spec fn holds_count(members: Members, field: Seq<char>, n: int) -> bool {
    exists|value: JsonView| #[trigger] holds(members, field, value) && is_count(value, n)
}

/// Whether `field` holds a list of the counting numbers `counts`.
pub open spec fn holds_counts(members: Members, field: Seq<char>, counts: Seq<usize>) -> bool {
    exists|value: JsonView| #[trigger] holds(members, field, value) && is_counts(value, counts)
}

/// Whether `field` holds the number `real`.
pub open spec fn holds_real(members: Members, field: Seq<char>, double: Real) -> bool {
    exists|number: Number| #[trigger]
        holds(members, field, JsonView::Number(number)) && number.real == Some(double)
}

/// Whether `field` holds the whole number `n`.
pub open spec fn holds_integer(members: Members, field: Seq<char>, n: int) -> bool {
    exists|number: Number| #[trigger]
        holds(members, field, JsonView::Number(number)) && (number.integer matches Some(integer)
            && integer == n)
}

/// Whether a value says to zoom so.
pub open spec fn is_target(value: JsonView, target: ZoomTarget) -> bool {
    match target {
        ZoomTarget::FitWidth => value == JsonView::Text("fit_width"@),
        ZoomTarget::FitPage => value == JsonView::Text("fit_page"@),
        ZoomTarget::Fixed(factor) => value matches JsonView::Object(inner) && inner.len() == 1
            && inner[0].0 == "fixed"@ && (inner[0].1 matches JsonView::Number(number)
            && number.real == Some(factor)),
    }
}

/// The name that each command goes by.
pub open spec fn wire_name(command: CommandView) -> Seq<char> {
    match command {
        CommandView::View(ViewCommand::FirstPage) => "first_page"@,
        CommandView::View(ViewCommand::PreviousPage) => "previous_page"@,
        CommandView::View(ViewCommand::NextPage) => "next_page"@,
        CommandView::View(ViewCommand::LastPage) => "last_page"@,
        CommandView::View(ViewCommand::GoToPage { .. }) => "go_to_page"@,
        CommandView::View(ViewCommand::ScrollBy { .. }) => "scroll_by"@,
        CommandView::View(ViewCommand::ScrollTo { .. }) => "scroll_to"@,
        CommandView::View(ViewCommand::ScrollByViewports { .. }) => "scroll_by_viewports"@,
        CommandView::View(ViewCommand::PanBy { .. }) => "pan_by"@,
        CommandView::View(ViewCommand::SetZoom { .. }) => "set_zoom"@,
        CommandView::View(ViewCommand::StepZoom { .. }) => "step_zoom"@,
        CommandView::View(ViewCommand::SetScrollMode { .. }) => "set_scroll_mode"@,
        CommandView::Open { .. } => "open"@,
        CommandView::Close => "close"@,
        CommandView::InsertFile { .. } => "insert_file"@,
        CommandView::StageDocument { .. } => "stage_document"@,
        CommandView::ClearStaging => "clear_staging"@,
        CommandView::InsertPages { .. } => "insert_pages"@,
        CommandView::SetStagedSelection { .. } => "set_staged_selection"@,
        CommandView::SetActiveStage { .. } => "set_active_stage"@,
        CommandView::Capture { .. } => "capture"@,
        CommandView::MovePage { .. } => "move_page"@,
        CommandView::MovePages { .. } => "move_pages"@,
        CommandView::DeletePage { .. } => "delete_page"@,
        CommandView::DeletePages { .. } => "delete_pages"@,
        CommandView::SetPageFilter { .. } => "set_page_filter"@,
        CommandView::SetSelection { .. } => "set_selection"@,
        CommandView::Undo => "undo"@,
        CommandView::Save => "save"@,
        CommandView::SaveAs { .. } => "save_as"@,
        CommandView::SetThumbnails { .. } => "set_thumbnails"@,
        CommandView::SetGridMode { .. } => "set_grid_mode"@,
        CommandView::Answer { .. } => "answer"@,
        CommandView::Quit => "quit"@,
    }
}

/// Whether `members` hold the arguments of a command.
pub open spec fn spells(command: CommandView, members: Members) -> bool {
    match command {
        CommandView::View(ViewCommand::GoToPage { page }) => holds_count(
            members,
            "page"@,
            page.spec_get() as int,
        ),
        CommandView::View(ViewCommand::ScrollBy { points }) => holds_real(
            members,
            "points"@,
            points,
        ),
        CommandView::View(ViewCommand::ScrollTo { points }) => holds_real(
            members,
            "points"@,
            points,
        ),
        CommandView::View(ViewCommand::ScrollByViewports { fraction }) => holds_real(
            members,
            "fraction"@,
            fraction,
        ),
        CommandView::View(ViewCommand::PanBy { points }) => holds_real(members, "points"@, points),
        CommandView::View(ViewCommand::SetZoom { target }) => exists|value: JsonView| #[trigger]
            holds(members, "target"@, value) && is_target(value, target),
        CommandView::View(ViewCommand::StepZoom { rungs }) => holds_integer(
            members,
            "rungs"@,
            rungs as int,
        ),
        CommandView::View(ViewCommand::SetScrollMode { mode }) => holds(
            members,
            "mode"@,
            JsonView::Text(
                match mode {
                    ScrollMode::Free => "free"@,
                    ScrollMode::Paged => "paged"@,
                },
            ),
        ),
        CommandView::Open { path }
        | CommandView::InsertFile { path }
        | CommandView::StageDocument { path }
        | CommandView::Capture { path }
        | CommandView::SaveAs { path } => holds(members, "path"@, JsonView::Text(path)),
        CommandView::InsertPages { pages, at } => holds_counts(members, "pages"@, pages)
            && holds_count(members, "at"@, at as int),
        CommandView::SetStagedSelection { staged, pages } => {
            &&& holds_counts(members, "pages"@, pages)
            &&& match staged {
                StagedNameView::Stage(stage) => holds_count(members, "stage"@, stage as int),
                StagedNameView::Path(path) => lacks(members, "stage"@) && holds(
                    members,
                    "path"@,
                    JsonView::Text(path),
                ),
            }
        },
        CommandView::SetActiveStage { stage } => holds_count(members, "stage"@, stage as int),
        CommandView::MovePage { from, to } => holds_count(members, "from"@, from as int)
            && holds_count(members, "to"@, to as int),
        CommandView::MovePages { from, to } => holds_counts(members, "from"@, from)
            && holds_count(members, "to"@, to as int),
        CommandView::DeletePage { page } => holds_count(members, "page"@, page as int),
        CommandView::DeletePages { pages } => holds_counts(members, "pages"@, pages),
        CommandView::SetPageFilter { query } => holds(members, "query"@, JsonView::Text(query)) || (
        query == Seq::<char>::empty() && lacks(members, "query"@)),
        CommandView::SetSelection { pages } => holds_counts(members, "pages"@, pages),
        CommandView::SetThumbnails { visible } => holds(
            members,
            "visible"@,
            JsonView::Truth(visible),
        ),
        CommandView::SetGridMode { mode } => holds(
            members,
            "mode"@,
            JsonView::Text(
                match mode {
                    GridMode::Navigate => "navigate"@,
                    GridMode::Reorganize => "reorganize"@,
                    GridMode::Merge => "merge"@,
                },
            ),
        ),
        CommandView::Answer { choice } => holds(
            members,
            "choice"@,
            JsonView::Text(
                match choice {
                    Answer::Save => "save"@,
                    Answer::Discard => "discard"@,
                    Answer::Cancel => "cancel"@,
                },
            ),
        ),
        _ => true,
    }
}

/// The member found is the first of its name.
pub proof fn lemma_member(members: Members, field: Seq<char>)
    ensures
        match json::member(members, field) {
            Some(value) => holds(members, field, value),
            None => lacks(members, field),
        },
        forall|value: JsonView| #[trigger]
            holds(members, field, value) ==> json::member(members, field) == Some(value),
        lacks(members, field) ==> json::member(members, field) is None,
    decreases members.len(),
{
    if members.len() > 0 {
        let rest = members.drop_first();
        lemma_member(rest, field);
        if members.first().0 == field {
            assert(members[0].0 == field);
            assert(holds(members, field, members[0].1));
            assert forall|value: JsonView| #[trigger] holds(members, field, value) implies value
                == members[0].1 by {
                let i = choose|i: int|
                    {
                        &&& 0 <= i < members.len()
                        &&& (#[trigger] members[i]).0 == field
                        &&& members[i].1 == value
                        &&& forall|j: int| 0 <= j < i ==> (#[trigger] members[j]).0 != field
                    };
                if i > 0 {
                    assert(members[0].0 != field);
                }
            }
            if lacks(members, field) {
                assert(members[0].0 != field);
            }
        } else {
            assert forall|value: JsonView| #[trigger] holds(members, field, value) implies holds(
                rest,
                field,
                value,
            ) by {
                let i = choose|i: int|
                    {
                        &&& 0 <= i < members.len()
                        &&& (#[trigger] members[i]).0 == field
                        &&& members[i].1 == value
                        &&& forall|j: int| 0 <= j < i ==> (#[trigger] members[j]).0 != field
                    };
                assert(rest[i - 1] == members[i]);
                assert forall|j: int| 0 <= j < i - 1 implies (#[trigger] rest[j]).0 != field by {
                    assert(rest[j] == members[j + 1]);
                }
            }
            match json::member(members, field) {
                Some(value) => {
                    let i = choose|i: int|
                        {
                            &&& 0 <= i < rest.len()
                            &&& (#[trigger] rest[i]).0 == field
                            &&& rest[i].1 == value
                            &&& forall|j: int| 0 <= j < i ==> (#[trigger] rest[j]).0 != field
                        };
                    assert(members[i + 1] == rest[i]);
                    assert forall|j: int| 0 <= j < i + 1 implies (#[trigger] members[j]).0
                        != field by {
                        if j > 0 {
                            assert(members[j] == rest[j - 1]);
                        }
                    }
                    assert(holds(members, field, value));
                },
                None => {
                    assert forall|j: int| 0 <= j < members.len() implies (#[trigger] members[j]).0
                        != field by {
                        if j > 0 {
                            assert(members[j] == rest[j - 1]);
                        }
                    }
                },
            }
            if lacks(members, field) {
                assert forall|j: int| 0 <= j < rest.len() implies (#[trigger] rest[j]).0
                    != field by {
                    assert(rest[j] == members[j + 1]);
                }
            }
        }
    }
}

/// A counting number written in a field is read as itself: no other number is ever read from
/// it, and a field that holds none is not read as one.
pub proof fn law_the_number_written_is_the_number_read(members: Members, field: Seq<char>, n: usize)
    ensures
        protocol::page_in(members, field) == Some(n) <==> holds_count(members, field, n as int),
{
    lemma_member(members, field);
    if holds_count(members, field, n as int) {
        let value = choose|value: JsonView| #[trigger]
            holds(members, field, value) && is_count(value, n as int);
        assert(json::member(members, field) == Some(value));
    }
    if protocol::page_in(members, field) == Some(n) {
        let value = json::member(members, field)->0;
        assert(holds(members, field, value));
        assert(is_count(value, n as int));
    }
}

/// A list of counting numbers written in a field is read as itself, one by one.
pub proof fn law_the_numbers_written_are_the_numbers_read(
    members: Members,
    field: Seq<char>,
    counts: Seq<usize>,
)
    ensures
        protocol::pages_in(members, field) == Some(counts) <==> holds_counts(
            members,
            field,
            counts,
        ),
{
    lemma_member(members, field);
    if holds_counts(members, field, counts) {
        let value = choose|value: JsonView| #[trigger]
            holds(members, field, value) && is_counts(value, counts);
        assert(json::member(members, field) == Some(value));
        let items = value->List_0;
        assert forall|i: int| 0 <= i < items.len() implies protocol::page_of(#[trigger] items[i])
            == Some(counts[i]) by {
            assert(is_count(items[i], counts[i] as int));
        }
        assert(protocol::pages_of(items)->0 =~= counts);
    }
    if protocol::pages_in(members, field) == Some(counts) {
        let value = json::member(members, field)->0;
        let items = value->List_0;
        assert forall|i: int| 0 <= i < items.len() implies is_count(
            #[trigger] items[i],
            counts[i] as int,
        ) by {
            assert(protocol::page_of(items[i]) is Some);
            assert(counts[i] == protocol::page_of(items[i])->0);
        }
        assert(holds(members, field, value));
        assert(is_counts(value, counts));
    }
}

/// A number written in a field is read as itself.
pub proof fn law_a_number_with_a_fraction_is_read_as_itself(
    members: Members,
    field: Seq<char>,
    double: Real,
)
    ensures
        protocol::real_in(members, field) == Some(double) <==> holds_real(members, field, double),
{
    lemma_member(members, field);
    if holds_real(members, field, double) {
        let number = choose|number: Number| #[trigger]
            holds(members, field, JsonView::Number(number)) && number.real == Some(double);
        assert(json::member(members, field) == Some(JsonView::Number(number)));
    }
    if protocol::real_in(members, field) == Some(double) {
        let number = json::member(members, field)->0->Number_0;
        assert(holds(members, field, JsonView::Number(number)));
    }
}

/// A whole number written in a field is read as itself.
pub proof fn law_a_whole_number_is_read_as_itself(members: Members, field: Seq<char>, n: i32)
    ensures
        protocol::integer_in(members, field) == Some(n) <==> holds_integer(
            members,
            field,
            n as int,
        ),
{
    lemma_member(members, field);
    if holds_integer(members, field, n as int) {
        let number = choose|number: Number| #[trigger]
            holds(members, field, JsonView::Number(number)) && (number.integer matches Some(
                integer,
            ) && integer == n);
        assert(json::member(members, field) == Some(JsonView::Number(number)));
    }
    if protocol::integer_in(members, field) == Some(n) {
        let number = json::member(members, field)->0->Number_0;
        assert(holds(members, field, JsonView::Number(number)));
    }
}

/// A text and a truth value written in a field are read as themselves.
pub proof fn law_a_text_and_a_truth_are_read_as_themselves(
    members: Members,
    field: Seq<char>,
    words: Seq<char>,
    truth: bool,
)
    ensures
        protocol::text_in(members, field) == Some(words) <==> holds(
            members,
            field,
            JsonView::Text(words),
        ),
        protocol::truth_in(members, field) == Some(truth) <==> holds(
            members,
            field,
            JsonView::Truth(truth),
        ),
{
    lemma_member(members, field);
}

proof fn lemma_names_differ()
    ensures
        "fit_width"@ != "fit_page"@,
        "free"@ != "paged"@,
        "navigate"@ != "reorganize"@,
        "navigate"@ != "merge"@,
        "reorganize"@ != "merge"@,
        "save"@ != "discard"@,
        "save"@ != "cancel"@,
        "discard"@ != "cancel"@,
{
    reveal_strlit("fit_width");
    reveal_strlit("fit_page");
    reveal_strlit("free");
    reveal_strlit("paged");
    reveal_strlit("navigate");
    reveal_strlit("reorganize");
    reveal_strlit("merge");
    reveal_strlit("save");
    reveal_strlit("discard");
    reveal_strlit("cancel");
    assert("fit_width"@.len() == 9);
    assert("fit_page"@.len() == 8);
    assert("free"@.len() == 4);
    assert("paged"@.len() == 5);
    assert("navigate"@.len() == 8);
    assert("reorganize"@.len() == 10);
    assert("merge"@.len() == 5);
    assert("save"@.len() == 4);
    assert("discard"@.len() == 7);
    assert("cancel"@.len() == 6);
}

proof fn lemma_target(members: Members, target: ZoomTarget)
    ensures
        protocol::target_in(members) == Some(target) <==> exists|value: JsonView| #[trigger]
            holds(members, "target"@, value) && is_target(value, target),
{
    lemma_member(members, "target"@);
    lemma_names_differ();
    if exists|value: JsonView| #[trigger]
        holds(members, "target"@, value) && is_target(value, target) {
        let value = choose|value: JsonView| #[trigger]
            holds(members, "target"@, value) && is_target(value, target);
        assert(json::member(members, "target"@) == Some(value));
        if let ZoomTarget::Fixed(factor) = target {
            let inner = value->Object_0;
            assert(inner.first() == inner[0]);
            assert(json::member(inner, "fixed"@) == Some(inner[0].1));
        }
    }
    if protocol::target_in(members) == Some(target) {
        let value = json::member(members, "target"@)->0;
        assert(holds(members, "target"@, value));
        if let JsonView::Object(inner) = value {
            lemma_member(inner, "fixed"@);
            let found = json::member(inner, "fixed"@)->0;
            assert(holds(inner, "fixed"@, found));
            assert(inner[0].0 == "fixed"@ && inner[0].1 == found);
        }
        assert(is_target(value, target));
    }
}

/// What every command spells out is what its arguments are read from.
proof fn lemma_spells_is_carries(command: CommandView, members: Members)
    ensures
        spells(command, members) == protocol_laws::carries(command, members),
{
    lemma_names_differ();
    match command {
        CommandView::View(ViewCommand::GoToPage { page }) => {
            law_the_number_written_is_the_number_read(members, "page"@, page.spec_get());
        },
        CommandView::View(ViewCommand::ScrollBy { points })
        | CommandView::View(ViewCommand::ScrollTo { points })
        | CommandView::View(ViewCommand::PanBy { points }) => {
            law_a_number_with_a_fraction_is_read_as_itself(members, "points"@, points);
        },
        CommandView::View(ViewCommand::ScrollByViewports { fraction }) => {
            law_a_number_with_a_fraction_is_read_as_itself(members, "fraction"@, fraction);
        },
        CommandView::View(ViewCommand::SetZoom { target }) => {
            lemma_target(members, target);
        },
        CommandView::View(ViewCommand::StepZoom { rungs }) => {
            law_a_whole_number_is_read_as_itself(members, "rungs"@, rungs);
        },
        CommandView::View(ViewCommand::SetScrollMode { .. }) => {
            lemma_member(members, "mode"@);
        },
        CommandView::Open { path }
        | CommandView::InsertFile { path }
        | CommandView::StageDocument { path }
        | CommandView::Capture { path }
        | CommandView::SaveAs { path } => {
            lemma_member(members, "path"@);
        },
        CommandView::InsertPages { pages, at } => {
            law_the_numbers_written_are_the_numbers_read(members, "pages"@, pages);
            law_the_number_written_is_the_number_read(members, "at"@, at);
        },
        CommandView::SetStagedSelection { staged, pages } => {
            law_the_numbers_written_are_the_numbers_read(members, "pages"@, pages);
            lemma_member(members, "stage"@);
            lemma_member(members, "path"@);
            if let StagedNameView::Stage(stage) = staged {
                law_the_number_written_is_the_number_read(members, "stage"@, stage);
            }
        },
        CommandView::SetActiveStage { stage } => {
            law_the_number_written_is_the_number_read(members, "stage"@, stage);
        },
        CommandView::MovePage { from, to } => {
            law_the_number_written_is_the_number_read(members, "from"@, from);
            law_the_number_written_is_the_number_read(members, "to"@, to);
        },
        CommandView::MovePages { from, to } => {
            law_the_numbers_written_are_the_numbers_read(members, "from"@, from);
            law_the_number_written_is_the_number_read(members, "to"@, to);
        },
        CommandView::DeletePage { page } => {
            law_the_number_written_is_the_number_read(members, "page"@, page);
        },
        CommandView::DeletePages { pages } | CommandView::SetSelection { pages } => {
            law_the_numbers_written_are_the_numbers_read(members, "pages"@, pages);
        },
        CommandView::SetPageFilter { .. } => {
            lemma_member(members, "query"@);
        },
        CommandView::SetThumbnails { .. } => {
            lemma_member(members, "visible"@);
        },
        CommandView::SetGridMode { .. } => {
            lemma_member(members, "mode"@);
        },
        CommandView::Answer { .. } => {
            lemma_member(members, "choice"@);
        },
        _ => {},
    }
}

/// The id that a request says it has.
pub open spec fn carries_id(members: Members, id: Option<u64>) -> bool {
    match id {
        None => lacks(members, "id"@) || holds(members, "id"@, JsonView::Null),
        Some(id) => exists|number: Number| #[trigger]
            holds(members, "id"@, JsonView::Number(number)) && number.natural == Some(id),
    }
}

pub proof fn lemma_id(members: Members, id: Option<u64>)
    ensures
        protocol::id_in(members) == Ok::<Option<u64>, DecodeErrorView>(id) <==> carries_id(
            members,
            id,
        ),
{
    lemma_member(members, "id"@);
    if carries_id(members, id) {
        if let Some(id) = id {
            let number = choose|number: Number| #[trigger]
                holds(members, "id"@, JsonView::Number(number)) && number.natural == Some(id);
            assert(json::member(members, "id"@) == Some(JsonView::Number(number)));
        }
    }
    if protocol::id_in(members) == Ok::<Option<u64>, DecodeErrorView>(id) {
        if id is Some {
            let number = json::member(members, "id"@)->0->Number_0;
            assert(holds(members, "id"@, JsonView::Number(number)));
        }
    }
}

/// An object whose command is a command's name and whose members hold its arguments is decoded
/// to that command, with those arguments and with the id that came with it.
pub proof fn law_a_command_written_out_is_decoded_to_itself(
    command: Command,
    members: Members,
    id: Option<u64>,
)
    requires
        holds(members, "command"@, JsonView::Text(wire_name(command@))),
        spells(command@, members),
        carries_id(members, id),
    ensures
        protocol::requested(JsonView::Object(members)) == Ok::<RequestView, RefusalView>(
            RequestView { id, body: BodyView::Command(command@) },
        ),
        command::name_in(command) == wire_name(command@),
{
    lemma_spells_is_carries(command@, members);
    protocol_laws::law_every_command_can_be_sent(command, members);
    lemma_id(members, id);
    lemma_member(members, "command"@);
}

/// Whatever is decoded to a command was written out as that command: nothing is decoded to one
/// that was not asked for.
pub proof fn law_nothing_else_is_decoded_to_a_command(members: Members, request: RequestView)
    requires
        protocol::requested(JsonView::Object(members)) == Ok::<RequestView, RefusalView>(request),
    ensures
        carries_id(members, request.id),
        match request.body {
            BodyView::Command(command) => holds(
                members,
                "command"@,
                JsonView::Text(wire_name(command)),
            ) && spells(command, members),
            BodyView::Snapshot => holds(members, "command"@, JsonView::Text("snapshot"@)),
            BodyView::Commands => holds(members, "command"@, JsonView::Text("commands"@)),
        },
{
    lemma_id(members, request.id);
    lemma_member(members, "command"@);
    let name = json::member(members, "command"@)->0->Text_0;
    assert(holds(members, "command"@, JsonView::Text(name)));
    if let BodyView::Command(command) = request.body {
        lemma_decoded(name, members, command);
        lemma_spells_is_carries(command, members);
    }
}

proof fn lemma_decoded(name: Seq<char>, members: Members, command: CommandView)
    requires
        protocol::body_in(name, members) == Some(
            Ok::<BodyView, Seq<char>>(BodyView::Command(command)),
        ),
    ensures
        name == wire_name(command),
        protocol_laws::carries(command, members),
{
    lemma_names_differ();
    if let CommandView::View(ViewCommand::GoToPage { page }) = command {
        let n = protocol::page_in(members, "page"@)->0;
        assert(page == PageNumber::numbered(n));
        PageNumber::lemma_has_its_number(n);
    }
}

} // verus!
