//! What comes of the bytes of the control channel, and when a page is asked for.

use vstd::prelude::*;

use crate::command;
use crate::control;
use crate::control::{IncomingView, LineReaderView, LineView};
use crate::failure::Failure;
use crate::json::JsonView;
use crate::protocol;
use crate::protocol::{BodyView, DecodeErrorView, Members, RefusalView, RequestView};
use crate::queue;
use crate::queue::{CacheKey, ZoomBucket};
use crate::text;
use crate::text_laws;
use crate::text_laws::is_blank;
use crate::wire_laws;
use crate::wire_laws::{carries_id, holds, lacks};

verus! {

/// Whether no line ends in `bytes`.
pub open spec fn is_one_line(bytes: Seq<u8>) -> bool {
    forall|i: int| 0 <= i < bytes.len() ==> #[trigger] bytes[i] != 10
}

proof fn lemma_line_end(line: Seq<u8>, rest: Seq<u8>)
    requires
        is_one_line(line),
        rest.len() > 0 ==> rest[0] == 10,
    ensures
        control::line_end(line + rest) == line.len(),
    decreases line.len(),
{
    let chunk = line + rest;
    if line.len() > 0 {
        assert(chunk.first() == line[0]);
        let less = line.drop_first();
        assert forall|i: int| 0 <= i < less.len() implies #[trigger] less[i] != 10 by {
            assert(less[i] == line[i + 1]);
        }
        assert(chunk.drop_first() =~= less + rest);
        lemma_line_end(less, rest);
    } else {
        assert(chunk =~= rest);
    }
}

/// A line is what stands before the byte that ends it, byte for byte, and no more than that is
/// used up. One of more than 1048576 bytes is too long.
pub proof fn law_a_line_is_what_stands_before_its_end(line: Seq<u8>, more: Seq<u8>)
    requires
        is_one_line(line),
    ensures
        ({
            let fed = LineReaderView::fresh().fed(line + seq![10u8] + more);
            &&& fed.consumed == line.len() + 1
            &&& fed.after == LineReaderView::fresh()
            &&& fed.line == Some(
                if line.len() <= 1048576 {
                    LineView::Read(line)
                } else {
                    LineView::TooLong
                },
            )
        }),
{
    let chunk = line + seq![10u8] + more;
    assert(chunk =~= line + (seq![10u8] + more));
    lemma_line_end(line, seq![10u8] + more);
    assert(Seq::<u8>::empty() + chunk.take(line.len() as int) =~= line);
}

/// A piece without the end of a line is kept behind what was kept before, up to 1048576 bytes;
/// beyond that nothing is kept and the line is too long.
pub proof fn law_a_piece_is_kept_behind_the_rest(reader: LineReaderView, piece: Seq<u8>)
    requires
        is_one_line(piece),
        piece.len() > 0,
    ensures
        ({
            let fed = reader.fed(piece);
            let fits = !reader.overflowed && reader.buffer.len() + piece.len() <= 1048576;
            &&& fed.line is None
            &&& fed.consumed == piece.len()
            &&& fits ==> fed.after.buffer == reader.buffer + piece && !fed.after.overflowed
            &&& !fits ==> fed.after.buffer.len() == 0 && fed.after.overflowed
        }),
{
    lemma_line_end(piece, Seq::empty());
    assert(piece + Seq::<u8>::empty() =~= piece);
}

/// At the end of the stream what was kept is the last line, if anything was.
pub proof fn law_the_end_of_the_stream_ends_a_line(reader: LineReaderView)
    ensures
        reader.fed(Seq::empty()).line == Some(
            if reader.overflowed {
                LineView::TooLong
            } else if reader.buffer.len() > 0 {
                LineView::Read(reader.buffer)
            } else {
                LineView::Eof
            },
        ),
        LineReaderView::fresh().buffer.len() == 0,
        !LineReaderView::fresh().overflowed,
{
}

/// What comes of a line: the end of the stream is the end, a line that is too long and one that
/// is no text are refused, and a text is what is received from it.
pub proof fn law_what_comes_of_a_line(words: Seq<char>, bytes: Seq<u8>)
    ensures
        control::incoming(LineView::Eof) == IncomingView::End,
        control::incoming(LineView::TooLong) == IncomingView::Message(
            Err(RefusalView { id: None, reason: DecodeErrorView::TooLong }),
        ),
        !vstd::utf8::valid_utf8(bytes) ==> (control::incoming(
            LineView::Read(bytes),
        ) matches IncomingView::Message(Err(refusal)) && refusal.id is None
            && refusal.reason is NotUtf8),
        control::incoming(LineView::Read(vstd::utf8::encode_utf8(words))) == (
        match protocol::received(words) {
            Ok(Some(request)) => IncomingView::Message(Ok(request)),
            Ok(None) => IncomingView::Nothing,
            Err(refusal) => IncomingView::Message(Err(refusal)),
        }),
{
    vstd::utf8::encode_utf8_decode_utf8(words);
    vstd::utf8::encode_utf8_valid_utf8(words);
}

/// Whether a text is made of byte order marks.
pub open spec fn is_marks(marks: Seq<char>) -> bool {
    forall|i: int| 0 <= i < marks.len() ==> #[trigger] marks[i] == '\u{feff}'
}

proof fn lemma_unmarked(marks: Seq<char>, rest: Seq<char>)
    requires
        is_marks(marks),
        rest.len() > 0 ==> rest[0] != '\u{feff}',
    ensures
        protocol::unmarked(marks + rest) == rest,
    decreases marks.len(),
{
    let line = marks + rest;
    if marks.len() > 0 {
        let less = marks.drop_first();
        assert(line.first() == marks[0]);
        assert forall|i: int| 0 <= i < less.len() implies #[trigger] less[i] == '\u{feff}' by {
            assert(less[i] == marks[i + 1]);
        }
        assert(line.drop_first() =~= less + rest);
        lemma_unmarked(less, rest);
    } else {
        assert(line =~= rest);
    }
}

/// Byte order marks before a line and white space around it change nothing, and a line with
/// nothing else in it asks for nothing.
pub proof fn law_marks_and_white_space_do_not_count(
    marks: Seq<char>,
    lead: Seq<char>,
    words: Seq<char>,
    tail: Seq<char>,
)
    requires
        is_marks(marks),
        is_blank(lead),
        is_blank(tail),
        words.len() > 0 ==> words[0] != '\u{feff}' && !text::is_space(words[0])
            && !text::is_space(words.last()),
        vstd::utf8::encode_utf8(marks + (lead + words + tail)).len() <= 1048576,
    ensures
        protocol::stripped(marks + (lead + words + tail)) == words,
        words.len() == 0 ==> protocol::received(marks + (lead + words + tail)) == Ok::<
            Option<RequestView>,
            RefusalView,
        >(None),
{
    let rest = lead + words + tail;
    if rest.len() > 0 {
        assert(rest[0] != '\u{feff}') by {
            if lead.len() > 0 {
                assert(rest[0] == lead[0]);
                assert(text::is_space(lead[0]));
            } else if words.len() > 0 {
                assert(rest[0] == words[0]);
            } else {
                assert(rest[0] == tail[0]);
                assert(text::is_space(tail[0]));
            }
        }
    }
    lemma_unmarked(marks, rest);
    text_laws::law_white_space_around_a_text_is_taken_off(lead, words, tail);
    text_laws::lemma_nothing_to_trim(words);
}

/// A line of more than 1048576 bytes is refused, whatever it says.
pub proof fn law_a_long_line_is_refused(line: Seq<char>)
    requires
        vstd::utf8::encode_utf8(line).len() > 1048576,
    ensures
        protocol::received(line) == Err::<Option<RequestView>, RefusalView>(
            RefusalView { id: None, reason: DecodeErrorView::TooLong },
        ),
{
}

/// What is refused before its command is looked at, and under which id: what is no object, an id
/// that is no natural number, a command that is missing and one that is no text.
pub proof fn law_what_is_refused_before_its_command(
    json: JsonView,
    members: Members,
    id: Option<u64>,
    value: JsonView,
)
    ensures
        !(json is Object) ==> protocol::requested(json) == Err::<RequestView, RefusalView>(
            RefusalView { id: None, reason: DecodeErrorView::NotAnObject },
        ),
        (forall|other: Option<u64>| !#[trigger] carries_id(members, other)) ==> protocol::requested(
            JsonView::Object(members),
        ) == Err::<RequestView, RefusalView>(
            RefusalView { id: None, reason: DecodeErrorView::BadId },
        ),
        carries_id(members, id) && lacks(members, "command"@) ==> protocol::requested(
            JsonView::Object(members),
        ) == Err::<RequestView, RefusalView>(
            RefusalView { id, reason: DecodeErrorView::MissingCommand },
        ),
        carries_id(members, id) && holds(members, "command"@, value) && !(value is Text)
            ==> protocol::requested(JsonView::Object(members)) == Err::<RequestView, RefusalView>(
            RefusalView { id, reason: DecodeErrorView::CommandNotAString },
        ),
        carries_id(members, id) && holds(members, "command"@, JsonView::Text("snapshot"@))
            ==> protocol::requested(JsonView::Object(members)) == Ok::<RequestView, RefusalView>(
            RequestView { id, body: BodyView::Snapshot },
        ),
        carries_id(members, id) && holds(members, "command"@, JsonView::Text("commands"@))
            ==> protocol::requested(JsonView::Object(members)) == Ok::<RequestView, RefusalView>(
            RequestView { id, body: BodyView::Commands },
        ),
{
    wire_laws::lemma_id(members, id);
    wire_laws::lemma_member(members, "command"@);
    reveal_strlit("snapshot");
    reveal_strlit("commands");
    assert("snapshot"@[0] != "commands"@[0]);
    if forall|other: Option<u64>| !#[trigger] carries_id(members, other) {
        if let Ok(found) = protocol::id_in(members) {
            wire_laws::lemma_id(members, found);
        }
    }
}

/// A page is worth asking for where it is not on its way and has not been given up on: it has
/// not failed, or it has attempts left.
pub proof fn law_when_a_page_is_worth_asking_for(
    key: CacheKey,
    in_flight: Seq<CacheKey>,
    failures: Map<CacheKey, Failure>,
)
    ensures
        queue::is_worth_asking_for(key, in_flight, failures) <==> {
            &&& forall|i: int| 0 <= i < in_flight.len() ==> #[trigger] in_flight[i] != key
            &&& failures.contains_key(key) ==> failures[key].retries_left > 0
        },
        queue::given_up(failures).contains(key) <==> failures.contains_key(key)
            && failures[key].retries_left == 0,
{
    if queue::is_worth_asking_for(key, in_flight, failures) {
        assert forall|i: int| 0 <= i < in_flight.len() implies #[trigger] in_flight[i] != key by {
            if in_flight[i] == key {
                assert(in_flight.contains(key));
            }
        }
    }
}

/// A page that arrived is no longer on its way, and every other one still is.
pub proof fn law_only_what_arrived_is_off_its_way(
    in_flight: Seq<CacheKey>,
    key: CacheKey,
    other: CacheKey,
)
    ensures
        !queue::without(in_flight, key).contains(key),
        other != key ==> queue::without(in_flight, key).contains(other) == in_flight.contains(
            other,
        ),
    decreases in_flight.len(),
{
    reveal(Seq::filter);
    if in_flight.len() > 0 {
        let less = in_flight.drop_last();
        law_only_what_arrived_is_off_its_way(less, key, other);
        let kept = queue::without(less, key);
        let last = in_flight.last();
        assert(queue::without(in_flight, key) == if last != key {
            kept.push(last)
        } else {
            kept
        });
        assert(in_flight == less.push(last));
        broadcast use vstd::seq_lib::group_seq_properties;

    }
}

/// A page that could not be drawn is called by the number it has in its document.
pub proof fn law_a_failed_page_is_called_by_its_number(document: usize, page: usize, bucket: ZoomBucket)
    requires
        page < usize::MAX,
    ensures
        queue::number_of(CacheKey { document, page, bucket }) == page + 1,
{
}

/// A name that no command and neither question has is refused with the names that there are.
pub proof fn law_an_unknown_name_is_told_the_known_ones(
    members: Members,
    id: Option<u64>,
    name: Seq<char>,
)
    requires
        carries_id(members, id),
        holds(members, "command"@, JsonView::Text(name)),
        !command::view_names().contains(name),
        !command::shell_names().contains(name),
        name != "snapshot"@,
        name != "commands"@,
    ensures
        protocol::requested(JsonView::Object(members)) == Err::<RequestView, RefusalView>(
            RefusalView {
                id,
                reason: DecodeErrorView::UnknownCommand {
                    name,
                    valid: protocol::listed(command::view_names() + command::shell_names()),
                },
            },
        ),
{
    wire_laws::lemma_id(members, id);
    wire_laws::lemma_member(members, "command"@);
    assert(command::view_names()[0] == "first_page"@);
    assert(command::view_names()[1] == "previous_page"@);
    assert(command::view_names()[2] == "next_page"@);
    assert(command::view_names()[3] == "last_page"@);
    assert(command::view_names()[4] == "go_to_page"@);
    assert(command::view_names()[5] == "scroll_by"@);
    assert(command::view_names()[6] == "scroll_to"@);
    assert(command::view_names()[7] == "scroll_by_viewports"@);
    assert(command::view_names()[8] == "pan_by"@);
    assert(command::view_names()[9] == "set_zoom"@);
    assert(command::view_names()[10] == "step_zoom"@);
    assert(command::view_names()[11] == "set_scroll_mode"@);
    assert(command::shell_names()[0] == "open"@);
    assert(command::shell_names()[1] == "close"@);
    assert(command::shell_names()[2] == "insert_file"@);
    assert(command::shell_names()[3] == "stage_document"@);
    assert(command::shell_names()[4] == "clear_staging"@);
    assert(command::shell_names()[5] == "insert_pages"@);
    assert(command::shell_names()[6] == "set_staged_selection"@);
    assert(command::shell_names()[7] == "set_active_stage"@);
    assert(command::shell_names()[8] == "capture"@);
    assert(command::shell_names()[9] == "move_page"@);
    assert(command::shell_names()[10] == "move_pages"@);
    assert(command::shell_names()[11] == "delete_page"@);
    assert(command::shell_names()[12] == "delete_pages"@);
    assert(command::shell_names()[13] == "set_page_filter"@);
    assert(command::shell_names()[14] == "set_selection"@);
    assert(command::shell_names()[15] == "undo"@);
    assert(command::shell_names()[16] == "save"@);
    assert(command::shell_names()[17] == "save_as"@);
    assert(command::shell_names()[18] == "set_thumbnails"@);
    assert(command::shell_names()[19] == "set_grid_mode"@);
    assert(command::shell_names()[20] == "answer"@);
    assert(command::shell_names()[21] == "quit"@);
}

/// Names are listed with a comma and a blank between each and the next.
pub proof fn law_how_names_are_listed(names: Seq<Seq<char>>, name: Seq<char>)
    ensures
        protocol::listed(seq![name]) == name,
        names.len() > 0 ==> protocol::listed(names.push(name)) == protocol::listed(names) + ", "@
            + name,
        protocol::grid_mode_names() == "navigate"@ + ", "@ + "reorganize"@ + ", "@ + "merge"@,
        protocol::answer_names() == "save"@ + ", "@ + "discard"@ + ", "@ + "cancel"@,
{
    assert(names.push(name).drop_last() =~= names);
}

/// What is wrong with an argument is said by what was wanted and the field it was wanted in; an
/// argument of the view that is not there at all is called missing.
pub proof fn law_what_is_said_of_an_argument(
    members: Members,
    what: Seq<char>,
    field: Seq<char>,
    value: JsonView,
)
    ensures
        protocol::wanted(what, field) == "expected "@ + what + " \""@ + field + "\""@,
        protocol::wanted_one_of(field, what) == "expected \""@ + field + "\" to be one of: "@ + what,
        lacks(members, field) ==> protocol::unusable(members, what, field) == "missing field `"@
            + field + "`"@,
        holds(members, field, value) ==> protocol::unusable(members, what, field)
            == "expected "@ + what + " \""@ + field + "\""@,
{
    wire_laws::lemma_member(members, field);
}

/// The limit that a line is held to is said in bytes.
pub proof fn law_the_limit_is_said(name: Seq<char>, detail: Seq<char>)
    ensures
        DecodeErrorView::TooLong.message() == "line exceeds the "@ + text::decimal_text(1048576)
            + " byte limit"@,
        (DecodeErrorView::UnknownCommand { name, valid: detail }).message()
            == "unknown command \""@ + name + "\"; valid commands are: "@ + detail,
        (DecodeErrorView::BadArguments { command: name, detail }).message() == "\""@ + name
            + "\" has bad arguments: "@ + detail,
{
}

} // verus!
