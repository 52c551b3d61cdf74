//! Reading the control channel, line by line.

use std::sync::mpsc::channel;

use porpoise::command::Command;
use porpoise::control::{read_line, Control, Incoming, Line, LineReader, MAX_REQUESTS_PER_FRAME};
use porpoise::mail::Arrival;
use porpoise::protocol::{DecodeError, Refusal, Request, RequestBody, MAX_LINE_BYTES};
use porpoise::view::ViewCommand;

/// Every line of `input`, read in pieces of `size` bytes, up to the end of the stream.
fn lines(input: &[u8], size: usize) -> Vec<Line> {
    let mut reader = LineReader::new();
    let mut lines = Vec::new();
    let mut at = 0;
    loop {
        let end = usize::min(at + size, input.len());
        let (consumed, line) = reader.feed(&input[at..end]);
        at += consumed;
        match line {
            Some(Line::Eof) => return lines,
            Some(line) => lines.push(line),
            None => {}
        }
    }
}

fn messages(input: &str) -> Vec<Result<Request, Refusal>> {
    let mut messages = Vec::new();
    for line in lines(input.as_bytes(), 4096) {
        match read_line(&line) {
            Incoming::Message(message) => messages.push(message),
            Incoming::Nothing => {}
            Incoming::End => panic!("the end came before the stream's"),
        }
    }
    messages
}

#[test]
fn several_commands_arrive_in_order() {
    let batch = messages(
        "{\"id\":1,\"command\":\"next_page\"}\n\
         {\"id\":2,\"command\":\"first_page\"}\n",
    );
    assert_eq!(batch.len(), 2);

    let ids: Vec<Option<u64>> = batch
        .iter()
        .map(|item| item.as_ref().map_or(None, |request| request.id))
        .collect();
    assert_eq!(ids, vec![Some(1), Some(2)], "requests arrived out of order");
}

#[test]
fn a_malformed_line_is_reported_without_stopping_the_stream() {
    let batch = messages(
        "{\"command\":\"nonsense\"}\n\
         not json at all\n\
         {\"id\":9,\"command\":\"last_page\"}\n",
    );
    assert_eq!(batch.len(), 3);
    assert!(batch[0].is_err(), "unknown command was accepted");
    assert!(batch[1].is_err(), "bare text was accepted");

    let recovered = batch[2].as_ref().expect("the stream should recover");
    assert_eq!(recovered.id, Some(9));
    assert_eq!(
        recovered.body,
        RequestBody::Command(Command::View(ViewCommand::LastPage))
    );
}

#[test]
fn blank_lines_produce_nothing_at_all() {
    let batch = messages("\n\n   \n{\"command\":\"quit\"}\n");
    assert_eq!(batch.len(), 1, "blank lines produced messages");
    assert_eq!(
        batch[0].as_ref().expect("a request").body,
        RequestBody::Command(Command::Quit)
    );
}

#[test]
fn closing_stdin_is_reported_as_a_hangup() {
    let (sender, receiver) = channel();
    let mut control = Control::new(receiver);
    for message in messages("{\"command\":\"next_page\"}\n") {
        sender.send(message).expect("still listening");
    }
    assert_eq!(control.poll().len(), 1);
    assert!(!control.hung_up());

    drop(sender);
    assert!(control.poll().is_empty());
    assert!(control.hung_up(), "EOF was not reported");
}

#[test]
fn a_line_with_no_newline_terminator_is_still_read() {
    let batch = messages("{\"command\":\"quit\"}");
    assert_eq!(batch.len(), 1);
}

#[test]
fn an_unterminated_flood_cannot_buffer_without_bound() {
    let flood = "x".repeat(MAX_LINE_BYTES * 4);
    let batch = messages(&flood);
    assert_eq!(batch.len(), 1);
    assert!(batch[0].is_err(), "a flood decoded as a valid request");
}

#[test]
fn polling_is_bounded_so_a_flood_cannot_stall_a_frame() {
    let mut input = String::new();
    for id in 0..(MAX_REQUESTS_PER_FRAME * 3) {
        input.push_str(&format!("{{\"id\":{id},\"command\":\"next_page\"}}\n"));
    }
    let (sender, receiver) = channel();
    let mut control = Control::new(receiver);
    for message in messages(&input) {
        sender.send(message).expect("still listening");
    }

    for frame in 0..3 {
        let batch = control.poll();
        assert_eq!(batch.len(), MAX_REQUESTS_PER_FRAME);
        let first = batch[0].as_ref().expect("a request").id;
        assert_eq!(first, Some(frame * 64));
    }
    assert!(control.poll().is_empty());
}

#[test]
fn lines_do_not_depend_on_how_the_stream_is_cut() {
    let input = b"one\n\ntwo\r\nthree";
    let whole = lines(input, 4096);
    assert_eq!(
        whole,
        [
            Line::Read(b"one".to_vec()),
            Line::Read(Vec::new()),
            Line::Read(b"two\r".to_vec()),
            Line::Read(b"three".to_vec()),
        ]
    );
    for size in 1..8 {
        assert_eq!(lines(input, size), whole, "in pieces of {size}");
    }
}

#[test]
fn a_line_of_the_longest_length_is_kept() {
    let mut input = vec![b'x'; MAX_LINE_BYTES];
    input.push(b'\n');
    assert_eq!(lines(&input, 65_536), [Line::Read(vec![b'x'; MAX_LINE_BYTES])]);
}

#[test]
fn a_line_one_byte_longer_is_refused() {
    let long = vec![b'x'; MAX_LINE_BYTES + 1];
    assert!(matches!(
        read_line(&Line::Read(long)),
        Incoming::Message(Err(Refusal { id: None, reason: DecodeError::TooLong }))
    ));
}

#[test]
fn a_line_one_byte_longer_is_skipped_however_it_is_cut() {
    let mut input = vec![b'x'; MAX_LINE_BYTES + 1];
    input.push(b'\n');
    for size in [MAX_LINE_BYTES + 2, MAX_LINE_BYTES + 1, MAX_LINE_BYTES, 65_536, 65_537] {
        assert_eq!(lines(&input, size), [Line::TooLong], "in pieces of {size}");
    }
    let mut reader = LineReader::new();
    assert_eq!(reader.feed(&input), (MAX_LINE_BYTES + 2, Some(Line::TooLong)));
    assert_eq!(reader.feed(&[]), (0, Some(Line::Eof)));
}

#[test]
fn an_over_long_line_is_too_long_before_it_is_anything_else() {
    let mut input = vec![0xff; MAX_LINE_BYTES + 1];
    input.extend_from_slice(b"\n{\"command\":\"quit\"}\n");
    assert_eq!(
        lines(&input, input.len()),
        [Line::TooLong, Line::Read(b"{\"command\":\"quit\"}".to_vec())]
    );
}

#[test]
fn a_flood_is_skipped_to_the_end_of_its_line() {
    let mut input = vec![b'x'; MAX_LINE_BYTES + 65_537];
    input.extend_from_slice(b"\n{\"command\":\"quit\"}\n");
    assert_eq!(
        lines(&input, 65_536),
        [Line::TooLong, Line::Read(b"{\"command\":\"quit\"}".to_vec())]
    );
    assert!(matches!(
        read_line(&Line::TooLong),
        Incoming::Message(Err(Refusal { id: None, reason: DecodeError::TooLong }))
    ));
}

#[test]
fn what_is_found_in_the_channel_decides() {
    let (_sender, receiver) = channel();
    let mut control = Control::new(receiver);
    let mut batch = Vec::new();
    for message in messages("{\"id\":5,\"command\":\"quit\"}\n") {
        assert!(control.take_in(&mut batch, Arrival::Message(message)));
    }
    assert_eq!(batch.len(), 1);
    assert!(!control.take_in(&mut batch, Arrival::Empty));
    assert!(!control.hung_up());
    assert!(!control.take_in(&mut batch, Arrival::Disconnected));
    assert!(control.hung_up());
    assert_eq!(batch.len(), 1);
}

#[test]
fn the_end_of_the_stream_ends_the_reading() {
    assert!(matches!(read_line(&Line::Eof), Incoming::End));
    assert!(lines(b"", 8).is_empty());
}

#[test]
fn a_line_that_is_not_utf_8_is_refused() {
    let Incoming::Message(Err(refusal)) = read_line(&Line::Read(vec![0xff, 0xfe])) else {
        panic!("bytes that are no text were accepted");
    };
    assert_eq!(refusal.id, None);
    let message = refusal.reason.message();
    assert!(message.starts_with("not valid UTF-8: "), "{message}");
    assert!(message.contains("index 0"), "{message}");
}
