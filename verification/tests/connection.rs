use oneshot_reactor::action::{teardown_actions, Action};
use oneshot_reactor::connection::{ConnectionError, ReadOutcome, RequestContext, SCRATCH_LEN};
use oneshot_reactor::interest::{listener_read_event, listener_write_event, Interest};

/// A scratch buffer as a read leaves it: the bytes read, then zeroes.
fn scratch(bytes: &[u8]) -> [u8; 1024] {
    let mut buf = [0u8; 1024];
    buf[..bytes.len()].copy_from_slice(bytes);
    buf
}

fn rearm_read(fd: i32, key: u64) -> Action {
    Action::ModifyInterest { fd, event: listener_read_event(key) }
}

fn rearm_write(fd: i32, key: u64) -> Action {
    Action::ModifyInterest { fd, event: listener_write_event(key) }
}

#[test]
fn scratch_buffer_holds_1024_bytes() {
    assert_eq!(SCRATCH_LEN, 1024);
}

#[test]
fn new_context_is_empty_and_reads() {
    let c = RequestContext::new(9);
    assert_eq!(c.fd(), 9);
    assert!(c.buffered().is_empty());
    assert_eq!(c.length(), 0);
    assert!(!c.has_length());
    assert_eq!(c.interest(), Interest::Read);
}

#[test]
fn short_read_appends_full_scratch() {
    // the whole buffer is taken in, zeroes included, however little was read
    let mut c = RequestContext::new(9);
    let res = c.read_cb(101, &ReadOutcome::Data(scratch(b"hi")));
    assert_eq!(res, Ok(rearm_write(9, 101)));
    assert_eq!(c.buffered().len(), 1024);
    assert_eq!(&c.buffered()[..2], b"hi");
    assert!(c.buffered()[2..].iter().all(|b| *b == 0));
}

#[test]
fn empty_read_appends_full_scratch_too() {
    let mut c = RequestContext::new(9);
    let res = c.read_cb(101, &ReadOutcome::Data([0u8; 1024]));
    assert_eq!(res, Ok(rearm_write(9, 101)));
    assert_eq!(c.buffered().len(), 1024);
    assert_eq!(c.interest(), Interest::Write);
}

#[test]
fn request_without_header_completes_on_first_read() {
    let mut c = RequestContext::new(4);
    let res = c.read_cb(101, &ReadOutcome::Data(scratch(b"GET / HTTP/1.1\r\nhost: x\r\n\r\n")));
    assert_eq!(res, Ok(rearm_write(4, 101)));
    assert_eq!(c.length(), 0);
    assert!(!c.has_length());
    assert_eq!(c.interest(), Interest::Write);
}

#[test]
fn header_with_length_zero_completes_on_first_read() {
    for name in ["content-length", "Content-Length", "CONTENT-LENGTH", "cOnTeNt-lEnGtH"] {
        let request = format!("GET / HTTP/1.1\r\n{}: 0\r\n\r\n", name);
        let mut c = RequestContext::new(4);
        let res = c.read_cb(101, &ReadOutcome::Data(scratch(request.as_bytes())));
        assert_eq!(res, Ok(rearm_write(4, 101)));
        assert!(c.has_length());
        assert_eq!(c.length(), 0);
        assert_eq!(c.interest(), Interest::Write);
    }
}

#[test]
fn length_within_first_buffer_completes_on_first_read() {
    let mut c = RequestContext::new(4);
    let res = c.read_cb(
        101,
        &ReadOutcome::Data(scratch(b"POST / HTTP/1.1\r\ncontent-length: 1024\r\n\r\n")),
    );
    assert_eq!(res, Ok(rearm_write(4, 101)));
    assert_eq!(c.length(), 1024);
}

#[test]
fn length_beyond_first_buffer_keeps_reading() {
    let mut c = RequestContext::new(4);
    let res = c.read_cb(
        101,
        &ReadOutcome::Data(scratch(b"POST / HTTP/1.1\r\ncontent-length: 1025\r\n\r\n")),
    );
    assert_eq!(res, Ok(rearm_read(4, 101)));
    assert_eq!(c.length(), 1025);
    assert_eq!(c.interest(), Interest::Read);
    let res = c.read_cb(101, &ReadOutcome::Data(scratch(b"x")));
    assert_eq!(res, Ok(rearm_write(4, 101)));
    assert_eq!(c.buffered().len(), 2048);
    assert_eq!(c.interest(), Interest::Write);
}

#[test]
fn completion_boundary_is_met_on_the_nth_read() {
    // 4096 bytes are expected: reads one to three leave the connection
    // reading, the fourth completes it
    let mut c = RequestContext::new(4);
    let first = scratch(b"POST / HTTP/1.1\r\ncontent-length: 4096\r\n\r\n");
    assert_eq!(c.read_cb(101, &ReadOutcome::Data(first)), Ok(rearm_read(4, 101)));
    assert_eq!(c.read_cb(101, &ReadOutcome::Data([b'a'; 1024])), Ok(rearm_read(4, 101)));
    assert_eq!(c.read_cb(101, &ReadOutcome::Data([b'b'; 1024])), Ok(rearm_read(4, 101)));
    assert_eq!(c.buffered().len(), 3072);
    assert_eq!(c.interest(), Interest::Read);
    assert_eq!(c.read_cb(101, &ReadOutcome::Data([b'c'; 1024])), Ok(rearm_write(4, 101)));
    assert_eq!(c.buffered().len(), 4096);
    assert_eq!(c.length(), 4096);
    assert_eq!(c.interest(), Interest::Write);
}

#[test]
fn one_byte_short_of_the_boundary_keeps_reading() {
    let mut c = RequestContext::new(4);
    let first = scratch(b"POST / HTTP/1.1\r\ncontent-length: 2049\r\n\r\n");
    assert_eq!(c.read_cb(101, &ReadOutcome::Data(first)), Ok(rearm_read(4, 101)));
    assert_eq!(c.read_cb(101, &ReadOutcome::Data([b'a'; 1024])), Ok(rearm_read(4, 101)));
    assert_eq!(c.read_cb(101, &ReadOutcome::Data([b'a'; 1024])), Ok(rearm_write(4, 101)));
}

#[test]
fn would_block_changes_nothing_and_keeps_reading() {
    let mut c = RequestContext::new(4);
    assert_eq!(c.read_cb(101, &ReadOutcome::WouldBlock), Ok(rearm_read(4, 101)));
    assert!(c.buffered().is_empty());
    assert_eq!(c.length(), 0);
    assert_eq!(c.interest(), Interest::Read);

    let first = scratch(b"POST / HTTP/1.1\r\ncontent-length: 3000\r\n\r\n");
    assert_eq!(c.read_cb(101, &ReadOutcome::Data(first)), Ok(rearm_read(4, 101)));
    assert_eq!(c.read_cb(101, &ReadOutcome::WouldBlock), Ok(rearm_read(4, 101)));
    assert_eq!(c.buffered().len(), 1024);
    assert_eq!(c.length(), 3000);
}

#[test]
fn failed_read_is_an_error_and_changes_nothing() {
    let mut c = RequestContext::new(4);
    assert_eq!(c.read_cb(101, &ReadOutcome::Failed), Err(ConnectionError::ReadFailed));
    assert!(c.buffered().is_empty());
    assert_eq!(c.interest(), Interest::Read);
}

#[test]
fn malformed_length_is_an_error() {
    let mut c = RequestContext::new(4);
    let res = c.read_cb(
        101,
        &ReadOutcome::Data(scratch(b"POST / HTTP/1.1\r\ncontent-length: many\r\n\r\n")),
    );
    assert_eq!(res, Err(ConnectionError::MalformedLength));
    assert_eq!(c.buffered().len(), 1024);
    assert!(!c.has_length());
}

#[test]
fn header_cut_off_by_padding_is_malformed() {
    let mut c = RequestContext::new(4);
    let res = c.read_cb(101, &ReadOutcome::Data(scratch(b"POST / HTTP/1.1\r\ncontent-length: 12")));
    assert_eq!(res, Err(ConnectionError::MalformedLength));
}

#[test]
fn header_is_looked_for_on_every_read_until_found() {
    let mut c = RequestContext::new(4);
    // a first read that fills the buffer to its last byte, without the header
    let mut head = String::from("POST / HTTP/1.1\r\nx-filler: ");
    while head.len() < 1022 {
        head.push('a');
    }
    head.push_str("\r\n");
    assert_eq!(head.len(), 1024);
    assert_eq!(
        c.read_cb(101, &ReadOutcome::Data(scratch(head.as_bytes()))),
        Ok(rearm_write(4, 101))
    );
    assert!(!c.has_length());
    // the header arrives with the second read
    assert_eq!(
        c.read_cb(101, &ReadOutcome::Data(scratch(b"content-length: 5000\r\n\r\n"))),
        Ok(rearm_read(4, 101))
    );
    assert_eq!(c.length(), 5000);
    assert_eq!(c.interest(), Interest::Read);
}

#[test]
fn header_behind_padding_does_not_begin_a_line() {
    // the zeroes that a short read leaves stand between the line feed and
    // the header of the next read
    let mut c = RequestContext::new(4);
    assert_eq!(
        c.read_cb(101, &ReadOutcome::Data(scratch(b"POST / HTTP/1.1\r\n"))),
        Ok(rearm_write(4, 101))
    );
    assert_eq!(
        c.read_cb(101, &ReadOutcome::Data(scratch(b"content-length: 5000\r\n\r\n"))),
        Ok(rearm_write(4, 101))
    );
    assert!(!c.has_length());
    assert_eq!(c.buffered().len(), 2048);
}

#[test]
fn length_once_set_is_not_reset() {
    let mut c = RequestContext::new(4);
    let first = scratch(b"POST / HTTP/1.1\r\ncontent-length: 3000\r\n\r\n");
    assert_eq!(c.read_cb(101, &ReadOutcome::Data(first)), Ok(rearm_read(4, 101)));
    // neither another header nor bytes that are no text change it
    let second = scratch(b"\r\ncontent-length: 1\r\ncontent-length: x\r\n");
    assert_eq!(c.read_cb(101, &ReadOutcome::Data(second)), Ok(rearm_read(4, 101)));
    assert_eq!(c.length(), 3000);
    assert_eq!(c.read_cb(101, &ReadOutcome::Data([0xff; 1024])), Ok(rearm_write(4, 101)));
    assert_eq!(c.length(), 3000);
}

#[test]
fn bytes_that_are_no_text_are_taken_in_unparsed() {
    let mut c = RequestContext::new(4);
    let mut buf = scratch(b"POST / HTTP/1.1\r\ncontent-length: 9999\r\n\r\n");
    buf[1000] = 0xff;
    assert_eq!(c.read_cb(101, &ReadOutcome::Data(buf)), Ok(rearm_write(4, 101)));
    assert!(!c.has_length());
    assert_eq!(c.buffered().len(), 1024);
    // the bytes stay, so the text stays unreadable on later reads
    let next = scratch(b"\r\ncontent-length: 9999\r\n");
    assert_eq!(c.read_cb(101, &ReadOutcome::Data(next)), Ok(rearm_write(4, 101)));
    assert!(!c.has_length());
}

#[test]
fn parse_and_set_takes_the_first_header() {
    let mut c = RequestContext::new(4);
    assert_eq!(c.parse_and_set_content_length("nothing here"), Ok(()));
    assert!(!c.has_length());
    assert_eq!(c.parse_and_set_content_length("HTTP\ncontent-length: 77\n"), Ok(()));
    assert!(c.has_length());
    assert_eq!(c.length(), 77);
    // set once: later texts are not looked at
    assert_eq!(c.parse_and_set_content_length("HTTP\ncontent-length: 78\n"), Ok(()));
    assert_eq!(c.length(), 77);
    assert_eq!(c.parse_and_set_content_length("HTTP\ncontent-length: x\n"), Ok(()));
    assert_eq!(c.length(), 77);
}

#[test]
fn parse_and_set_reports_a_malformed_header() {
    let mut c = RequestContext::new(4);
    assert_eq!(
        c.parse_and_set_content_length("HTTP\ncontent-length: x\n"),
        Err(ConnectionError::MalformedLength)
    );
    assert!(!c.has_length());
    assert_eq!(c.length(), 0);
}

#[test]
fn write_phase_takes_the_socket_down_whatever_the_write_did() {
    let c = RequestContext::new(12);
    let expected = vec![
        Action::Shutdown { fd: 12 },
        Action::RemoveInterest { fd: 12 },
        Action::Close { fd: 12 },
    ];
    assert_eq!(c.write_cb(true), expected);
    assert_eq!(c.write_cb(false), expected);
    assert_eq!(teardown_actions(12), expected);
}

#[test]
fn teardown_leaves_the_queue_before_it_closes() {
    let actions = teardown_actions(5);
    let removed = actions.iter().position(|a| *a == Action::RemoveInterest { fd: 5 });
    let closed = actions.iter().position(|a| *a == Action::Close { fd: 5 });
    assert!(removed.is_some() && closed.is_some());
    assert!(removed < closed);
    assert_eq!(actions.iter().filter(|a| matches!(a, Action::Close { .. })).count(), 1);
    assert_eq!(actions.iter().filter(|a| matches!(a, Action::RemoveInterest { .. })).count(), 1);
}

#[test]
fn only_reactor_operations_must_succeed() {
    let event = listener_read_event(101);
    assert!(Action::SetNonblocking { fd: 1 }.must_succeed());
    assert!(Action::AddInterest { fd: 1, event }.must_succeed());
    assert!(Action::ModifyInterest { fd: 1, event }.must_succeed());
    assert!(!Action::RemoveInterest { fd: 1 }.must_succeed());
    assert!(!Action::Shutdown { fd: 1 }.must_succeed());
    assert!(!Action::Close { fd: 1 }.must_succeed());
}

#[test]
fn actions_name_their_descriptor() {
    let event = listener_write_event(101);
    assert_eq!(Action::SetNonblocking { fd: 1 }.fd(), 1);
    assert_eq!(Action::AddInterest { fd: 2, event }.fd(), 2);
    assert_eq!(Action::ModifyInterest { fd: 3, event }.fd(), 3);
    assert_eq!(Action::RemoveInterest { fd: 4 }.fd(), 4);
    assert_eq!(Action::Shutdown { fd: 5 }.fd(), 5);
    assert_eq!(Action::Close { fd: -1 }.fd(), -1);
}
