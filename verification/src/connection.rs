//! One accepted client session: its socket, the bytes received from it, the
//! length that its request claims, and the interest that is armed for it.
//!
//! A connection is `Reading` while its read interest is armed and ready to
//! answer once its write interest is armed. A closed connection does not
//! exist: it has left the table.

use vstd::prelude::*;
use crate::action::{teardown, teardown_actions, Action};
use crate::framer::{frame, frame_bytes, frame_text, parse_content_length, Framing};
use crate::interest::{arm, event_for, Interest};
use vstd::string::StringSliceAdditionalSpecFns;

verus! {

/// The size of the buffer that one read fills.
pub const SCRATCH_LEN: usize = 1024;

/// How one non-blocking read on a connection's socket ended.
#[derive(Clone, Copy, Debug)]
pub enum ReadOutcome {
    /// The read succeeded. The buffer is handed over whole, however many
    /// bytes the read put into it; the rest of it holds zeroes.
    Data([u8; SCRATCH_LEN]),
    /// Nothing can be read right now.
    WouldBlock,
    /// The read failed for any other reason.
    Failed,
}

/// Why a connection has to be taken down before it was answered.
#[derive(Clone, Copy, Debug, PartialEq, Eq, Structural)]
pub enum ConnectionError {
    /// A read failed, and not because it would block.
    ReadFailed,
    /// The request's length header does not hold a number.
    MalformedLength,
}

/// A connection as the contracts see it.
pub struct ConnectionView {
    /// The number of the socket's descriptor.
    pub fd: i32,
    /// Every byte taken in so far, in the order of arrival.
    pub buf: Seq<u8>,
    /// The length that the request claims, once a header has given one.
    pub length: Option<usize>,
    /// The interest that is armed.
    pub interest: Interest,
}

/// A session as it is when its socket has just been accepted.
pub open spec fn fresh(fd: i32) -> ConnectionView {
    ConnectionView { fd, buf: Seq::empty(), length: None, interest: Interest::Read }
}

/// The length that the request is expected to have: zero until a header has
/// said otherwise.
pub open spec fn expected_length(c: ConnectionView) -> usize {
    match c.length {
        Some(n) => n,
        None => 0,
    }
}

/// Whether enough has arrived to answer.
pub open spec fn is_complete(c: ConnectionView) -> bool {
    c.buf.len() >= expected_length(c)
}

/// The interest that the completion policy arms: write once enough has
/// arrived, read until then.
pub open spec fn next_interest(c: ConnectionView) -> Interest {
    if is_complete(c) {
        Interest::Write
    } else {
        Interest::Read
    }
}

/// The claimed length after the framer has seen `text`. A length that is
/// set stays; without one, the first header in `text` sets it, and a header
/// that holds no number is an error.
pub open spec fn framed_length(length: Option<usize>, found: Framing) -> Result<
    Option<usize>,
    ConnectionError,
> {
    if length is Some {
        Ok(length)
    } else {
        match found {
            Framing::Absent => Ok(None),
            Framing::Length(n) => Ok(Some(n)),
            Framing::Malformed => Err(ConnectionError::MalformedLength),
        }
    }
}

/// The connection after one read, and the answer of the read phase: the
/// interest to arm, or the error that ends the session.
///
/// A read that would block changes nothing, and the connection goes on
/// reading. A failed read ends the session. A successful read appends the
/// whole scratch buffer, lets the framer look at everything received unless
/// the length is known already, and then applies the completion policy.
pub open spec fn read_step(c: ConnectionView, outcome: ReadOutcome) -> (
    ConnectionView,
    Result<Interest, ConnectionError>,
) {
    match outcome {
        ReadOutcome::WouldBlock => (
            ConnectionView { interest: Interest::Read, ..c },
            Ok(Interest::Read),
        ),
        ReadOutcome::Failed => (c, Err(ConnectionError::ReadFailed)),
        ReadOutcome::Data(scratch) => {
            let grown = ConnectionView { buf: c.buf + scratch@, ..c };
            match framed_length(c.length, frame(grown.buf)) {
                Err(e) => (grown, Err(e)),
                Ok(length) => {
                    let framed = ConnectionView { length, ..grown };
                    (
                        ConnectionView { interest: next_interest(framed), ..framed },
                        Ok(next_interest(framed)),
                    )
                },
            }
        },
    }
}

/// One accepted client session.
#[derive(Debug)]
pub struct RequestContext {
    fd: i32,
    buf: Vec<u8>,
    length: Option<usize>,
    interest: Interest,
}

impl View for RequestContext {
    type V = ConnectionView;

    closed spec fn view(&self) -> ConnectionView {
        ConnectionView {
            fd: self.fd,
            buf: self.buf@,
            length: self.length,
            interest: self.interest,
        }
    }
}

impl RequestContext {
    /// The session of a socket that has just been accepted: nothing
    /// received, no length known, armed for reading.
    pub fn new(fd: i32) -> (context: RequestContext)
        ensures
            context@ == fresh(fd),
    {
        RequestContext { fd, buf: Vec::new(), length: None, interest: Interest::Read }
    }

    /// The number of the socket's descriptor.
    pub fn fd(&self) -> (fd: i32)
        ensures
            fd == self@.fd,
    {
        self.fd
    }

    /// Every byte taken in so far.
    pub fn buffered(&self) -> (bytes: &[u8])
        ensures
            bytes@ == self@.buf,
    {
        self.buf.as_slice()
    }

    /// The length that the request is expected to have.
    pub fn length(&self) -> (length: usize)
        ensures
            length == expected_length(self@),
    {
        match self.length {
            Some(n) => n,
            None => 0,
        }
    }

    /// Whether a header has given the length.
    pub fn has_length(&self) -> (known: bool)
        ensures
            known == self@.length is Some,
    {
        self.length.is_some()
    }

    /// The interest that is armed.
    pub fn interest(&self) -> (interest: Interest)
        ensures
            interest == self@.interest,
    {
        self.interest
    }

    /// Lets the framer look at `data` and takes the length that it finds.
    /// A length that is known already stays as it is, whatever `data` holds.
    pub fn parse_and_set_content_length(&mut self, data: &str) -> (res: Result<
        (),
        ConnectionError,
    >)
        ensures
            match framed_length(old(self)@.length, frame_text(data.spec_bytes())) {
                Ok(length) => res is Ok && final(self)@ == (ConnectionView {
                    length,
                    ..old(self)@
                }),
                Err(e) => res == Err::<(), ConnectionError>(e) && final(self)@ == old(self)@,
            },
    {
        if self.length.is_some() {
            return Ok(());
        }
        match parse_content_length(data) {
            Framing::Absent => Ok(()),
            Framing::Length(n) => {
                self.length = Some(n);
                Ok(())
            },
            Framing::Malformed => Err(ConnectionError::MalformedLength),
        }
    }

    /// The read phase, after one non-blocking read on the socket has ended
    /// as `outcome` says. Returns the arming that keeps the connection
    /// alive, to be carried out under `key`, or the error that ends it.
    pub fn read_cb(&mut self, key: u64, outcome: &ReadOutcome) -> (res: Result<
        Action,
        ConnectionError,
    >)
        ensures
            final(self)@ == read_step(old(self)@, *outcome).0,
            match read_step(old(self)@, *outcome).1 {
                Ok(interest) => res == Ok::<Action, ConnectionError>(
                    Action::ModifyInterest { fd: old(self)@.fd, event: event_for(interest, key) },
                ),
                Err(e) => res == Err::<Action, ConnectionError>(e),
            },
    {
        match outcome {
            ReadOutcome::WouldBlock => {
                self.interest = Interest::Read;
            },
            ReadOutcome::Failed => {
                return Err(ConnectionError::ReadFailed);
            },
            ReadOutcome::Data(scratch) => {
                let ghost before = self.buf@;
                self.buf.extend_from_slice(scratch.as_slice());
                assert(self.buf@ =~= before + scratch@);
                if self.length.is_none() {
                    match frame_bytes(self.buf.as_slice()) {
                        Framing::Absent => {},
                        Framing::Length(n) => {
                            self.length = Some(n);
                        },
                        Framing::Malformed => {
                            return Err(ConnectionError::MalformedLength);
                        },
                    }
                }
                let expected = match self.length {
                    Some(n) => n,
                    None => 0,
                };
                self.interest = if self.buf.len() >= expected {
                    Interest::Write
                } else {
                    Interest::Read
                };
            },
        }
        Ok(Action::ModifyInterest { fd: self.fd, event: arm(self.interest, key) })
    }

    /// The write phase, after the response has been written to the socket or
    /// the write has failed. Either way the session is over: the result is
    /// what takes the socket down.
    pub fn write_cb(&self, _sent: bool) -> (actions: Vec<Action>)
        ensures
            actions@ == teardown(self@.fd),
    {
        teardown_actions(self.fd)
    }
}

} // verus!
