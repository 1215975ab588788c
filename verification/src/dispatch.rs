//! The dispatch loop's decisions.
//!
//! The caller owns the readiness queue and the sockets. For every readiness
//! event it asks [`Dispatcher::route`] what to attempt, attempts it, and
//! reports how it ended as an [`Event`]. [`Dispatcher::handle`] moves the
//! state on and answers with the actions to carry out before the next event
//! is looked at.
//!
//! What a dispatcher does is defined once, over plain values, by
//! [`step`]; the executable functions are proved to compute it.

use vstd::prelude::*;
use crate::action::{teardown, teardown_actions, Action};
use crate::connection::{fresh, read_step, ConnectionView, ReadOutcome, RequestContext};
use crate::interest::{
    event_for, is_readable, is_writable, listener_read_event, readable, writable, Interest,
    LISTENER_KEY,
};
use crate::table::ConnectionTable;

verus! {

/// A dispatcher as the contracts see it.
pub struct DispatcherView {
    /// The descriptor of the listening socket.
    pub listener_fd: i32,
    /// The key given out last, or the listener's key if none was.
    pub last_key: u64,
    /// The live connections.
    pub table: Map<u64, ConnectionView>,
}

/// What a dispatcher's state always satisfies: the keys of live connections
/// lie above the listener's key and not above the key given out last.
pub open spec fn well_formed(s: DispatcherView) -> bool {
    &&& s.last_key >= LISTENER_KEY
    &&& s.table.dom().finite()
    &&& forall|k: u64| #[trigger] s.table.contains_key(k) ==> LISTENER_KEY < k <= s.last_key
}

/// A dispatcher that has accepted nothing yet.
pub open spec fn initial(listener_fd: i32) -> DispatcherView {
    DispatcherView { listener_fd, last_key: LISTENER_KEY, table: Map::empty() }
}

/// What a readiness event calls for.
#[derive(Clone, Copy, Debug, PartialEq, Eq, Structural)]
pub enum Route {
    /// The listening socket fired: accept one connection.
    Accept,
    /// A connection can be read: read once from `fd`, without blocking.
    Read { fd: i32 },
    /// A connection can be written: write the response to `fd`.
    Write { fd: i32 },
    /// The key names no live connection. The event is to be ignored.
    Stale,
    /// The connection is live, but the event reports neither kind of
    /// readiness. Nothing is attempted and nothing is armed: the
    /// registration that has fired stays disarmed.
    Unexpected,
}

/// Where an event with `key` and the flags `events` goes. Readiness to read
/// is looked at first.
pub open spec fn route_of(s: DispatcherView, key: u64, events: u32) -> Route {
    if key == LISTENER_KEY {
        Route::Accept
    } else if !s.table.contains_key(key) {
        Route::Stale
    } else if readable(events) {
        Route::Read { fd: s.table[key].fd }
    } else if writable(events) {
        Route::Write { fd: s.table[key].fd }
    } else {
        Route::Unexpected
    }
}

/// How the attempt that a route called for has ended.
#[derive(Clone, Copy, Debug)]
pub enum Event {
    /// An accept on the listening socket gave a new socket, or failed.
    Accepted(Option<i32>),
    /// A read on the connection `key` ended as `outcome` says.
    Read { key: u64, outcome: ReadOutcome },
    /// The response was written to the connection `key`, or the write failed.
    Written { key: u64, sent: bool },
}

/// Arms the listening socket for the next connection.
pub open spec fn rearm_listener(s: DispatcherView) -> Action {
    Action::ModifyInterest {
        fd: s.listener_fd,
        event: event_for(Interest::Read, LISTENER_KEY),
    }
}

/// What registers the listening socket when the loop starts.
pub open spec fn startup(s: DispatcherView) -> Action {
    Action::AddInterest { fd: s.listener_fd, event: event_for(Interest::Read, LISTENER_KEY) }
}

/// Whether a key is left to give out.
pub open spec fn has_free_key(s: DispatcherView) -> bool {
    s.last_key < u64::MAX
}

/// After an accept. A new socket gets the next key, is made non-blocking,
/// registered for reading and entered in the table. If no key is left, the
/// socket is closed at once instead. After a failed accept nothing changes.
/// In every case the listening socket is armed again.
pub open spec fn accept_step(s: DispatcherView, accepted: Option<i32>) -> (
    DispatcherView,
    Seq<Action>,
) {
    match accepted {
        None => (s, seq![rearm_listener(s)]),
        Some(fd) => if has_free_key(s) {
            let key = (s.last_key + 1) as u64;
            (
                DispatcherView { last_key: key, table: s.table.insert(key, fresh(fd)), ..s },
                seq![
                    Action::SetNonblocking { fd },
                    Action::AddInterest { fd, event: event_for(Interest::Read, key) },
                    rearm_listener(s),
                ],
            )
        } else {
            (s, seq![Action::Close { fd }, rearm_listener(s)])
        },
    }
}

/// After a read. A stale key changes nothing. A live connection goes
/// through its read phase: it stays, armed for exactly one interest, or it
/// has met an error and is taken down and out of the table.
pub open spec fn read_event_step(s: DispatcherView, key: u64, outcome: ReadOutcome) -> (
    DispatcherView,
    Seq<Action>,
) {
    if !s.table.contains_key(key) {
        (s, Seq::empty())
    } else {
        let fd = s.table[key].fd;
        let (after, res) = read_step(s.table[key], outcome);
        match res {
            Ok(interest) => (
                DispatcherView { table: s.table.insert(key, after), ..s },
                seq![Action::ModifyInterest { fd, event: event_for(interest, key) }],
            ),
            Err(_) => (DispatcherView { table: s.table.remove(key), ..s }, teardown(fd)),
        }
    }
}

/// After the response was written, or could not be. A stale key changes
/// nothing. A live connection is taken down and out of the table, whether or
/// not the write succeeded.
pub open spec fn written_step(s: DispatcherView, key: u64, sent: bool) -> (
    DispatcherView,
    Seq<Action>,
) {
    if !s.table.contains_key(key) {
        (s, Seq::empty())
    } else {
        (DispatcherView { table: s.table.remove(key), ..s }, teardown(s.table[key].fd))
    }
}

/// The state after `event`, and the actions that it calls for.
pub open spec fn step(s: DispatcherView, event: Event) -> (DispatcherView, Seq<Action>) {
    match event {
        Event::Accepted(accepted) => accept_step(s, accepted),
        Event::Read { key, outcome } => read_event_step(s, key, outcome),
        Event::Written { key, sent } => written_step(s, key, sent),
    }
}

/// Every step keeps the state well-formed and never takes back a key.
pub proof fn lemma_step_preserves(s: DispatcherView, event: Event)
    requires
        well_formed(s),
    ensures
        well_formed(step(s, event).0),
        step(s, event).0.last_key >= s.last_key,
        step(s, event).0.listener_fd == s.listener_fd,
{
}

/// The state of the dispatch loop: the listening socket, the key given out
/// last, and the table of live connections.
pub struct Dispatcher {
    listener_fd: i32,
    last_key: u64,
    table: ConnectionTable,
}

impl View for Dispatcher {
    type V = DispatcherView;

    closed spec fn view(&self) -> DispatcherView {
        DispatcherView {
            listener_fd: self.listener_fd,
            last_key: self.last_key,
            table: self.table@,
        }
    }
}

impl Dispatcher {
    /// Whether the state is one that a dispatcher can be in. It holds of a
    /// new dispatcher, and every function keeps it.
    pub open spec fn wf(&self) -> bool {
        well_formed(self@)
    }

    /// The dispatcher for the listening socket `listener_fd`, with no
    /// connection yet.
    pub fn new(listener_fd: i32) -> (dispatcher: Dispatcher)
        ensures
            dispatcher@ == initial(listener_fd),
            dispatcher.wf(),
    {
        Dispatcher { listener_fd, last_key: LISTENER_KEY, table: ConnectionTable::new() }
    }

    /// The registration of the listening socket, to be carried out once
    /// before the first wait.
    pub fn start(&self) -> (action: Action)
        ensures
            action == startup(self@),
    {
        Action::AddInterest { fd: self.listener_fd, event: listener_read_event(LISTENER_KEY) }
    }

    /// The descriptor of the listening socket.
    pub fn listener_fd(&self) -> (fd: i32)
        ensures
            fd == self@.listener_fd,
    {
        self.listener_fd
    }

    /// The key given out last, or the listener's key if none was.
    pub fn last_key(&self) -> (key: u64)
        ensures
            key == self@.last_key,
    {
        self.last_key
    }

    /// The table of live connections.
    pub fn connections(&self) -> (table: &ConnectionTable)
        ensures
            table@ == self@.table,
    {
        &self.table
    }

    /// What the readiness event with `key` and the flags `events` calls for.
    /// The state stays as it is.
    pub fn route(&self, key: u64, events: u32) -> (route: Route)
        ensures
            route == route_of(self@, key, events),
    {
        if key == LISTENER_KEY {
            return Route::Accept;
        }
        match self.table.get(key) {
            None => Route::Stale,
            Some(context) => {
                if is_readable(events) {
                    Route::Read { fd: context.fd() }
                } else if is_writable(events) {
                    Route::Write { fd: context.fd() }
                } else {
                    Route::Unexpected
                }
            },
        }
    }

    fn listener_rearm(&self) -> (action: Action)
        ensures
            action == rearm_listener(self@),
    {
        Action::ModifyInterest { fd: self.listener_fd, event: listener_read_event(LISTENER_KEY) }
    }

    /// The accept transition: takes in the socket that an accept gave, or
    /// notes that the accept failed, and arms the listening socket again.
    pub fn on_accept(&mut self, accepted: Option<i32>) -> (actions: Vec<Action>)
        requires
            old(self).wf(),
        ensures
            final(self).wf(),
            (final(self)@, actions@) == accept_step(old(self)@, accepted),
    {
        let mut actions: Vec<Action> = Vec::new();
        match accepted {
            None => {},
            Some(fd) => {
                if self.last_key < u64::MAX {
                    let key = self.last_key + 1;
                    // the key lies above every key in the table, so it is free
                    assert(!self.table@.contains_key(key));
                    let _ = self.table.insert(key, RequestContext::new(fd));
                    self.last_key = key;
                    actions.push(Action::SetNonblocking { fd });
                    actions.push(Action::AddInterest { fd, event: listener_read_event(key) });
                } else {
                    actions.push(Action::Close { fd });
                }
            },
        }
        actions.push(self.listener_rearm());
        assert(actions@ =~= accept_step(old(self)@, accepted).1);
        actions
    }

    /// The read phase of the connection `key`, after a read on its socket.
    pub fn on_read(&mut self, key: u64, outcome: &ReadOutcome) -> (actions: Vec<Action>)
        requires
            old(self).wf(),
        ensures
            final(self).wf(),
            (final(self)@, actions@) == read_event_step(old(self)@, key, *outcome),
    {
        let (fd, res) = match self.table.get_mut(key) {
            None => {
                return Vec::new();
            },
            Some(context) => (context.fd(), context.read_cb(key, outcome)),
        };
        match res {
            Ok(action) => {
                let mut actions: Vec<Action> = Vec::new();
                actions.push(action);
                assert(actions@ =~= read_event_step(old(self)@, key, *outcome).1);
                actions
            },
            Err(_) => {
                self.table.remove(key);
                assert(self@.table =~= old(self)@.table.remove(key));
                teardown_actions(fd)
            },
        }
    }

    /// The write phase of the connection `key`, after the response was
    /// written to its socket or the write failed.
    pub fn on_write(&mut self, key: u64, sent: bool) -> (actions: Vec<Action>)
        requires
            old(self).wf(),
        ensures
            final(self).wf(),
            (final(self)@, actions@) == written_step(old(self)@, key, sent),
    {
        match self.table.remove(key) {
            None => {
                assert(self@.table =~= old(self)@.table);
                Vec::new()
            },
            Some(context) => context.write_cb(sent),
        }
    }

    /// Moves the state on by one event and answers with the actions to
    /// carry out, in order, before the next event.
    pub fn handle(&mut self, event: &Event) -> (actions: Vec<Action>)
        requires
            old(self).wf(),
        ensures
            final(self).wf(),
            (final(self)@, actions@) == step(old(self)@, *event),
    {
        match event {
            Event::Accepted(accepted) => self.on_accept(*accepted),
            Event::Read { key, outcome } => self.on_read(*key, outcome),
            Event::Written { key, sent } => self.on_write(*key, *sent),
        }
    }
}

} // verus!
