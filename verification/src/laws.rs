//! What holds of every run of the dispatcher, proved from the definition of
//! one step.

use vstd::prelude::*;
use crate::action::{teardown, Action};
use crate::connection::{
    expected_length, fresh, read_step, ConnectionError, ConnectionView, ReadOutcome, SCRATCH_LEN,
};
use crate::dispatch::{
    has_free_key, initial, lemma_step_preserves, route_of, startup, step, well_formed,
    DispatcherView, Event, Route,
};
use crate::interest::{
    event_for, flags_of, lemma_flags_arm_exactly_one, readable, writable, Interest, LISTENER_KEY,
    READ_FLAGS,
};

verus! {

/// The state after `events`, handled one after the other from `s`.
pub open spec fn run(s: DispatcherView, events: Seq<Event>) -> DispatcherView
    decreases events.len(),
{
    if events.len() == 0 {
        s
    } else {
        step(run(s, events.drop_last()), events.last()).0
    }
}

/// The key that `event` gives to a new connection in state `s`, if it gives
/// one.
pub open spec fn key_given(s: DispatcherView, event: Event) -> Option<u64> {
    match event {
        Event::Accepted(Some(_)) => if has_free_key(s) {
            Some((s.last_key + 1) as u64)
        } else {
            None
        },
        _ => None,
    }
}

/// The keys given out while `events` are handled from `s`, in the order in
/// which they were given.
pub open spec fn keys_given(s: DispatcherView, events: Seq<Event>) -> Seq<u64>
    decreases events.len(),
{
    if events.len() == 0 {
        Seq::empty()
    } else {
        let before = keys_given(s, events.drop_last());
        match key_given(run(s, events.drop_last()), events.last()) {
            Some(key) => before.push(key),
            None => before,
        }
    }
}

/// Whether `key` was given out at some time and names no live connection
/// now.
pub open spec fn is_spent(s: DispatcherView, key: u64) -> bool {
    !s.table.contains_key(key) && key <= s.last_key
}

/// The key of the connection that `event` reports on, if it reports on one.
pub open spec fn subject(event: Event) -> Option<u64> {
    match event {
        Event::Accepted(_) => None,
        Event::Read { key, .. } => Some(key),
        Event::Written { key, .. } => Some(key),
    }
}

/// Whether `event` reports on the connection `key`.
pub open spec fn concerns(event: Event, key: u64) -> bool {
    subject(event) == Some(key)
}

/// Whether `event` ends the live connection `key` in state `s`: its
/// response was written or could not be, or a read on it met an error.
pub open spec fn ends_session(s: DispatcherView, event: Event, key: u64) -> bool {
    s.table.contains_key(key) && match event {
        Event::Accepted(_) => false,
        Event::Read { key: k, outcome } => k == key && read_step(s.table[key], outcome).1 is Err,
        Event::Written { key: k, .. } => k == key,
    }
}

/// How many of `events`, handled from `s`, end the connection `key`.
pub open spec fn sessions_ended(s: DispatcherView, events: Seq<Event>, key: u64) -> nat
    decreases events.len(),
{
    if events.len() == 0 {
        0
    } else {
        let before = sessions_ended(s, events.drop_last(), key);
        if ends_session(run(s, events.drop_last()), events.last(), key) {
            before + 1
        } else {
            before
        }
    }
}

/// The connection after the successful reads that filled `chunks`, one
/// after the other.
pub open spec fn after_reads(c: ConnectionView, chunks: Seq<[u8; SCRATCH_LEN]>) -> ConnectionView
    decreases chunks.len(),
{
    if chunks.len() == 0 {
        c
    } else {
        read_step(after_reads(c, chunks.drop_last()), ReadOutcome::Data(chunks.last())).0
    }
}

/// Every action that handling `events` from `s` calls for, in order.
pub open spec fn effects(s: DispatcherView, events: Seq<Event>) -> Seq<Action>
    decreases events.len(),
{
    if events.len() == 0 {
        Seq::empty()
    } else {
        effects(s, events.drop_last()) + step(run(s, events.drop_last()), events.last()).1
    }
}

/// The flags that `action` arms for the registration known as `key`, if it
/// arms that registration.
pub open spec fn armed_by(action: Action, key: u64) -> Option<u32> {
    match action {
        Action::AddInterest { event, .. } => if event.key == key {
            Some(event.events)
        } else {
            None
        },
        Action::ModifyInterest { event, .. } => if event.key == key {
            Some(event.events)
        } else {
            None
        },
        _ => None,
    }
}

/// The flags that the last of `actions` to arm `key` has armed it with.
pub open spec fn last_armed(actions: Seq<Action>, key: u64) -> Option<u32>
    decreases actions.len(),
{
    if actions.len() == 0 {
        None
    } else {
        match armed_by(actions.last(), key) {
            Some(flags) => Some(flags),
            None => last_armed(actions.drop_last(), key),
        }
    }
}

/// How many of `actions` are of the kind that `wanted` picks.
pub open spec fn count(actions: Seq<Action>, wanted: spec_fn(Action) -> bool) -> nat
    decreases actions.len(),
{
    if actions.len() == 0 {
        0
    } else if wanted(actions.last()) {
        count(actions.drop_last(), wanted) + 1
    } else {
        count(actions.drop_last(), wanted)
    }
}

/// How many of `actions` register a socket with the readiness queue.
pub open spec fn registrations(actions: Seq<Action>) -> nat {
    count(actions, |a: Action| a is AddInterest)
}

/// How many of `actions` take a socket out of the readiness queue.
pub open spec fn removals(actions: Seq<Action>) -> nat {
    count(actions, |a: Action| a is RemoveInterest)
}

/// How many of `actions` close a socket.
pub open spec fn closes(actions: Seq<Action>) -> nat {
    count(actions, |a: Action| a is Close)
}

/// A run keeps the state well-formed, never takes back a key, and keeps
/// the listening socket.
pub proof fn lemma_run_preserves(s: DispatcherView, events: Seq<Event>)
    requires
        well_formed(s),
    ensures
        well_formed(run(s, events)),
        run(s, events).last_key >= s.last_key,
        run(s, events).listener_fd == s.listener_fd,
    decreases events.len(),
{
    if events.len() > 0 {
        lemma_run_preserves(s, events.drop_last());
    }
}

/// A key that was given out and names no live connection never names one
/// again.
pub proof fn lemma_spent_key_stays_spent(s: DispatcherView, events: Seq<Event>, key: u64)
    requires
        well_formed(s),
        is_spent(s, key),
    ensures
        is_spent(run(s, events), key),
    decreases events.len(),
{
    if events.len() > 0 {
        lemma_spent_key_stays_spent(s, events.drop_last(), key);
        lemma_run_preserves(s, events.drop_last());
    }
}

/// Keys are given out in strictly increasing order. Each lies above every
/// key given before it, above the keys of all connections that were live
/// before the run, and above the listener's key; none is given twice.
pub proof fn law_keys_strictly_increase(s: DispatcherView, events: Seq<Event>)
    requires
        well_formed(s),
    ensures
        forall|i: int, j: int|
            0 <= i < j < keys_given(s, events).len() ==> keys_given(s, events)[i] < keys_given(
                s,
                events,
            )[j],
        forall|i: int|
            0 <= i < keys_given(s, events).len() ==> {
                &&& LISTENER_KEY < #[trigger] keys_given(s, events)[i]
                &&& s.last_key < keys_given(s, events)[i] <= run(s, events).last_key
                &&& !s.table.contains_key(keys_given(s, events)[i])
            },
    decreases events.len(),
{
    if events.len() > 0 {
        let before = events.drop_last();
        let earlier = keys_given(s, before);
        let all = keys_given(s, events);
        law_keys_strictly_increase(s, before);
        lemma_run_preserves(s, before);
        lemma_step_preserves(run(s, before), events.last());
        assert forall|i: int| 0 <= i < earlier.len() implies all[i] == earlier[i] by {}
        assert forall|i: int| 0 <= i < all.len() implies {
            &&& LISTENER_KEY < #[trigger] all[i]
            &&& s.last_key < all[i] <= run(s, events).last_key
            &&& !s.table.contains_key(all[i])
        } by {
            if i < earlier.len() {
                assert(all[i] == earlier[i]);
            }
        }
        assert forall|i: int, j: int| 0 <= i < j < all.len() implies all[i] < all[j] by {
            assert(all[i] == earlier[i]);
            if j < earlier.len() {
                assert(all[j] == earlier[j]);
            }
        }
    }
}

/// The key that an accepted socket gets names no live connection, is not
/// the listener's key, and lies above every key given out before. The new
/// connection starts with nothing received and is armed for reading.
pub proof fn law_new_key_is_fresh(s: DispatcherView, fd: i32)
    requires
        well_formed(s),
        has_free_key(s),
    ensures
        key_given(s, Event::Accepted(Some(fd))) matches Some(key) && {
            &&& key != LISTENER_KEY
            &&& key > s.last_key
            &&& !s.table.contains_key(key)
            &&& step(s, Event::Accepted(Some(fd))).0.table == s.table.insert(key, fresh(fd))
            &&& step(s, Event::Accepted(Some(fd))).1[1] == (Action::AddInterest {
                fd,
                event: event_for(Interest::Read, key),
            })
        },
{
}

/// Whatever an accept gave, the listening socket is armed again as the last
/// action, for reading and under its own key; a failed accept changes
/// nothing else.
pub proof fn law_listener_is_rearmed(s: DispatcherView, accepted: Option<i32>)
    ensures
        step(s, Event::Accepted(accepted)).1.last() == (Action::ModifyInterest {
            fd: s.listener_fd,
            event: event_for(Interest::Read, LISTENER_KEY),
        }),
        accepted is None ==> step(s, Event::Accepted(accepted)).0 == s && step(
            s,
            Event::Accepted(accepted),
        ).1.len() == 1,
{
}

/// An event for a key that names no live connection changes nothing, calls
/// for no action, and is routed nowhere.
pub proof fn law_stale_event_is_ignored(
    s: DispatcherView,
    key: u64,
    events: u32,
    outcome: ReadOutcome,
    sent: bool,
)
    requires
        !s.table.contains_key(key),
    ensures
        key != LISTENER_KEY ==> route_of(s, key, events) == Route::Stale,
        step(s, (Event::Read { key, outcome })) == (s, Seq::<Action>::empty()),
        step(s, (Event::Written { key, sent })) == (s, Seq::<Action>::empty()),
{
}

/// The end of a session is final. The event that ends the live connection
/// `key` calls for exactly the teardown of its socket: shut down, out of
/// the readiness queue, closed, in this order and each once. The connection
/// has left the table, and whatever is handled later, its key names no
/// connection again: no event is routed to it, and an event that still
/// reports on it changes nothing and calls for no action.
pub proof fn law_session_end_is_final(
    s: DispatcherView,
    event: Event,
    key: u64,
    later: Seq<Event>,
    late: Event,
    events: u32,
)
    requires
        well_formed(s),
        ends_session(s, event, key),
        concerns(late, key),
    ensures
        step(s, event).1 == teardown(s.table[key].fd),
        step(s, event).0.table == s.table.remove(key),
        !run(step(s, event).0, later).table.contains_key(key),
        route_of(run(step(s, event).0, later), key, events) == Route::Stale,
        step(run(step(s, event).0, later), late) == (
            run(step(s, event).0, later),
            Seq::<Action>::empty(),
        ),
{
    let ended = step(s, event).0;
    assert(is_spent(ended, key));
    lemma_spent_key_stays_spent(ended, later, key);
}

/// No run ends the same connection twice: its response is written at most
/// once and its socket is taken down at most once.
pub proof fn law_session_ends_at_most_once(s: DispatcherView, events: Seq<Event>, key: u64)
    requires
        well_formed(s),
    ensures
        sessions_ended(s, events, key) <= 1,
        sessions_ended(s, events, key) == 1 ==> is_spent(run(s, events), key),
    decreases events.len(),
{
    if events.len() > 0 {
        let before = events.drop_last();
        law_session_ends_at_most_once(s, before, key);
        lemma_run_preserves(s, before);
        if sessions_ended(s, before, key) == 1 {
            lemma_spent_key_stays_spent(run(s, before), seq![events.last()], key);
            assert(seq![events.last()].drop_last() =~= Seq::<Event>::empty());
        }
    }
}

/// The table and the readiness queue move together. A step that enters a
/// connection in the table registers its socket under its key, and no other
/// step registers anything; a step that takes a connection out of the table
/// takes its socket out of the queue, and no other step takes anything out.
pub proof fn law_registered_while_in_table(s: DispatcherView, event: Event)
    requires
        well_formed(s),
    ensures
        forall|key: u64|
            !s.table.contains_key(key) && #[trigger] step(s, event).0.table.contains_key(key) ==> {
                &&& key_given(s, event) == Some(key)
                &&& step(s, event).1.contains(
                    (Action::AddInterest {
                        fd: step(s, event).0.table[key].fd,
                        event: event_for(Interest::Read, key),
                    }),
                )
            },
        forall|key: u64|
            #[trigger] s.table.contains_key(key) && !step(s, event).0.table.contains_key(key) ==> {
                &&& ends_session(s, event, key)
                &&& step(s, event).1.contains((Action::RemoveInterest { fd: s.table[key].fd }))
            },
        forall|i: int|
            0 <= i < step(s, event).1.len() && #[trigger] step(s, event).1[i] is AddInterest ==> {
                &&& key_given(s, event) matches Some(key)
                &&& !s.table.contains_key(key)
                &&& step(s, event).0.table.contains_key(key)
                &&& step(s, event).1[i] == (Action::AddInterest {
                    fd: step(s, event).0.table[key].fd,
                    event: event_for(Interest::Read, key),
                })
            },
        forall|i: int|
            0 <= i < step(s, event).1.len() && #[trigger] step(s, event).1[i] is RemoveInterest
                ==> {
                &&& subject(event) matches Some(key)
                &&& ends_session(s, event, key)
                &&& !step(s, event).0.table.contains_key(key)
                &&& step(s, event).1[i] == (Action::RemoveInterest { fd: s.table[key].fd })
            },
{
    let actions = step(s, event).1;
    assert forall|key: u64|
        !s.table.contains_key(key) && #[trigger] step(s, event).0.table.contains_key(
            key,
        ) implies actions.contains(
        (Action::AddInterest {
            fd: step(s, event).0.table[key].fd,
            event: event_for(Interest::Read, key),
        }),
    ) by {
        assert(actions[1] == (Action::AddInterest {
            fd: step(s, event).0.table[key].fd,
            event: event_for(Interest::Read, key),
        }));
    }
    assert forall|key: u64|
        #[trigger] s.table.contains_key(key) && !step(s, event).0.table.contains_key(
            key,
        ) implies actions.contains((Action::RemoveInterest { fd: s.table[key].fd })) by {
        assert(actions[1] == (Action::RemoveInterest { fd: s.table[key].fd }));
    }
}

/// A connection that stays live through an event that reports on it is
/// armed by that event for exactly one interest, read or write, one-shot:
/// the one that its state records.
pub proof fn law_live_connection_is_armed(s: DispatcherView, event: Event, key: u64)
    requires
        well_formed(s),
        s.table.contains_key(key),
        concerns(event, key),
        step(s, event).0.table.contains_key(key),
    ensures
        step(s, event).1 == seq![
            (Action::ModifyInterest {
                fd: s.table[key].fd,
                event: event_for(step(s, event).0.table[key].interest, key),
            }),
        ],
        readable(flags_of(step(s, event).0.table[key].interest)) != writable(
            flags_of(step(s, event).0.table[key].interest),
        ),
{
    lemma_flags_arm_exactly_one(step(s, event).0.table[key].interest);
}

/// In a list of actions put together from two, the second list decides
/// what was armed last, and the first where the second arms nothing.
pub proof fn lemma_last_armed_concat(first: Seq<Action>, second: Seq<Action>, key: u64)
    ensures
        last_armed(first + second, key) == match last_armed(second, key) {
            Some(flags) => Some(flags),
            None => last_armed(first, key),
        },
    decreases second.len(),
{
    if second.len() == 0 {
        assert(first + second =~= first);
    } else {
        assert((first + second).drop_last() =~= first + second.drop_last());
        lemma_last_armed_concat(first, second.drop_last(), key);
    }
}

/// What the actions of one step arm for the connection `key`: its recorded
/// interest if the step entered it in the table or reported on it and left
/// it live, and nothing if the step left it as it was.
proof fn lemma_step_arms(s: DispatcherView, event: Event, key: u64)
    requires
        well_formed(s),
        step(s, event).0.table.contains_key(key),
    ensures
        last_armed(step(s, event).1, key) == if s.table.contains_key(key) && !concerns(event, key) {
            None
        } else {
            Some(flags_of(step(s, event).0.table[key].interest))
        },
{
    let actions = step(s, event).1;
    reveal_with_fuel(last_armed, 4);
    if actions.len() == 3 {
        assert(actions.drop_last().drop_last().drop_last() =~= Seq::<Action>::empty());
    } else if actions.len() == 2 {
        assert(actions.drop_last().drop_last() =~= Seq::<Action>::empty());
    } else if actions.len() == 1 {
        assert(actions.drop_last() =~= Seq::<Action>::empty());
    }
}

/// The interest that the state records for a live connection is the one
/// that the last action to arm its key has armed, and that is exactly one
/// of read and write, one-shot. This holds from the start of the loop on,
/// whatever events were handled.
pub proof fn law_recorded_interest_is_armed(listener_fd: i32, events: Seq<Event>, key: u64)
    requires
        run(initial(listener_fd), events).table.contains_key(key),
    ensures
        last_armed(effects(initial(listener_fd), events), key) == Some(
            flags_of(run(initial(listener_fd), events).table[key].interest),
        ),
        readable(flags_of(run(initial(listener_fd), events).table[key].interest)) != writable(
            flags_of(run(initial(listener_fd), events).table[key].interest),
        ),
    decreases events.len(),
{
    let s = initial(listener_fd);
    lemma_flags_arm_exactly_one(run(s, events).table[key].interest);
    if events.len() > 0 {
        let before = events.drop_last();
        let mid = run(s, before);
        lemma_run_preserves(s, before);
        lemma_step_arms(mid, events.last(), key);
        lemma_last_armed_concat(effects(s, before), step(mid, events.last()).1, key);
        if mid.table.contains_key(key) {
            law_recorded_interest_is_armed(listener_fd, before, key);
        }
    }
}

/// What the actions of one step arm for the listening socket: reading
/// after an accept, and nothing otherwise.
proof fn lemma_step_arms_listener(s: DispatcherView, event: Event)
    requires
        well_formed(s),
    ensures
        last_armed(step(s, event).1, LISTENER_KEY) == if event is Accepted {
            Some(READ_FLAGS)
        } else {
            None
        },
{
    let actions = step(s, event).1;
    reveal_with_fuel(last_armed, 4);
    if actions.len() == 3 {
        assert(actions.drop_last().drop_last().drop_last() =~= Seq::<Action>::empty());
    } else if actions.len() == 2 {
        assert(actions.drop_last().drop_last() =~= Seq::<Action>::empty());
    } else if actions.len() == 1 {
        assert(actions.drop_last() =~= Seq::<Action>::empty());
    }
}

/// The listening socket is armed for reading, one-shot, from the start of
/// the loop on and after whatever events were handled.
pub proof fn law_listener_stays_armed(listener_fd: i32, events: Seq<Event>)
    ensures
        last_armed(
            seq![startup(initial(listener_fd))] + effects(initial(listener_fd), events),
            LISTENER_KEY,
        ) == Some(READ_FLAGS),
    decreases events.len(),
{
    let s = initial(listener_fd);
    let start = seq![startup(s)];
    if events.len() == 0 {
        assert(start + effects(s, events) =~= start);
        assert(start.drop_last() =~= Seq::<Action>::empty());
    } else {
        let before = events.drop_last();
        let actions = step(run(s, before), events.last()).1;
        law_listener_stays_armed(listener_fd, before);
        lemma_run_preserves(s, before);
        lemma_step_arms_listener(run(s, before), events.last());
        lemma_last_armed_concat(start + effects(s, before), actions, LISTENER_KEY);
        assert(start + effects(s, events) =~= (start + effects(s, before)) + actions);
    }
}

/// Counting in a list put together from two is counting in both.
pub proof fn lemma_count_concat(
    first: Seq<Action>,
    second: Seq<Action>,
    wanted: spec_fn(Action) -> bool,
)
    ensures
        count(first + second, wanted) == count(first, wanted) + count(second, wanted),
    decreases second.len(),
{
    if second.len() == 0 {
        assert(first + second =~= first);
    } else {
        assert((first + second).drop_last() =~= first + second.drop_last());
        lemma_count_concat(first, second.drop_last(), wanted);
    }
}

/// What one step adds to the counts: it registers a socket exactly when a
/// connection enters the table, and it takes a socket out of the queue and
/// closes it exactly when a connection leaves the table. The one close
/// without a removal is that of a socket for which no key was left.
proof fn lemma_step_counts(s: DispatcherView, event: Event)
    requires
        well_formed(s),
    ensures
        registrations(step(s, event).1) + s.table.len() == removals(step(s, event).1) + step(
            s,
            event,
        ).0.table.len(),
        closes(step(s, event).1) == removals(step(s, event).1) + if event is Accepted
            && event->Accepted_0 is Some && !has_free_key(s) {
            1nat
        } else {
            0nat
        },
        removals(step(s, event).1) <= 1,
{
    let actions = step(s, event).1;
    reveal_with_fuel(count, 4);
    if actions.len() == 3 {
        assert(actions.drop_last().drop_last().drop_last() =~= Seq::<Action>::empty());
    } else if actions.len() == 2 {
        assert(actions.drop_last().drop_last() =~= Seq::<Action>::empty());
    } else if actions.len() == 1 {
        assert(actions.drop_last() =~= Seq::<Action>::empty());
    }
    match event {
        Event::Accepted(Some(fd)) => {
            if has_free_key(s) {
                vstd::set::axiom_set_insert_len(s.table.dom(), (s.last_key + 1) as u64);
            }
        },
        Event::Accepted(None) => {},
        Event::Read { key, outcome } => {
            vstd::set::axiom_set_insert_len(s.table.dom(), key);
            vstd::set::axiom_set_remove_len(s.table.dom(), key);
        },
        Event::Written { key, sent } => {
            vstd::set::axiom_set_remove_len(s.table.dom(), key);
        },
    }
}

/// No socket is lost and none is closed twice. From the start of the loop
/// on, whatever events were handled: every socket that was registered is
/// either that of a live connection or was taken out of the queue again;
/// whatever was taken out of the queue was closed; and as long as a key is
/// left to give out, nothing else was closed.
pub proof fn law_sockets_are_conserved(listener_fd: i32, events: Seq<Event>)
    ensures
        registrations(effects(initial(listener_fd), events)) == removals(
            effects(initial(listener_fd), events),
        ) + run(initial(listener_fd), events).table.len(),
        removals(effects(initial(listener_fd), events)) <= closes(
            effects(initial(listener_fd), events),
        ),
        has_free_key(run(initial(listener_fd), events)) ==> closes(
            effects(initial(listener_fd), events),
        ) == removals(effects(initial(listener_fd), events)),
    decreases events.len(),
{
    let s = initial(listener_fd);
    if events.len() > 0 {
        let before = events.drop_last();
        let actions = step(run(s, before), events.last()).1;
        law_sockets_are_conserved(listener_fd, before);
        lemma_run_preserves(s, before);
        lemma_step_preserves(run(s, before), events.last());
        lemma_step_counts(run(s, before), events.last());
        lemma_count_concat(effects(s, before), actions, |a: Action| a is AddInterest);
        lemma_count_concat(effects(s, before), actions, |a: Action| a is RemoveInterest);
        lemma_count_concat(effects(s, before), actions, |a: Action| a is Close);
    }
}

/// An event leaves every connection that it does not report on as it was.
pub proof fn law_other_connections_untouched(s: DispatcherView, event: Event, other: u64)
    requires
        well_formed(s),
        s.table.contains_key(other),
        !concerns(event, other),
    ensures
        step(s, event).0.table.contains_key(other),
        step(s, event).0.table[other] == s.table[other],
{
}

/// After a successful read the connection is armed for writing exactly
/// when it has received at least as many bytes as it expects, and for
/// reading otherwise.
pub proof fn law_completion_policy(c: ConnectionView, scratch: [u8; SCRATCH_LEN])
    requires
        read_step(c, ReadOutcome::Data(scratch)).1 is Ok,
    ensures
        ({
            let after = read_step(c, ReadOutcome::Data(scratch)).0;
            &&& after.buf == c.buf + scratch@
            &&& after.interest == Interest::Write <==> after.buf.len() >= expected_length(after)
            &&& after.interest == Interest::Read <==> after.buf.len() < expected_length(after)
            &&& read_step(c, ReadOutcome::Data(scratch)).1 == Ok::<Interest, ConnectionError>(
                after.interest,
            )
        }),
{
}

/// The completion boundary. Let the length be known from the first of
/// `chunks.len()` successful reads on, and let the bytes received reach the
/// expected length exactly with the last of them. Then the connection stays
/// armed for reading after every earlier read and is armed for writing
/// after the last: not one read sooner, not one later.
pub proof fn law_completion_boundary(
    c: ConnectionView,
    chunks: Seq<[u8; SCRATCH_LEN]>,
    length: usize,
)
    requires
        chunks.len() >= 1,
        read_step(c, ReadOutcome::Data(chunks[0])).1 is Ok,
        read_step(c, ReadOutcome::Data(chunks[0])).0.length == Some(length),
        c.buf.len() + chunks.len() * SCRATCH_LEN == length,
    ensures
        forall|n: int|
            1 <= n < chunks.len() ==> (#[trigger] after_reads(c, chunks.take(n))).interest
                == Interest::Read,
        after_reads(c, chunks).interest == Interest::Write,
        after_reads(c, chunks).buf.len() == length,
{
    assert forall|n: int| 1 <= n <= chunks.len() implies {
        let after = #[trigger] after_reads(c, chunks.take(n));
        &&& after.length == Some(length)
        &&& after.buf.len() == c.buf.len() + n * SCRATCH_LEN
        &&& after.interest == if n == chunks.len() {
            Interest::Write
        } else {
            Interest::Read
        }
    } by {
        lemma_reads_accumulate(c, chunks, length, n);
    }
    assert(chunks.take(chunks.len() as int) =~= chunks);
}

/// Under the conditions of the completion boundary: the state after the
/// first `n` reads.
proof fn lemma_reads_accumulate(
    c: ConnectionView,
    chunks: Seq<[u8; SCRATCH_LEN]>,
    length: usize,
    n: int,
)
    requires
        1 <= n <= chunks.len(),
        read_step(c, ReadOutcome::Data(chunks[0])).1 is Ok,
        read_step(c, ReadOutcome::Data(chunks[0])).0.length == Some(length),
        c.buf.len() + chunks.len() * SCRATCH_LEN == length,
    ensures
        after_reads(c, chunks.take(n)).length == Some(length),
        after_reads(c, chunks.take(n)).buf.len() == c.buf.len() + n * SCRATCH_LEN,
        after_reads(c, chunks.take(n)).interest == if n == chunks.len() {
            Interest::Write
        } else {
            Interest::Read
        },
    decreases n,
{
    let prefix = chunks.take(n);
    assert(prefix.drop_last() =~= chunks.take(n - 1));
    assert(prefix.last() == chunks[n - 1]);
    if n == 1 {
        assert(after_reads(c, chunks.take(0)) == c);
    } else {
        lemma_reads_accumulate(c, chunks, length, n - 1);
    }
}

} // verus!
