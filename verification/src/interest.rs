//! What a descriptor is registered for, and what a readiness event reports.
//!
//! Every registration is one-shot: once it has fired it is disarmed, and it
//! fires again only after it has been armed anew.

use vstd::prelude::*;

verus! {

/// The key under which the listening socket is registered. No connection
/// ever gets it.
pub const LISTENER_KEY: u64 = 100;

/// The bit that reports, and asks for, readiness to read.
pub const READ_BIT: u32 = 0x1;

/// The bit that reports, and asks for, readiness to write.
pub const WRITE_BIT: u32 = 0x4;

/// The bit that makes a registration one-shot.
pub const ONESHOT_BIT: u32 = 0x4000_0000;

/// The flags of a one-shot registration for reading.
pub const READ_FLAGS: u32 = 0x4000_0001;

/// The flags of a one-shot registration for writing.
pub const WRITE_FLAGS: u32 = 0x4000_0004;

/// The one kind of readiness that a descriptor waits for.
#[derive(Clone, Copy, Debug, PartialEq, Eq, Structural)]
pub enum Interest {
    Read,
    Write,
}

/// What is handed to the readiness queue with a descriptor: the flags to
/// wait for and the key that its events will carry.
#[derive(Clone, Copy, Debug, PartialEq, Eq, Structural)]
pub struct EpollEvent {
    pub events: u32,
    pub key: u64,
}

/// The flags that arm `interest`, one-shot.
pub open spec fn flags_of(interest: Interest) -> u32 {
    match interest {
        Interest::Read => READ_FLAGS,
        Interest::Write => WRITE_FLAGS,
    }
}

/// The registration that arms `interest` for the descriptor known as `key`.
pub open spec fn event_for(interest: Interest, key: u64) -> EpollEvent {
    EpollEvent { events: flags_of(interest), key }
}

/// Whether the reported `events` say that the descriptor can be read.
pub open spec fn readable(events: u32) -> bool {
    events & READ_BIT == READ_BIT
}

/// Whether the reported `events` say that the descriptor can be written.
pub open spec fn writable(events: u32) -> bool {
    events & WRITE_BIT == WRITE_BIT
}

/// `libc::EPOLLIN`: the platform's bit for readiness to read, which is 1.
#[verifier::external_body]
fn epoll_in() -> (bit: i32)
    ensures
        bit == 0x1,
{
    libc::EPOLLIN
}

/// `libc::EPOLLOUT`: the platform's bit for readiness to write, which is 4.
#[verifier::external_body]
fn epoll_out() -> (bit: i32)
    ensures
        bit == 0x4,
{
    libc::EPOLLOUT
}

/// `libc::EPOLLONESHOT`: the platform's bit for a registration that is
/// disarmed once it has fired, which is bit 30.
#[verifier::external_body]
fn epoll_oneshot() -> (bit: i32)
    ensures
        bit == 0x4000_0000,
{
    libc::EPOLLONESHOT
}

/// The flags of a one-shot registration for reading, as the platform has them.
pub fn read_flags() -> (flags: u32)
    ensures
        flags == READ_FLAGS,
        flags == ONESHOT_BIT | READ_BIT,
{
    assert(0x4000_0000i32 | 0x1i32 == 0x4000_0001i32) by (bit_vector);
    assert(0x4000_0000u32 | 0x1u32 == 0x4000_0001u32) by (bit_vector);
    (epoll_oneshot() | epoll_in()) as u32
}

/// The flags of a one-shot registration for writing, as the platform has them.
pub fn write_flags() -> (flags: u32)
    ensures
        flags == WRITE_FLAGS,
        flags == ONESHOT_BIT | WRITE_BIT,
{
    assert(0x4000_0000i32 | 0x4i32 == 0x4000_0004i32) by (bit_vector);
    assert(0x4000_0000u32 | 0x4u32 == 0x4000_0004u32) by (bit_vector);
    (epoll_oneshot() | epoll_out()) as u32
}

/// The one-shot registration for reading under `key`.
pub fn listener_read_event(key: u64) -> (event: EpollEvent)
    ensures
        event == event_for(Interest::Read, key),
{
    EpollEvent { events: read_flags(), key }
}

/// The one-shot registration for writing under `key`.
pub fn listener_write_event(key: u64) -> (event: EpollEvent)
    ensures
        event == event_for(Interest::Write, key),
{
    EpollEvent { events: write_flags(), key }
}

/// The registration that arms `interest` under `key`.
pub fn arm(interest: Interest, key: u64) -> (event: EpollEvent)
    ensures
        event == event_for(interest, key),
{
    match interest {
        Interest::Read => listener_read_event(key),
        Interest::Write => listener_write_event(key),
    }
}

/// Whether reported events include readiness to read.
pub fn is_readable(events: u32) -> (yes: bool)
    ensures
        yes == readable(events),
{
    let bit = epoll_in() as u32;
    events & bit == bit
}

/// Whether reported events include readiness to write.
pub fn is_writable(events: u32) -> (yes: bool)
    ensures
        yes == writable(events),
{
    let bit = epoll_out() as u32;
    events & bit == bit
}

/// A one-shot registration asks for exactly one of the two kinds of
/// readiness, whichever interest it arms: never both, never neither.
pub proof fn lemma_flags_arm_exactly_one(interest: Interest)
    ensures
        readable(flags_of(interest)) <==> interest == Interest::Read,
        writable(flags_of(interest)) <==> interest == Interest::Write,
        flags_of(interest) & ONESHOT_BIT == ONESHOT_BIT,
{
    assert(0x4000_0001u32 & 0x1u32 == 0x1u32) by (bit_vector);
    assert(0x4000_0001u32 & 0x4u32 != 0x4u32) by (bit_vector);
    assert(0x4000_0004u32 & 0x1u32 != 0x1u32) by (bit_vector);
    assert(0x4000_0004u32 & 0x4u32 == 0x4u32) by (bit_vector);
    assert(0x4000_0001u32 & 0x4000_0000u32 == 0x4000_0000u32) by (bit_vector);
    assert(0x4000_0004u32 & 0x4000_0000u32 == 0x4000_0000u32) by (bit_vector);
}

} // verus!
