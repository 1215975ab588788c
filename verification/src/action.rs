//! The work that the reactor's decisions ask of their caller.
//!
//! The library decides; it performs no I/O. Each decision comes back as a
//! list of actions on descriptors, which the caller carries out in the order
//! given before it hands in the next event.

use vstd::prelude::*;
use crate::interest::EpollEvent;

verus! {

/// One operation on a descriptor.
#[derive(Clone, Copy, Debug, PartialEq, Eq, Structural)]
pub enum Action {
    /// Switch the socket to non-blocking mode.
    SetNonblocking { fd: i32 },
    /// Register the descriptor with the readiness queue.
    AddInterest { fd: i32, event: EpollEvent },
    /// Arm a registered descriptor anew, for the interest that `event` names.
    ModifyInterest { fd: i32, event: EpollEvent },
    /// Take the descriptor out of the readiness queue.
    RemoveInterest { fd: i32 },
    /// Shut down both directions of the socket.
    Shutdown { fd: i32 },
    /// Close the descriptor.
    Close { fd: i32 },
}

/// Whether the failure of `action` must end the dispatch loop. Registering
/// and arming are the reactor's own operations: if one fails, events would be
/// lost silently, so the failure goes to the caller. What takes a socket
/// down is attempted in full whatever fails on the way.
pub open spec fn is_critical(action: Action) -> bool {
    match action {
        Action::SetNonblocking { .. } => true,
        Action::AddInterest { .. } => true,
        Action::ModifyInterest { .. } => true,
        Action::RemoveInterest { .. } => false,
        Action::Shutdown { .. } => false,
        Action::Close { .. } => false,
    }
}

/// The descriptor that `action` works on.
pub open spec fn target(action: Action) -> i32 {
    match action {
        Action::SetNonblocking { fd } => fd,
        Action::AddInterest { fd, .. } => fd,
        Action::ModifyInterest { fd, .. } => fd,
        Action::RemoveInterest { fd } => fd,
        Action::Shutdown { fd } => fd,
        Action::Close { fd } => fd,
    }
}

/// What takes the socket `fd` down, in this order: shut down both
/// directions, leave the readiness queue, close. The descriptor leaves the
/// queue while its number is still its own.
pub open spec fn teardown(fd: i32) -> Seq<Action> {
    seq![Action::Shutdown { fd }, Action::RemoveInterest { fd }, Action::Close { fd }]
}

impl Action {
    /// Whether a failure of this action must end the dispatch loop.
    pub fn must_succeed(&self) -> (critical: bool)
        ensures
            critical == is_critical(*self),
    {
        match self {
            Action::SetNonblocking { .. } => true,
            Action::AddInterest { .. } => true,
            Action::ModifyInterest { .. } => true,
            Action::RemoveInterest { .. } => false,
            Action::Shutdown { .. } => false,
            Action::Close { .. } => false,
        }
    }

    /// The descriptor that this action works on.
    pub fn fd(&self) -> (fd: i32)
        ensures
            fd == target(*self),
    {
        match self {
            Action::SetNonblocking { fd } => *fd,
            Action::AddInterest { fd, .. } => *fd,
            Action::ModifyInterest { fd, .. } => *fd,
            Action::RemoveInterest { fd } => *fd,
            Action::Shutdown { fd } => *fd,
            Action::Close { fd } => *fd,
        }
    }
}

/// The actions that take the socket `fd` down.
pub fn teardown_actions(fd: i32) -> (actions: Vec<Action>)
    ensures
        actions@ == teardown(fd),
{
    let mut actions: Vec<Action> = Vec::new();
    actions.push(Action::Shutdown { fd });
    actions.push(Action::RemoveInterest { fd });
    actions.push(Action::Close { fd });
    assert(actions@ =~= teardown(fd));
    actions
}

} // verus!
