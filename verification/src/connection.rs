//! The life of one accepted connection, as the supervisor sees it: find the
//! target, dial it, run the two shuttles, and count the connection once, as a
//! clean disconnection or as an error.
//!
//! The supervisor's sockets and tasks are not here. It reports what
//! happened, one event at a time, and is told what to do next.

use vstd::prelude::*;
use crate::counter::{bump, increment};

verus! {

/// Why no address could be had for a name.
#[derive(Clone, Copy, Debug, PartialEq, Eq, Structural)]
pub enum ResolveError {
    /// Resolution succeeded and gave no address.
    AddressNotAvailable,
}

/// The address to use out of those that a name resolved to: the first.
pub fn first_candidate<T>(candidates: Vec<T>) -> (r: Result<T, ResolveError>)
    ensures
        candidates@.len() == 0 ==> r == Err::<T, ResolveError>(ResolveError::AddressNotAvailable),
        candidates@.len() > 0 ==> r == Ok::<T, ResolveError>(candidates@[0]),
{
    let mut candidates = candidates;
    if candidates.len() == 0 {
        Err(ResolveError::AddressNotAvailable)
    } else {
        Ok(candidates.swap_remove(0))
    }
}

/// The target of a connection: the configured upstream where there is one;
/// in transparent mode, where `remote_addr` is empty, the destination that
/// the connection had before it was redirected, if the kernel knows it.
pub fn select_target(remote_addr: &str, original_dst: Option<String>) -> (target: Option<String>)
    ensures
        remote_addr@.len() > 0 ==> target is Some && target->Some_0@ == remote_addr@,
        remote_addr@.len() == 0 ==> target == original_dst,
{
    if remote_addr.is_empty() {
        original_dst
    } else {
        Some(String::from_str(remote_addr))
    }
}

/// How one shuttle ended.
#[derive(Clone, Copy, Debug, PartialEq, Eq, Structural)]
pub enum ShuttleExit {
    /// Its read returned nothing: the peer closed.
    Eof,
    /// A read or a write failed.
    Failed,
}

/// What stopped a shuttle.
#[derive(Clone, Copy, Debug, PartialEq, Eq, Structural)]
pub enum ShuttleStop {
    /// A read returned no byte.
    ReadNothing,
    /// A read or a write reported an error; `unexpected_eof` says whether
    /// the error is of the kind that a closed stream gives.
    IoError { unexpected_eof: bool },
}

/// How a shuttle ends that stopped for `stop`: an end of stream is a clean
/// end however it shows, any other error is a failure.
pub open spec fn exit_for(stop: ShuttleStop) -> ShuttleExit {
    match stop {
        ShuttleStop::ReadNothing => ShuttleExit::Eof,
        ShuttleStop::IoError { unexpected_eof } => if unexpected_eof {
            ShuttleExit::Eof
        } else {
            ShuttleExit::Failed
        },
    }
}

/// How a shuttle ends that stopped for `stop`.
pub fn shuttle_exit(stop: ShuttleStop) -> (exit: ShuttleExit)
    ensures
        exit == exit_for(stop),
{
    match stop {
        ShuttleStop::ReadNothing => ShuttleExit::Eof,
        ShuttleStop::IoError { unexpected_eof } => {
            if unexpected_eof {
                ShuttleExit::Eof
            } else {
                ShuttleExit::Failed
            }
        },
    }
}

/// How a connection ended.
#[derive(Clone, Copy, Debug, PartialEq, Eq, Structural)]
pub enum ConnectionEnd {
    Clean,
    Failed,
}

/// Where a connection stands.
#[derive(Clone, Copy, Debug, PartialEq, Eq, Structural)]
pub enum Phase {
    /// Accepted and counted; the target is not known yet.
    Accepted,
    /// The target is being dialled.
    Dialing,
    /// Both shuttles run.
    Proxying,
    /// One shuttle has ended, which decided how the connection ends; the
    /// other is being stopped.
    Draining(ConnectionEnd),
    /// Over, and counted.
    Closed(ConnectionEnd),
}

/// What the supervisor reports.
#[derive(Clone, Copy, Debug, PartialEq, Eq, Structural)]
pub enum ConnectionEvent {
    /// There is a target to dial.
    TargetFound,
    /// No upstream is configured and the kernel knows no original
    /// destination.
    NoTarget,
    /// The target took the connection.
    Connected,
    /// The target could not be resolved or dialled, or a socket could not be
    /// set up.
    ConnectFailed,
    /// One of the two shuttles has ended.
    ShuttleDone(ShuttleExit),
}

/// What the supervisor is to do next.
#[derive(Clone, Copy, Debug, PartialEq, Eq, Structural)]
pub enum ConnectionAction {
    /// Dial the target.
    Dial,
    /// Start the two observers and the two shuttles.
    StartShuttles,
    /// Stop the shuttle that still runs, by dropping its read half.
    StopOtherShuttle,
    /// Close what is open and count a clean disconnection.
    CountDisconnection,
    /// Close what is open and count an error.
    CountError,
    /// The event does not belong to this phase: nothing to do.
    Nothing,
}

/// How a connection ends whose first shuttle ended with `exit`.
pub open spec fn end_of(exit: ShuttleExit) -> ConnectionEnd {
    match exit {
        ShuttleExit::Eof => ConnectionEnd::Clean,
        ShuttleExit::Failed => ConnectionEnd::Failed,
    }
}

/// The counting that closes a connection.
pub open spec fn count_for(end: ConnectionEnd) -> ConnectionAction {
    match end {
        ConnectionEnd::Clean => ConnectionAction::CountDisconnection,
        ConnectionEnd::Failed => ConnectionAction::CountError,
    }
}

/// The phase that follows `phase` on `event`. An event that does not belong
/// to the phase changes nothing.
pub open spec fn next_phase(phase: Phase, event: ConnectionEvent) -> Phase {
    match (phase, event) {
        (Phase::Accepted, ConnectionEvent::TargetFound) => Phase::Dialing,
        (Phase::Accepted, ConnectionEvent::NoTarget) => Phase::Closed(ConnectionEnd::Failed),
        (Phase::Dialing, ConnectionEvent::Connected) => Phase::Proxying,
        (Phase::Dialing, ConnectionEvent::ConnectFailed) => Phase::Closed(ConnectionEnd::Failed),
        (Phase::Proxying, ConnectionEvent::ShuttleDone(exit)) => Phase::Draining(end_of(exit)),
        (Phase::Draining(end), ConnectionEvent::ShuttleDone(_)) => Phase::Closed(end),
        _ => phase,
    }
}

/// What the supervisor is to do on `event` in `phase`.
pub open spec fn action_for(phase: Phase, event: ConnectionEvent) -> ConnectionAction {
    match (phase, event) {
        (Phase::Accepted, ConnectionEvent::TargetFound) => ConnectionAction::Dial,
        (Phase::Accepted, ConnectionEvent::NoTarget) => ConnectionAction::CountError,
        (Phase::Dialing, ConnectionEvent::Connected) => ConnectionAction::StartShuttles,
        (Phase::Dialing, ConnectionEvent::ConnectFailed) => ConnectionAction::CountError,
        (Phase::Proxying, ConnectionEvent::ShuttleDone(_)) => ConnectionAction::StopOtherShuttle,
        (Phase::Draining(end), ConnectionEvent::ShuttleDone(_)) => count_for(end),
        _ => ConnectionAction::Nothing,
    }
}

/// One accepted connection.
pub struct Connection {
    phase: Phase,
}

impl Connection {
    /// Where this connection stands.
    pub closed spec fn phase(&self) -> Phase {
        self.phase
    }

    /// A connection that has just been accepted.
    pub fn accept() -> (c: Connection)
        ensures
            c.phase() == Phase::Accepted,
    {
        Connection { phase: Phase::Accepted }
    }

    /// Where this connection stands.
    pub fn current_phase(&self) -> (p: Phase)
        ensures
            p == self.phase(),
    {
        self.phase
    }

    /// Takes what the supervisor reports and says what to do next.
    pub fn step(&mut self, event: ConnectionEvent) -> (action: ConnectionAction)
        ensures
            final(self).phase() == next_phase(old(self).phase(), event),
            action == action_for(old(self).phase(), event),
    {
        let (phase, action) = match (self.phase, event) {
            (Phase::Accepted, ConnectionEvent::TargetFound) => (
                Phase::Dialing,
                ConnectionAction::Dial,
            ),
            (Phase::Accepted, ConnectionEvent::NoTarget) => (
                Phase::Closed(ConnectionEnd::Failed),
                ConnectionAction::CountError,
            ),
            (Phase::Dialing, ConnectionEvent::Connected) => (
                Phase::Proxying,
                ConnectionAction::StartShuttles,
            ),
            (Phase::Dialing, ConnectionEvent::ConnectFailed) => (
                Phase::Closed(ConnectionEnd::Failed),
                ConnectionAction::CountError,
            ),
            (Phase::Proxying, ConnectionEvent::ShuttleDone(exit)) => {
                let end = match exit {
                    ShuttleExit::Eof => ConnectionEnd::Clean,
                    ShuttleExit::Failed => ConnectionEnd::Failed,
                };
                (Phase::Draining(end), ConnectionAction::StopOtherShuttle)
            },
            (Phase::Draining(end), ConnectionEvent::ShuttleDone(_)) => {
                let action = match end {
                    ConnectionEnd::Clean => ConnectionAction::CountDisconnection,
                    ConnectionEnd::Failed => ConnectionAction::CountError,
                };
                (Phase::Closed(end), action)
            },
            (phase, _) => (phase, ConnectionAction::Nothing),
        };
        self.phase = phase;
        action
    }
}

/// The three counters of the supervisor.
#[derive(Clone, Copy, Debug, PartialEq, Eq, Structural)]
pub struct Tally {
    /// Connections accepted.
    pub established: u64,
    /// Connections that ended cleanly.
    pub disconnections: u64,
    /// Connections that ended with an error.
    pub errors: u64,
}

/// A tally on which nothing has been counted.
pub open spec fn empty_tally() -> Tally {
    Tally { established: 0, disconnections: 0, errors: 0 }
}

/// The tally after one more connection was accepted.
pub open spec fn tally_accepted(t: Tally) -> Tally {
    Tally { established: bump(t.established), ..t }
}

/// The tally after the supervisor has done `action`.
pub open spec fn tally_after(t: Tally, action: ConnectionAction) -> Tally {
    match action {
        ConnectionAction::CountDisconnection => Tally {
            disconnections: bump(t.disconnections),
            ..t
        },
        ConnectionAction::CountError => Tally { errors: bump(t.errors), ..t },
        _ => t,
    }
}

/// No counter of `a` is above its counterpart in `b`.
pub open spec fn tally_le(a: Tally, b: Tally) -> bool {
    &&& a.established <= b.established
    &&& a.disconnections <= b.disconnections
    &&& a.errors <= b.errors
}

impl Tally {
    /// A tally on which nothing has been counted.
    pub fn new() -> (t: Tally)
        ensures
            t == empty_tally(),
    {
        Tally { established: 0, disconnections: 0, errors: 0 }
    }

    /// Counts an accepted connection.
    pub fn accepted(&mut self)
        ensures
            *final(self) == tally_accepted(*old(self)),
            tally_le(*old(self), *final(self)),
    {
        self.established = increment(self.established);
    }

    /// Counts what `action` asks to count, if anything.
    pub fn record(&mut self, action: ConnectionAction)
        ensures
            *final(self) == tally_after(*old(self), action),
            tally_le(*old(self), *final(self)),
    {
        match action {
            ConnectionAction::CountDisconnection => {
                self.disconnections = increment(self.disconnections);
            },
            ConnectionAction::CountError => {
                self.errors = increment(self.errors);
            },
            _ => {},
        }
    }
}

/// The phase of a connection after the supervisor has reported `events`.
pub open spec fn phase_after(events: Seq<ConnectionEvent>) -> Phase
    decreases events.len(),
{
    if events.len() == 0 {
        Phase::Accepted
    } else {
        next_phase(phase_after(events.drop_last()), events.last())
    }
}

/// What has been counted for a connection, from its accept on, after the
/// supervisor has reported `events` and done what it was told.
pub open spec fn tally_of(events: Seq<ConnectionEvent>) -> Tally
    decreases events.len(),
{
    if events.len() == 0 {
        tally_accepted(empty_tally())
    } else {
        tally_after(
            tally_of(events.drop_last()),
            action_for(phase_after(events.drop_last()), events.last()),
        )
    }
}

/// Every connection is counted once when it is accepted and once when it is
/// over, as a clean disconnection or as an error, whatever the supervisor
/// reports and in whatever order.
pub proof fn lemma_counted_once(events: Seq<ConnectionEvent>)
    ensures
        tally_of(events).established == 1,
        tally_of(events).disconnections == (if phase_after(events) == Phase::Closed(
            ConnectionEnd::Clean,
        ) {
            1u64
        } else {
            0u64
        }),
        tally_of(events).errors == (if phase_after(events) == Phase::Closed(
            ConnectionEnd::Failed,
        ) {
            1u64
        } else {
            0u64
        }),
    decreases events.len(),
{
    if events.len() > 0 {
        lemma_counted_once(events.drop_last());
    }
}

/// The supervisor's counters never go down: what has been counted after more
/// events is at least what had been counted before.
pub proof fn lemma_tally_never_decreases(events: Seq<ConnectionEvent>, n: int)
    requires
        0 <= n <= events.len(),
    ensures
        tally_le(tally_of(events.take(n)), tally_of(events)),
    decreases events.len() - n,
{
    if n == events.len() {
        assert(events.take(n) =~= events);
    } else {
        let head = events.drop_last();
        lemma_tally_never_decreases(head, n);
        assert(head.take(n) =~= events.take(n));
    }
}

} // verus!
