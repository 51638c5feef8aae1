//! The life cycles that the daemon runs through: one connection of the control
//! protocol, the binding of the socket, and the auto-lock supervisor.
//!
//! Each is a state machine. The daemon does what the last step asked for and
//! comes back with what happened.

use vstd::prelude::*;

verus! {

/// Where a connection of the control protocol stands.
#[derive(Clone, Copy, PartialEq, Eq, Debug, Structural)]
pub enum ConnState {
    /// Waiting for a client.
    Listening,
    /// A client has connected.
    Accepted,
    /// The request has been read.
    RequestRead,
    /// The request has been decoded and is being answered.
    Dispatch,
    /// The response has been written.
    ResponseWritten,
    /// The connection is closed.
    Closed,
}

/// What happened on a connection.
#[derive(Clone, Copy, PartialEq, Eq, Debug, Structural)]
pub enum ConnEvent {
    /// A client connected.
    Connected,
    /// The request was read, up to its line feed.
    LineRead,
    /// The request was decoded.
    Decoded,
    /// The bytes read are no request.
    Malformed,
    /// The response was written.
    Written,
    /// The connection was closed.
    Closed,
    /// Reading or writing failed.
    Failed,
}

/// What the daemon is to do next on a connection.
#[derive(Clone, Copy, PartialEq, Eq, Debug, Structural)]
pub enum ConnAction {
    /// Wait for a client.
    Accept,
    /// Read the request.
    ReadLine,
    /// Decode the request.
    Decode,
    /// Answer the request and write the response.
    Respond,
    /// Close the connection.
    Close,
    /// Nothing: the connection is done.
    Done,
}

/// The next state of a connection, and what to do next.
pub open spec fn conn_next(state: ConnState, event: ConnEvent) -> (ConnState, ConnAction) {
    match (state, event) {
        (ConnState::Closed, _) => (ConnState::Closed, ConnAction::Done),
        (_, ConnEvent::Failed) => (ConnState::Closed, ConnAction::Close),
        (_, ConnEvent::Closed) => (ConnState::Closed, ConnAction::Done),
        (ConnState::Listening, ConnEvent::Connected) => (ConnState::Accepted, ConnAction::ReadLine),
        (ConnState::Accepted, ConnEvent::LineRead) => (ConnState::RequestRead, ConnAction::Decode),
        (ConnState::RequestRead, ConnEvent::Decoded) => (ConnState::Dispatch, ConnAction::Respond),
        (ConnState::RequestRead, ConnEvent::Malformed) => (ConnState::Closed, ConnAction::Close),
        (ConnState::Dispatch, ConnEvent::Written) => (
            ConnState::ResponseWritten,
            ConnAction::Close,
        ),
        _ => (ConnState::Closed, ConnAction::Close),
    }
}

/// Takes a connection one step further: a request is read, decoded and
/// answered once, in this order; bytes that are no request, a failure and any
/// event out of turn close the connection without a response.
pub fn conn_step(state: ConnState, event: ConnEvent) -> (r: (ConnState, ConnAction))
    ensures
        r == conn_next(state, event),
{
    match (state, event) {
        (ConnState::Closed, _) => (ConnState::Closed, ConnAction::Done),
        (_, ConnEvent::Failed) => (ConnState::Closed, ConnAction::Close),
        (_, ConnEvent::Closed) => (ConnState::Closed, ConnAction::Done),
        (ConnState::Listening, ConnEvent::Connected) => (ConnState::Accepted, ConnAction::ReadLine),
        (ConnState::Accepted, ConnEvent::LineRead) => (ConnState::RequestRead, ConnAction::Decode),
        (ConnState::RequestRead, ConnEvent::Decoded) => (ConnState::Dispatch, ConnAction::Respond),
        (ConnState::RequestRead, ConnEvent::Malformed) => (ConnState::Closed, ConnAction::Close),
        (ConnState::Dispatch, ConnEvent::Written) => (
            ConnState::ResponseWritten,
            ConnAction::Close,
        ),
        _ => (ConnState::Closed, ConnAction::Close),
    }
}

/// The state of a connection after the events, from `state` on.
pub open spec fn conn_run(state: ConnState, events: Seq<ConnEvent>) -> ConnState
    decreases events.len(),
{
    if events.len() == 0 {
        state
    } else {
        conn_next(conn_run(state, events.drop_last()), events.last()).0
    }
}

/// How often the daemon was asked to respond while the events came in, from
/// `state` on.
pub open spec fn responses(state: ConnState, events: Seq<ConnEvent>) -> nat
    decreases events.len(),
{
    if events.len() == 0 {
        0
    } else {
        let before = conn_run(state, events.drop_last());
        responses(state, events.drop_last()) + if conn_next(before, events.last()).1
            == ConnAction::Respond {
            1nat
        } else {
            0nat
        }
    }
}

/// How far a connection has come.
pub open spec fn conn_rank(state: ConnState) -> int {
    match state {
        ConnState::Listening => 0,
        ConnState::Accepted => 1,
        ConnState::RequestRead => 2,
        ConnState::Dispatch => 3,
        ConnState::ResponseWritten => 4,
        ConnState::Closed => 5,
    }
}

/// A connection never goes back, and whatever happens on it, the daemon
/// responds at most once: only when it has decoded a request, which it does
/// at most once.
pub proof fn lemma_one_response(state: ConnState, events: Seq<ConnEvent>)
    ensures
        conn_rank(state) <= conn_rank(conn_run(state, events)),
        responses(state, events) <= 1,
        responses(state, events) == 1 ==> conn_rank(state) <= 2 && conn_rank(
            conn_run(state, events),
        ) >= 3,
        conn_rank(state) >= 3 ==> responses(state, events) == 0,
    decreases events.len(),
{
    if events.len() > 0 {
        lemma_one_response(state, events.drop_last());
    }
}

/// Bytes that are no request are never answered: the connection closes.
pub proof fn lemma_malformed_closes(state: ConnState)
    ensures
        conn_next(state, ConnEvent::Malformed).0 == ConnState::Closed,
        conn_next(state, ConnEvent::Malformed).1 != ConnAction::Respond,
{
}

/// Where the binding of the socket stands.
#[derive(Clone, Copy, PartialEq, Eq, Debug, Structural)]
pub enum BindState {
    /// The first attempt to bind is under way.
    Binding,
    /// The path is in use; a connection to it is being tried.
    Probing,
    /// Nobody answered; the stale socket file is being removed.
    Removing,
    /// The second attempt to bind is under way.
    Rebinding,
    /// The socket is bound.
    Bound,
    /// Another daemon answers on the path.
    AlreadyRunning,
    /// Binding failed.
    Failed,
}

/// What happened while the socket was bound.
#[derive(Clone, Copy, PartialEq, Eq, Debug, Structural)]
pub enum BindEvent {
    /// Binding succeeded.
    Bound,
    /// Binding failed because the path is in use.
    InUse,
    /// A connection to the path succeeded.
    PeerAnswered,
    /// A connection to the path failed.
    NoPeer,
    /// The socket file was removed.
    Removed,
    /// Something else failed.
    Error,
}

/// What the daemon is to do next while it binds the socket.
#[derive(Clone, Copy, PartialEq, Eq, Debug, Structural)]
pub enum BindAction {
    /// Bind the socket.
    Bind,
    /// Try to connect to the path.
    Probe,
    /// Remove the socket file.
    Remove,
    /// Go on: the socket is bound.
    Serve,
    /// Give up.
    Fail,
}

/// The next state of the binding, and what to do next.
pub open spec fn bind_next(state: BindState, event: BindEvent) -> (BindState, BindAction) {
    match (state, event) {
        (BindState::Binding, BindEvent::Bound) => (BindState::Bound, BindAction::Serve),
        (BindState::Binding, BindEvent::InUse) => (BindState::Probing, BindAction::Probe),
        (BindState::Probing, BindEvent::PeerAnswered) => (
            BindState::AlreadyRunning,
            BindAction::Fail,
        ),
        (BindState::Probing, BindEvent::NoPeer) => (BindState::Removing, BindAction::Remove),
        (BindState::Removing, BindEvent::Removed) => (BindState::Rebinding, BindAction::Bind),
        (BindState::Rebinding, BindEvent::Bound) => (BindState::Bound, BindAction::Serve),
        (BindState::Bound, _) => (BindState::Bound, BindAction::Serve),
        (BindState::AlreadyRunning, _) => (BindState::AlreadyRunning, BindAction::Fail),
        _ => (BindState::Failed, BindAction::Fail),
    }
}

/// Takes the binding of the socket one step further. A path in use is
/// probed: where a peer answers, another daemon is running and binding
/// fails; where none does, the stale socket file is removed and binding is
/// tried once more.
pub fn bind_step(state: BindState, event: BindEvent) -> (r: (BindState, BindAction))
    ensures
        r == bind_next(state, event),
{
    match (state, event) {
        (BindState::Binding, BindEvent::Bound) => (BindState::Bound, BindAction::Serve),
        (BindState::Binding, BindEvent::InUse) => (BindState::Probing, BindAction::Probe),
        (BindState::Probing, BindEvent::PeerAnswered) => (
            BindState::AlreadyRunning,
            BindAction::Fail,
        ),
        (BindState::Probing, BindEvent::NoPeer) => (BindState::Removing, BindAction::Remove),
        (BindState::Removing, BindEvent::Removed) => (BindState::Rebinding, BindAction::Bind),
        (BindState::Rebinding, BindEvent::Bound) => (BindState::Bound, BindAction::Serve),
        (BindState::Bound, _) => (BindState::Bound, BindAction::Serve),
        (BindState::AlreadyRunning, _) => (BindState::AlreadyRunning, BindAction::Fail),
        _ => (BindState::Failed, BindAction::Fail),
    }
}

/// Why binding fails where another daemon answers on the socket.
pub open spec fn already_running(socket: Seq<char>) -> Seq<char> {
    "Socket "@ + socket + " exists and is already listening from another instance"@
}

/// Says in words that another daemon answers on the socket.
pub fn already_running_message(socket: &str) -> (s: String)
    ensures
        s@ == already_running(socket@),
{
    let mut s = "Socket ".to_owned();
    s = s.concat(socket);
    s.concat(" exists and is already listening from another instance")
}

/// Where the auto-lock supervisor stands.
#[derive(Clone, Copy, PartialEq, Eq, Debug, Structural)]
pub enum Supervisor {
    /// Waiting for a notice of an unlock.
    Idle,
    /// A notice came in; the status of the vault is being read.
    Checking,
    /// The vault is unlocked; the idle period is running.
    ArmedWaiting,
    /// The idle period is over; the status of the vault is being read.
    Expired,
    /// The channel of the notices has failed; the supervisor has ended.
    Stopped,
}

/// What happened to the auto-lock supervisor.
#[derive(Clone, Copy, PartialEq, Eq, Debug, Structural)]
pub enum LockEvent {
    /// One or more notices of an unlock came in.
    Notified,
    /// The status of the vault was read.
    Status { unlocked: bool },
    /// The idle period is over.
    Elapsed,
    /// The channel of the notices has failed.
    ChannelFailed,
}

/// What the auto-lock supervisor is to do next.
#[derive(Clone, Copy, PartialEq, Eq, Debug, Structural)]
pub enum LockAction {
    /// Wait for a notice.
    Wait,
    /// Take the notices that have come in off the channel and read the
    /// status of the vault.
    ReadStatus,
    /// Wait for a notice, for this many seconds at most.
    Sleep { seconds: u64 },
    /// Empty the tree and lock the vault, then wait for a notice.
    ClearAndLock,
    /// End.
    Stop,
}

/// Whether the auto-lock supervisor runs at all: an idle period of zero
/// switches it off.
pub open spec fn auto_lock_enabled(lock_after_s: u64) -> bool {
    lock_after_s > 0
}

/// Decides whether the auto-lock supervisor runs at all.
pub fn supervisor_enabled(lock_after_s: u64) -> (r: bool)
    ensures
        r == auto_lock_enabled(lock_after_s),
{
    lock_after_s > 0
}

/// The next state of the supervisor, and what to do next.
pub open spec fn supervisor_next(state: Supervisor, event: LockEvent, lock_after_s: u64) -> (
    Supervisor,
    LockAction,
) {
    match (state, event) {
        (Supervisor::Stopped, _) => (Supervisor::Stopped, LockAction::Stop),
        (_, LockEvent::ChannelFailed) => (Supervisor::Stopped, LockAction::Stop),
        (Supervisor::Idle, LockEvent::Notified) => (Supervisor::Checking, LockAction::ReadStatus),
        (Supervisor::Idle, _) => (Supervisor::Idle, LockAction::Wait),
        (Supervisor::Checking, LockEvent::Status { unlocked }) => if unlocked {
            (Supervisor::ArmedWaiting, LockAction::Sleep { seconds: lock_after_s })
        } else {
            (Supervisor::Idle, LockAction::Wait)
        },
        (Supervisor::Checking, _) => (Supervisor::Checking, LockAction::ReadStatus),
        (Supervisor::ArmedWaiting, LockEvent::Notified) => (
            Supervisor::Checking,
            LockAction::ReadStatus,
        ),
        (Supervisor::ArmedWaiting, LockEvent::Elapsed) => (
            Supervisor::Expired,
            LockAction::ReadStatus,
        ),
        (Supervisor::ArmedWaiting, LockEvent::Status { .. }) => (
            Supervisor::ArmedWaiting,
            LockAction::Sleep { seconds: lock_after_s },
        ),
        (Supervisor::Expired, LockEvent::Status { unlocked }) => if unlocked {
            (Supervisor::Idle, LockAction::ClearAndLock)
        } else {
            (Supervisor::Idle, LockAction::Wait)
        },
        (Supervisor::Expired, _) => (Supervisor::Expired, LockAction::ReadStatus),
    }
}

/// Takes the auto-lock supervisor one step further. A notice of an unlock
/// makes it read the status; an unlocked vault arms it for the idle period; a
/// notice within the period starts the period anew; when the period is over
/// and the vault is still unlocked, the tree is emptied and the vault locked.
pub fn supervisor_step(state: Supervisor, event: LockEvent, lock_after_s: u64) -> (r: (
    Supervisor,
    LockAction,
))
    ensures
        r == supervisor_next(state, event, lock_after_s),
{
    match (state, event) {
        (Supervisor::Stopped, _) => (Supervisor::Stopped, LockAction::Stop),
        (_, LockEvent::ChannelFailed) => (Supervisor::Stopped, LockAction::Stop),
        (Supervisor::Idle, LockEvent::Notified) => (Supervisor::Checking, LockAction::ReadStatus),
        (Supervisor::Idle, _) => (Supervisor::Idle, LockAction::Wait),
        (Supervisor::Checking, LockEvent::Status { unlocked }) => if unlocked {
            (Supervisor::ArmedWaiting, LockAction::Sleep { seconds: lock_after_s })
        } else {
            (Supervisor::Idle, LockAction::Wait)
        },
        (Supervisor::Checking, _) => (Supervisor::Checking, LockAction::ReadStatus),
        (Supervisor::ArmedWaiting, LockEvent::Notified) => (
            Supervisor::Checking,
            LockAction::ReadStatus,
        ),
        (Supervisor::ArmedWaiting, LockEvent::Elapsed) => (
            Supervisor::Expired,
            LockAction::ReadStatus,
        ),
        (Supervisor::ArmedWaiting, LockEvent::Status { .. }) => (
            Supervisor::ArmedWaiting,
            LockAction::Sleep { seconds: lock_after_s },
        ),
        (Supervisor::Expired, LockEvent::Status { unlocked }) => if unlocked {
            (Supervisor::Idle, LockAction::ClearAndLock)
        } else {
            (Supervisor::Idle, LockAction::Wait)
        },
        (Supervisor::Expired, _) => (Supervisor::Expired, LockAction::ReadStatus),
    }
}

/// After an unlock that is followed by no further notice, the supervisor
/// empties the tree and locks the vault as soon as the idle period is over,
/// provided the vault is unlocked then as it was before.
pub proof fn lemma_auto_lock(lock_after_s: u64)
    ensures
        ({
            let s1 = supervisor_next(Supervisor::Idle, LockEvent::Notified, lock_after_s);
            let s2 = supervisor_next(s1.0, LockEvent::Status { unlocked: true }, lock_after_s);
            let s3 = supervisor_next(s2.0, LockEvent::Elapsed, lock_after_s);
            let s4 = supervisor_next(s3.0, LockEvent::Status { unlocked: true }, lock_after_s);
            &&& s2.1 == LockAction::Sleep { seconds: lock_after_s }
            &&& s4.1 == LockAction::ClearAndLock
            &&& s4.0 == Supervisor::Idle
        }),
{
}

/// The tree is emptied and the vault locked only when an idle period has run
/// out and the vault is unlocked.
pub proof fn lemma_lock_only_when_expired(state: Supervisor, event: LockEvent, lock_after_s: u64)
    requires
        supervisor_next(state, event, lock_after_s).1 == LockAction::ClearAndLock,
    ensures
        state == Supervisor::Expired,
        event == (LockEvent::Status { unlocked: true }),
{
}

} // verus!
