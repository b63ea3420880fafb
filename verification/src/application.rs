//! The decisions of a service application: the loop that proxies messages
//! between the routers and the application's dispatchers, and the loop of
//! each dispatcher worker. The sockets, threads and sleeps stay with the
//! caller, which hands each poll or receive result to these functions and
//! performs what they return.
use vstd::prelude::*;
use crate::bodies::{Heartbeat, UnknownOnlyV};
use crate::conn::{ConnErr, SocketError};
use crate::message::{decimal, message_empty, message_wf, u64_to_string, wire_encode, Message, MessageV};

verus! {

/// How long the application's main loop waits for a message, in milliseconds.
pub const POLL_TIMEOUT_MS: i64 = 30_000;

/// A state that a dispatcher worker carries from one message to the next.
pub trait ApplicationState {
    /// Whether the state is ready for dispatching.
    fn is_initialized(&self) -> bool;
}

/// What the main loop's poll of the router and dispatcher sockets found.
#[derive(PartialEq, Eq, Structural, Clone, Copy, Debug)]
pub enum RecvResult {
    /// Which sockets have messages waiting: the router socket, the dispatcher socket.
    OnMessage(bool, bool),
    /// The application is shutting down.
    Shutdown,
    /// Nothing arrived before the timeout.
    Timeout,
}

/// What a poll of both sockets means: a poll that finds nothing, or would
/// block, is a timeout; an interrupt or a terminated context is a shutdown;
/// otherwise the sockets found readable have messages. A negative count,
/// invalid poll items and other errors cannot occur, and are left out.
pub fn recv_result(poll: Result<i32, SocketError>, router_readable: bool, dispatcher_readable: bool) -> (r: RecvResult)
    requires
        match poll {
            Ok(count) => count >= 0,
            Err(e) => e is Again || e is Interrupted || e is Terminated,
        },
    ensures
        r == match poll {
            Ok(count) => if count == 0 {
                RecvResult::Timeout
            } else {
                RecvResult::OnMessage(router_readable, dispatcher_readable)
            },
            Err(SocketError::Again) => RecvResult::Timeout,
            Err(_) => RecvResult::Shutdown,
        },
{
    match poll {
        Ok(count) => {
            if count == 0 {
                RecvResult::Timeout
            } else {
                RecvResult::OnMessage(router_readable, dispatcher_readable)
            }
        },
        Err(SocketError::Again) => RecvResult::Timeout,
        Err(_) => RecvResult::Shutdown,
    }
}

/// One thing the main loop does.
#[derive(PartialEq, Eq, Structural, Clone, Copy, Debug)]
pub enum AppAction {
    /// Proxy the waiting messages from the dispatchers to the routers.
    ProxyToRouter,
    /// Proxy the waiting messages from the routers to the dispatchers.
    ProxyToDispatchers,
    /// Send a heartbeat to the routers.
    Heartbeat,
    /// Leave the loop.
    Stop,
}

/// The actions of the main loop for a poll result, in order: completed work
/// (from the dispatchers) before new work (from the routers); a heartbeat on
/// a timeout; stop on a shutdown.
pub open spec fn app_actions_of(r: RecvResult) -> Seq<AppAction> {
    match r {
        RecvResult::OnMessage(router, dispatcher) => (if dispatcher {
            seq![AppAction::ProxyToRouter]
        } else {
            Seq::empty()
        }) + (if router {
            seq![AppAction::ProxyToDispatchers]
        } else {
            Seq::empty()
        }),
        RecvResult::Timeout => seq![AppAction::Heartbeat],
        RecvResult::Shutdown => seq![AppAction::Stop],
    }
}

/// The actions of the main loop for a poll result, in the order to perform them.
pub fn app_actions(r: RecvResult) -> (v: Vec<AppAction>)
    ensures
        v@ == app_actions_of(r),
{
    let mut v: Vec<AppAction> = Vec::new();
    match r {
        RecvResult::OnMessage(router, dispatcher) => {
            if dispatcher {
                v.push(AppAction::ProxyToRouter);
            }
            if router {
                v.push(AppAction::ProxyToDispatchers);
            }
        },
        RecvResult::Timeout => v.push(AppAction::Heartbeat),
        RecvResult::Shutdown => v.push(AppAction::Stop),
    }
    assert(v@ =~= app_actions_of(r));
    v
}

/// One step of proxying the frames waiting on a socket to another.
#[derive(PartialEq, Eq, Structural, Clone, Copy, Debug)]
pub enum ProxyStep {
    /// Send the frame received on; `more` when more frames of the message follow.
    Send { more: bool },
    /// Nothing more is waiting.
    Done,
    /// Receiving failed.
    Fail(SocketError),
}

/// What a non-blocking receive while proxying means: a frame to send on (with
/// the "more" flag when the frame says more follow), the end of what is
/// waiting when the call would block, or a failure.
pub fn proxy_step(recv: Result<bool, SocketError>) -> (r: ProxyStep)
    ensures
        r == match recv {
            Ok(more) => ProxyStep::Send { more },
            Err(SocketError::Again) => ProxyStep::Done,
            Err(e) => ProxyStep::Fail(e),
        },
{
    match recv {
        Ok(more) => ProxyStep::Send { more },
        Err(SocketError::Again) => ProxyStep::Done,
        Err(e) => ProxyStep::Fail(e),
    }
}

/// What a dispatcher worker does after waiting for a message.
#[derive(Debug)]
pub enum WorkerStep {
    /// Dispatch the message received.
    Dispatch,
    /// Leave the loop: the connection is shutting down.
    Stop,
    /// Log the error and wait for the next message.
    Skip(ConnErr),
}

/// What a dispatcher worker does with the result of waiting for a message:
/// dispatch it, stop on a shutdown, or log any other error and go on.
pub fn worker_step(recv: Result<(), ConnErr>) -> (r: WorkerStep)
    ensures
        match recv {
            Ok(()) => r is Dispatch,
            Err(ConnErr::Shutdown(_)) => r is Stop,
            Err(e) => r == WorkerStep::Skip(e),
        },
{
    match recv {
        Ok(()) => WorkerStep::Dispatch,
        Err(ConnErr::Shutdown(_)) => WorkerStep::Stop,
        Err(e) => WorkerStep::Skip(e),
    }
}


// ---------------------------------------------------------------------------
// Names and messages of the application
// ---------------------------------------------------------------------------

/// The network identity of a process: its id in decimal, `@`, and the name
/// of its host.
pub open spec fn net_ident_of(pid: u32, hostname: Seq<char>) -> Seq<char> {
    decimal(pid as nat) + "@"@ + hostname
}

/// The network identity of the process `pid` on the host `hostname`.
pub fn net_ident(pid: u32, hostname: &str) -> (r: String)
    ensures
        r@ == net_ident_of(pid, hostname@),
{
    let digits = u64_to_string(pid as u64);
    let mut r = digits;
    r.append("@");
    r.append(hostname);
    r
}

/// A lowercase hexadecimal digit.
pub open spec fn is_hex_digit(c: char) -> bool {
    ('0' <= c && c <= '9') || ('a' <= c && c <= 'f')
}

/// The hyphenated text of a UUID: 32 lowercase hexadecimal digits in groups
/// of 8, 4, 4, 4 and 12, the groups separated by hyphens.
pub open spec fn is_hyphenated_uuid(s: Seq<char>) -> bool {
    &&& s.len() == 36
    &&& forall|i: int|
        0 <= i < 36 ==> if i == 8 || i == 13 || i == 18 || i == 23 {
            s[i] == '-'
        } else {
            is_hex_digit(#[trigger] s[i])
        }
}

/// `Uuid::new_v4`, written by its `Display` (`to_string`): a random UUID as
/// hyphenated lowercase hexadecimal text. Which digits come out is left
/// unsaid: they are random.
#[verifier::external_body]
fn new_v4_text() -> (r: String)
    ensures
        is_hyphenated_uuid(r@),
{
    uuid::Uuid::new_v4().to_string()
}

/// The in-process address of a dispatcher queue named `id`.
pub open spec fn dispatcher_addr(id: Seq<char>) -> Seq<char> {
    "inproc://net.dispatcher."@ + id
}

/// The in-process address of the dispatcher queue named `id`.
pub fn dispatcher_address(id: &str) -> (r: String)
    ensures
        r@ == dispatcher_addr(id@),
{
    let mut addr = String::from_str("inproc://net.dispatcher.");
    addr.append(id);
    addr
}

/// A fresh in-process address for the application's dispatchers to connect
/// to: the dispatcher prefix followed by a new random UUID.
pub fn dispatcher_queue() -> (r: String)
    ensures
        exists|id: Seq<char>| is_hyphenated_uuid(id) && r@ == dispatcher_addr(id),
{
    let id = new_v4_text();
    dispatcher_address(id.as_str())
}

/// The heartbeat message of an application: an otherwise empty message
/// whose body is a `Heartbeat`.
pub open spec fn heartbeat_of() -> MessageV {
    MessageV { body: wire_encode::<Heartbeat>(UnknownOnlyV { unknown: Seq::empty() }), ..message_empty() }
}

/// The message the application sends the routers when nothing arrives in time.
pub fn heartbeat_message() -> (r: Message)
    ensures
        r@ == heartbeat_of(),
        message_wf(r@),
{
    let mut m = Message::default();
    let hb = Heartbeat::new();
    let _ = m.set_body(&hb);
    m
}

// ---------------------------------------------------------------------------
// The pool of dispatcher workers
// ---------------------------------------------------------------------------

/// What a worker's status channel shows when the pool looks at it.
#[derive(PartialEq, Eq, Structural, Clone, Copy, Debug)]
pub enum WorkerStatus {
    /// Nothing was sent: the worker is running.
    Quiet,
    /// The worker sent something, which it never does.
    Sent,
    /// The channel is closed: the worker has stopped.
    Gone,
}

/// What the pool does about a worker.
#[derive(PartialEq, Eq, Structural, Clone, Copy, Debug)]
pub enum WorkerCheck {
    /// Leave it running.
    Running,
    /// Warn that it sent something unexpected.
    Unexpected,
    /// Start it again.
    Restart,
}

/// What the pool does about a worker, by what its channel shows: a worker
/// that has stopped is started again; one that sent something is warned
/// about; a quiet one is left running.
pub fn check_worker(status: WorkerStatus) -> (r: WorkerCheck)
    ensures
        r == match status {
            WorkerStatus::Quiet => WorkerCheck::Running,
            WorkerStatus::Sent => WorkerCheck::Unexpected,
            WorkerStatus::Gone => WorkerCheck::Restart,
        },
{
    match status {
        WorkerStatus::Quiet => WorkerCheck::Running,
        WorkerStatus::Sent => WorkerCheck::Unexpected,
        WorkerStatus::Gone => WorkerCheck::Restart,
    }
}

/// Records a worker's start in the pool's list of status channels: when
/// the worker reported ready, its channel is inserted at `worker_id` (the
/// channels from there on move up one place); when it did not, the channel
/// at `worker_id` is removed.
pub fn record_worker_start<T>(workers: &mut Vec<T>, worker_id: usize, channel: T, ready: bool)
    requires
        ready ==> worker_id <= old(workers)@.len(),
        !ready ==> worker_id < old(workers)@.len(),
    ensures
        ready ==> final(workers)@ == old(workers)@.insert(worker_id as int, channel),
        !ready ==> final(workers)@ == old(workers)@.remove(worker_id as int),
{
    if ready {
        workers.insert(worker_id, channel);
    } else {
        let _ = workers.remove(worker_id);
    }
}

} // verus!
