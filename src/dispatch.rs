//! The dispatcher's ensure-live sequence for one inbound connection, as a
//! step function: the caller holds the driver lock, performs each step
//! (read the address, ping, start, wait for readiness) and hands back what
//! it observed.

use vstd::prelude::*;

verus! {

/// Time between two readiness pings after a start, in milliseconds.
pub const RETRY_INTERVAL_MS: u64 = 500;

/// Deadline of one connection attempt, in milliseconds.
pub const CONNECT_TIMEOUT_MS: u64 = 1_000;

/// The next thing to do for an inbound connection.
#[derive(Debug, Clone, Copy, PartialEq, Eq, Structural)]
pub enum LiveStep {
    /// Ask the driver for the backend's address.
    ReadAddr,
    /// Ping the known address once.
    Ping,
    /// Start the backend.
    Start,
    /// Ping again after the retry interval until the backend answers.
    AwaitReady,
    /// Release the lock, connect to the backend and relay bytes.
    Connect,
    /// Give up on this connection and close it.
    Close,
}

/// What performing a step showed.
#[derive(Debug, Clone, Copy, PartialEq, Eq, Structural)]
pub enum LiveEvent {
    /// Whether the driver knows an address.
    AddrRead(bool),
    /// Whether the ping got a status response.
    Pinged(bool),
    /// Whether the start succeeded, and whether an address is known after it.
    Started { ok: bool, addr_known: bool },
}

/// The ensure-live transitions. A connection, or a close, is final; an
/// event that does not answer the step closes the connection.
pub open spec fn next_step_spec(step: LiveStep, event: LiveEvent) -> LiveStep {
    match (step, event) {
        (LiveStep::Connect, _) => LiveStep::Connect,
        (LiveStep::Close, _) => LiveStep::Close,
        (LiveStep::ReadAddr, LiveEvent::AddrRead(known)) => if known {
            LiveStep::Ping
        } else {
            LiveStep::Start
        },
        (LiveStep::Ping, LiveEvent::Pinged(ok)) => if ok {
            LiveStep::Connect
        } else {
            LiveStep::Start
        },
        (LiveStep::Start, LiveEvent::Started { ok, addr_known }) => if ok && addr_known {
            LiveStep::AwaitReady
        } else {
            LiveStep::Close
        },
        (LiveStep::AwaitReady, LiveEvent::Pinged(ok)) => if ok {
            LiveStep::Connect
        } else {
            LiveStep::AwaitReady
        },
        _ => LiveStep::Close,
    }
}

/// The step that follows `step` once `event` has been observed.
pub fn next_step(step: LiveStep, event: LiveEvent) -> (r: LiveStep)
    ensures
        r == next_step_spec(step, event),
{
    match step {
        LiveStep::Connect => LiveStep::Connect,
        LiveStep::Close => LiveStep::Close,
        LiveStep::ReadAddr => match event {
            LiveEvent::AddrRead(known) => if known {
                LiveStep::Ping
            } else {
                LiveStep::Start
            },
            _ => LiveStep::Close,
        },
        LiveStep::Ping => match event {
            LiveEvent::Pinged(ok) => if ok {
                LiveStep::Connect
            } else {
                LiveStep::Start
            },
            _ => LiveStep::Close,
        },
        LiveStep::Start => match event {
            LiveEvent::Started { ok, addr_known } => if ok && addr_known {
                LiveStep::AwaitReady
            } else {
                LiveStep::Close
            },
            _ => LiveStep::Close,
        },
        LiveStep::AwaitReady => match event {
            LiveEvent::Pinged(ok) => if ok {
                LiveStep::Connect
            } else {
                LiveStep::AwaitReady
            },
            _ => LiveStep::Close,
        },
    }
}

/// A backend as the dispatcher sees it: it answers pings exactly when it is
/// running and its address is known, and a start always succeeds. `starts`
/// counts the starts issued, `connected` the connections that reached it.
pub struct BackendModel {
    pub running: bool,
    pub addr_known: bool,
    pub starts: nat,
    pub connected: nat,
}

/// What performing `step` against `b` shows.
pub open spec fn observe(b: BackendModel, step: LiveStep) -> LiveEvent {
    match step {
        LiveStep::ReadAddr => LiveEvent::AddrRead(b.addr_known),
        LiveStep::Start => LiveEvent::Started { ok: true, addr_known: true },
        _ => LiveEvent::Pinged(b.running && b.addr_known),
    }
}

/// The backend after performing `step`.
pub open spec fn perform(b: BackendModel, step: LiveStep) -> BackendModel {
    match step {
        LiveStep::Start => BackendModel {
            running: true,
            addr_known: true,
            starts: b.starts + 1,
            ..b
        },
        LiveStep::Connect => BackendModel { connected: b.connected + 1, ..b },
        _ => b,
    }
}

/// Runs the sequence of one connection from `step`, for at most `fuel`
/// steps; it stops once it has connected or closed.
pub open spec fn run_handler(b: BackendModel, step: LiveStep, fuel: nat) -> (BackendModel, LiveStep)
    decreases fuel,
{
    if step == LiveStep::Close {
        (b, step)
    } else if step == LiveStep::Connect {
        (perform(b, step), step)
    } else if fuel == 0 {
        (b, step)
    } else {
        run_handler(perform(b, step), next_step_spec(step, observe(b, step)), (fuel - 1) as nat)
    }
}

/// `n` connections handled one after another, each holding the driver lock
/// for its whole sequence.
pub open spec fn serve(b: BackendModel, n: nat) -> BackendModel
    decreases n,
{
    if n == 0 {
        b
    } else {
        serve(run_handler(b, LiveStep::ReadAddr, 4).0, (n - 1) as nat)
    }
}

proof fn lemma_one_handler(b: BackendModel)
    ensures
        b.running && b.addr_known ==> run_handler(b, LiveStep::ReadAddr, 4).0 == (BackendModel {
            connected: b.connected + 1,
            ..b
        }),
        !(b.running && b.addr_known) ==> run_handler(b, LiveStep::ReadAddr, 4).0 == (BackendModel {
            running: true,
            addr_known: true,
            starts: b.starts + 1,
            connected: b.connected + 1,
        }),
{
    reveal_with_fuel(run_handler, 6);
}

proof fn lemma_serve_up(b: BackendModel, n: nat)
    requires
        b.running && b.addr_known,
    ensures
        serve(b, n) == (BackendModel { connected: b.connected + n, ..b }),
    decreases n,
{
    if n > 0 {
        lemma_one_handler(b);
        lemma_serve_up(run_handler(b, LiveStep::ReadAddr, 4).0, (n - 1) as nat);
    }
}

/// Connections that arrive while the backend is down, and that the driver
/// lock serialises, issue exactly one start between them, and every one of
/// them reaches the backend.
pub proof fn lemma_single_start(b: BackendModel, n: nat)
    requires
        !(b.running && b.addr_known),
        n >= 1,
    ensures
        serve(b, n).starts == b.starts + 1,
        serve(b, n).connected == b.connected + n,
{
    lemma_one_handler(b);
    let b1 = run_handler(b, LiveStep::ReadAddr, 4).0;
    lemma_serve_up(b1, (n - 1) as nat);
}

} // verus!
