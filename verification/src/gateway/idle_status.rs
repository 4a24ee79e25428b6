//! The idle-status monitor: whether the host that runs the bots is asleep,
//! waking up, or awake.
//!
//! The monitor is a state machine with a single writer. Its worker hands it
//! one input at a time, together with the current time, and sends on
//! whatever the step answers.

use crate::ids::ClientId;
use vstd::prelude::*;

verus! {

/// A point in time: seconds since the Unix epoch in UTC, and the nanoseconds
/// into that second.
#[derive(Clone, Copy, Debug, PartialEq, Eq, Hash, Structural)]
pub struct UtcTime {
    pub secs: i64,
    pub nanos: u32,
}

/// The running status of an expensive container host.
#[derive(Clone, Copy, Debug, PartialEq, Eq, Hash, Structural)]
pub enum IdleStatus {
    /// Asleep since the given time.
    Idle { since: UtcTime },
    /// Waking up since the given time.
    Booting { since: UtcTime },
    /// Awake.
    Online,
}

/// A client asks for the status.
#[derive(Clone, Copy, Debug, PartialEq, Eq, Hash, Structural)]
pub struct RequestIdleStatus(pub ClientId);

/// The status, for the client that asked.
#[derive(Clone, Copy, Debug, PartialEq, Eq, Hash, Structural)]
pub struct IdleStatusResponse(pub ClientId, pub IdleStatus);

/// Something was seen on the bus.
#[derive(Clone, Copy, Debug, PartialEq, Eq, Hash, Structural)]
pub struct KafkaActivityObserved;

/// The host is being shut down.
#[derive(Clone, Copy, Debug, PartialEq, Eq, Hash, Structural)]
pub struct ShutdownEvent;

/// One input of the monitor.
#[derive(Clone, Copy, Debug, PartialEq, Eq, Hash, Structural)]
pub enum MonitorInput {
    Activity(KafkaActivityObserved),
    Request(RequestIdleStatus),
    Shutdown(ShutdownEvent),
}

/// What one step of the monitor results in.
#[derive(Clone, Copy, Debug, PartialEq, Eq, Hash, Structural)]
pub struct MonitorStep {
    pub status: IdleStatus,
    pub response: Option<IdleStatusResponse>,
}

/// The status after `input` arrives at time `now`: activity on the bus means
/// the host is online, a shutdown puts it to sleep as of now, a request
/// changes nothing.
pub open spec fn next_status(status: IdleStatus, input: MonitorInput, now: UtcTime) -> IdleStatus {
    match input {
        MonitorInput::Activity(_) => IdleStatus::Online,
        MonitorInput::Request(_) => status,
        MonitorInput::Shutdown(_) => IdleStatus::Idle { since: now },
    }
}

/// The answer to `input`: a request is answered with the status as it
/// stands, nothing else is answered.
pub open spec fn reply(status: IdleStatus, input: MonitorInput) -> Option<IdleStatusResponse> {
    match input {
        MonitorInput::Request(RequestIdleStatus(client_id)) => Some(
            IdleStatusResponse(client_id, status),
        ),
        _ => None,
    }
}

/// The status with which the monitor starts at time `now`.
pub fn start_status(now: UtcTime) -> (status: IdleStatus)
    ensures
        status == (IdleStatus::Idle { since: now }),
{
    IdleStatus::Idle { since: now }
}

/// One step of the monitor.
pub fn step(status: IdleStatus, input: MonitorInput, now: UtcTime) -> (r: MonitorStep)
    ensures
        r.status == next_status(status, input, now),
        r.response == reply(status, input),
{
    match input {
        MonitorInput::Activity(_) => MonitorStep { status: IdleStatus::Online, response: None },
        MonitorInput::Request(RequestIdleStatus(client_id)) => MonitorStep {
            status,
            response: Some(IdleStatusResponse(client_id, status)),
        },
        MonitorInput::Shutdown(_) => MonitorStep {
            status: IdleStatus::Idle { since: now },
            response: None,
        },
    }
}

/// The status after a run of inputs, each with the time at which it arrived.
pub open spec fn status_after(
    status: IdleStatus,
    inputs: Seq<(MonitorInput, UtcTime)>,
) -> IdleStatus
    decreases inputs.len(),
{
    if inputs.len() == 0 {
        status
    } else {
        next_status(status_after(status, inputs.drop_last()), inputs.last().0, inputs.last().1)
    }
}

/// Whatever came before, the monitor is online after activity on the bus and
/// stays so until a shutdown; after a shutdown it is idle since the time of
/// the shutdown.
pub proof fn lemma_last_word(status: IdleStatus, inputs: Seq<(MonitorInput, UtcTime)>)
    requires
        inputs.len() > 0,
    ensures
        inputs.last().0 is Activity ==> status_after(status, inputs) == IdleStatus::Online,
        inputs.last().0 is Shutdown ==> status_after(status, inputs) == (IdleStatus::Idle {
            since: inputs.last().1,
        }),
        inputs.last().0 is Request ==> status_after(status, inputs) == status_after(
            status,
            inputs.drop_last(),
        ),
{
}

} // verus!
