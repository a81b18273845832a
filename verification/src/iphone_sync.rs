use vstd::prelude::*;

verus! {

/// The fixed TCP port probed for the vendor's sync service.
pub const IPHONE_SYNC_PORT: u16 = 62078;

/// Bound on how long one probe connection attempt may take, in milliseconds.
pub const CONNECTION_TIMEOUT_MS: u64 = 2000;

/// How one bounded-time connection attempt to the sync port ended.
#[derive(Clone, Copy, Debug, PartialEq, Eq, Structural)]
pub enum ProbeOutcome {
    /// The connection was accepted.
    Connected,
    /// The host refused the connection.
    Refused,
    /// No answer within the time budget.
    TimedOut,
    /// The attempt failed in some other way.
    Failed,
}

/// A probe attempt that failed for a reason outside the detection model
/// (anything but refusal or timeout); the run cannot reason about such an
/// environment and must stop.
#[derive(Clone, Copy, Debug, PartialEq, Eq, Structural)]
pub struct ProbeError;

/// Reads a probe's outcome: an accepted connection means the service is
/// present, refusal and timeout both mean it is absent (normal negative
/// signals, not errors), and anything else is fatal.
pub fn check_iphone_sync_port(outcome: ProbeOutcome) -> (r: Result<bool, ProbeError>)
    ensures
        outcome == ProbeOutcome::Connected ==> r == Ok::<bool, ProbeError>(true),
        outcome == ProbeOutcome::Refused ==> r == Ok::<bool, ProbeError>(false),
        outcome == ProbeOutcome::TimedOut ==> r == Ok::<bool, ProbeError>(false),
        outcome == ProbeOutcome::Failed ==> r == Err::<bool, ProbeError>(ProbeError),
{
    match outcome {
        ProbeOutcome::Connected => Ok(true),
        ProbeOutcome::Refused => Ok(false),
        ProbeOutcome::TimedOut => Ok(false),
        ProbeOutcome::Failed => Err(ProbeError),
    }
}

} // verus!
