//! Decision logic of the download transfer task.
//!
//! A transfer task streams one HTTP response to disk. The surrounding loop
//! (network reads, file writes, event emission) lives outside the verified
//! core; each time something happens it hands the event to [`transfer_step`],
//! which decides what to report and whether the transfer is over.
//!
//! A total length of `0` means the server did not advertise one; progress is
//! then reported with an indeterminate percentage (`None`).

use vstd::prelude::*;

verus! {

/// Progress figures for one "download progress" notification.
#[derive(Clone, Copy, PartialEq, Eq, Structural, Debug)]
pub struct ProgressReport {
    /// Bytes written to the destination file so far.
    pub downloaded: u64,
    /// Advertised total length, `0` when the server gave none.
    pub total: u64,
    /// Whole percentage points, capped at 100; `None` when the total is unknown.
    pub percent: Option<u64>,
    /// Mean transfer speed in bytes per second since the task started.
    pub speed: u64,
}

/// What the transfer loop observed while waiting on the cancellation signal
/// and the next response chunk at the same time.
#[derive(Clone, Copy, PartialEq, Eq, Structural, Debug)]
pub enum TransferEvent {
    /// The cancellation signal fired before the next chunk arrived.
    Cancelled,
    /// A chunk of `len` bytes arrived; `write_ok` says whether appending it
    /// to the destination file succeeded.
    Chunk { len: u64, write_ok: bool },
    /// Reading the next chunk from the response stream failed.
    ChunkError,
    /// The response stream ended cleanly.
    StreamEnd,
}

/// What the transfer loop must do next. Every variant but `Progress` is
/// terminal: the loop emits the matching notification and stops.
#[derive(Clone, Copy, PartialEq, Eq, Structural, Debug)]
pub enum TransferAction {
    /// Emit a "download progress" notification and keep streaming.
    Progress(ProgressReport),
    /// Emit "download cancelled", delete the partial file, stop.
    EmitCancelled,
    /// Emit "download error", stop.
    EmitError,
    /// Emit "download complete", stop.
    EmitComplete,
}

/// Outcome of one step: the byte count carried into the next iteration,
/// the action owed to the front end, and whether the transfer is over.
#[derive(Clone, Copy, PartialEq, Eq, Structural, Debug)]
pub struct TransferStep {
    pub downloaded: u64,
    pub action: TransferAction,
    pub done: bool,
}

/// Whole percentage points transferred, capped at 100; `None` when the
/// total is unknown (advertised as `0`).
pub open spec fn spec_percent(downloaded: u64, total: u64) -> Option<u64> {
    if total == 0 {
        None
    } else if downloaded >= total {
        Some(100u64)
    } else {
        Some(((downloaded as int * 100) / (total as int)) as u64)
    }
}

/// Mean speed in bytes per second: `downloaded * 1000 / elapsed_ms`,
/// saturating at `u64::MAX`, and `0` before the clock has advanced.
pub open spec fn spec_speed(downloaded: u64, elapsed_ms: u64) -> u64 {
    if elapsed_ms == 0 {
        0u64
    } else if (downloaded as int * 1000) / (elapsed_ms as int) > u64::MAX {
        u64::MAX
    } else {
        (((downloaded as int) * 1000) / (elapsed_ms as int)) as u64
    }
}

proof fn lemma_percent_bound(d: int, t: int) by (nonlinear_arith)
    requires
        0 <= d < t,
    ensures
        0 <= (d * 100) / t < 100,
{
}

/// Percentage of `total` transferred so far, as the progress notification
/// reports it.
pub fn percent_of(downloaded: u64, total: u64) -> (r: Option<u64>)
    ensures
        r == spec_percent(downloaded, total),
{
    if total == 0 {
        None
    } else if downloaded >= total {
        Some(100)
    } else {
        proof {
            lemma_percent_bound(downloaded as int, total as int);
        }
        Some(((downloaded as u128 * 100) / (total as u128)) as u64)
    }
}

/// Mean transfer speed in bytes per second, as the progress notification
/// reports it.
pub fn speed_of(downloaded: u64, elapsed_ms: u64) -> (r: u64)
    ensures
        r == spec_speed(downloaded, elapsed_ms),
{
    if elapsed_ms == 0 {
        0
    } else {
        let q: u128 = (downloaded as u128) * 1000 / (elapsed_ms as u128);
        if q > u64::MAX as u128 {
            u64::MAX
        } else {
            q as u64
        }
    }
}

/// One decision of the transfer task: given the bytes already written, the
/// advertised total, the elapsed wall time, and what the concurrent wait on
/// {cancellation, next chunk} produced, say what to emit and whether to stop.
///
/// Cancellation wins whenever it is the event that arrived, a failed write or
/// read ends the transfer with an error, a clean end of stream completes it,
/// and a written chunk yields exactly one progress notification.
pub fn transfer_step(downloaded: u64, total: u64, elapsed_ms: u64, ev: TransferEvent) -> (r:
    TransferStep)
    requires
        ev matches TransferEvent::Chunk { len, write_ok } ==> downloaded + len <= u64::MAX,
    ensures
        ev matches TransferEvent::Cancelled ==> r == (TransferStep {
            downloaded,
            action: TransferAction::EmitCancelled,
            done: true,
        }),
        ev matches TransferEvent::ChunkError ==> r == (TransferStep {
            downloaded,
            action: TransferAction::EmitError,
            done: true,
        }),
        ev matches TransferEvent::StreamEnd ==> r == (TransferStep {
            downloaded,
            action: TransferAction::EmitComplete,
            done: true,
        }),
        ev matches TransferEvent::Chunk { len, write_ok } ==> ((!write_ok ==> r == (TransferStep {
            downloaded,
            action: TransferAction::EmitError,
            done: true,
        })) && (write_ok ==> r == (TransferStep {
            downloaded: (downloaded + len) as u64,
            action: TransferAction::Progress(ProgressReport {
                downloaded: (downloaded + len) as u64,
                total,
                percent: spec_percent((downloaded + len) as u64, total),
                speed: spec_speed((downloaded + len) as u64, elapsed_ms),
            }),
            done: false,
        }))),
{
    match ev {
        TransferEvent::Cancelled => TransferStep {
            downloaded,
            action: TransferAction::EmitCancelled,
            done: true,
        },
        TransferEvent::ChunkError => TransferStep {
            downloaded,
            action: TransferAction::EmitError,
            done: true,
        },
        TransferEvent::StreamEnd => TransferStep {
            downloaded,
            action: TransferAction::EmitComplete,
            done: true,
        },
        TransferEvent::Chunk { len, write_ok } => {
            if !write_ok {
                TransferStep { downloaded, action: TransferAction::EmitError, done: true }
            } else {
                let now: u64 = downloaded + len;
                TransferStep {
                    downloaded: now,
                    action: TransferAction::Progress(ProgressReport {
                        downloaded: now,
                        total,
                        percent: percent_of(now, total),
                        speed: speed_of(now, elapsed_ms),
                    }),
                    done: false,
                }
            }
        },
    }
}

} // verus!
