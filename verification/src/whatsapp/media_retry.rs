//! Recovering media whose download address has expired: one re-upload request
//! and one second attempt.
use vstd::prelude::*;

verus! {

/// Where a download stands.
#[derive(Clone, Copy, PartialEq, Eq, Structural, Debug)]
pub enum RetryState {
    /// The first download is in flight.
    First,
    /// The server was asked to upload the media again.
    Reupload,
    /// The second download is in flight.
    Second,
    /// Finished, with or without bytes.
    Done,
}

/// What the outside reports.
pub enum RetryEvent {
    /// A download brought the media.
    Downloaded,
    /// A download failed; `has_key` tells whether the media carries the key
    /// that a re-upload needs.
    DownloadFailed { has_key: bool },
    /// The server uploaded the media again, under this path.
    Reuploaded(String),
    /// The server declined, or the request failed.
    ReuploadFailed,
}

/// What to do next.
pub enum RetryAction {
    /// Hand out the downloaded bytes.
    Deliver,
    /// Ask the server to upload the media again.
    RequestReupload,
    /// Download again from this path.
    DownloadFrom(String),
    /// Report failure.
    GiveUp,
}

/// How far a state is from the end.
pub open spec fn distance(s: RetryState) -> nat {
    match s {
        RetryState::First => 3,
        RetryState::Reupload => 2,
        RetryState::Second => 1,
        RetryState::Done => 0,
    }
}

/// One step of a download. Failure is reported only when both attempts, or
/// the request between them, failed.
pub fn step(state: RetryState, event: RetryEvent) -> (r: (RetryState, RetryAction))
    ensures
        match (state, event) {
            (RetryState::First, RetryEvent::Downloaded) => r.0 == RetryState::Done
                && r.1 is Deliver,
            (RetryState::First, RetryEvent::DownloadFailed { has_key }) => if has_key {
                r.0 == RetryState::Reupload && r.1 is RequestReupload
            } else {
                r.0 == RetryState::Done && r.1 is GiveUp
            },
            (RetryState::Reupload, RetryEvent::Reuploaded(path)) => r.0 == RetryState::Second
                && r.1 == RetryAction::DownloadFrom(path),
            (RetryState::Second, RetryEvent::Downloaded) => r.0 == RetryState::Done
                && r.1 is Deliver,
            _ => r.0 == RetryState::Done && r.1 is GiveUp,
        },
        state != RetryState::Done ==> distance(r.0) < distance(state),
{
    match (state, event) {
        (RetryState::First, RetryEvent::Downloaded) => (RetryState::Done, RetryAction::Deliver),
        (RetryState::First, RetryEvent::DownloadFailed { has_key }) => if has_key {
            (RetryState::Reupload, RetryAction::RequestReupload)
        } else {
            (RetryState::Done, RetryAction::GiveUp)
        },
        (RetryState::Reupload, RetryEvent::Reuploaded(path)) => (
            RetryState::Second,
            RetryAction::DownloadFrom(path),
        ),
        (RetryState::Second, RetryEvent::Downloaded) => (RetryState::Done, RetryAction::Deliver),
        _ => (RetryState::Done, RetryAction::GiveUp),
    }
}

/// A download ends: every state but the last has fewer steps left than the one
/// before it, three at most.
pub proof fn law_retries_end(s: RetryState)
    ensures
        distance(s) <= 3,
        distance(s) == 0 <==> s == RetryState::Done,
        distance(RetryState::First) > distance(RetryState::Reupload) > distance(RetryState::Second)
            > distance(RetryState::Done),
{
}

} // verus!
