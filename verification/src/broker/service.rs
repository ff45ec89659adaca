//! Registering the broker as a Windows service: whether an existing registration points elsewhere,
//! and how to bring the service up.

use crate::text::{contains, has};
use vstd::prelude::*;

verus! {

/// What starting a service that runs already fails with. That is the normal case of an upgrade.
pub const ERROR_SERVICE_ALREADY_RUNNING: i32 = 1056;

/// A text in lower case, as `str::to_lowercase` makes it.
pub uninterp spec fn lower_case(s: Seq<char>) -> Seq<char>;

/// `str::to_lowercase`: the text with every character in Unicode lower case, a function of the
/// text.
#[verifier::external_body]
fn lower(s: &str) -> (r: String)
    ensures
        r@ == lower_case(s@),
{
    s.to_lowercase()
}

/// Whether a command line, both in lower case, launches a binary: the path stands in it, in quotes
/// and with arguments behind it.
pub fn launches(command: &str, exe: &str) -> (r: bool)
    ensures
        r == has(command@, exe@),
{
    contains(command, exe)
}

/// Whether the registered command line launches the binary.
pub fn points_at(command: &str, exe: &str) -> (r: bool)
    ensures
        r == has(lower_case(command@), lower_case(exe@)),
{
    launches(lower(command).as_str(), lower(exe).as_str())
}

/// Whether an installation stops the service and rewrites its registration: it existed and launches
/// another binary. `points_here` is none when the registration could not be read.
pub fn needs_repoint(existed: bool, points_here: Option<bool>) -> (r: bool)
    ensures
        r == (existed && points_here != Some(true)),
{
    existed && match points_here {
        Some(yes) => !yes,
        None => true,
    }
}

/// The state that the system reports of a service.
#[derive(Debug, Clone, Copy, PartialEq, Eq, Structural)]
pub enum ServiceState {
    Stopped,
    StartPending,
    StopPending,
    Running,
    Other,
}

/// How to bring the service up.
#[derive(Debug, Clone, Copy, PartialEq, Eq, Structural)]
pub enum Bring {
    /// It is up, or on its way.
    Done,
    /// It is going down: let it land, then start it.
    WaitThenStart,
    Start,
}

/// How to bring the service up from the state it is in, if that is known.
pub fn bring_up(state: Option<ServiceState>) -> (r: Bring)
    ensures
        r == match state {
            Some(ServiceState::Running) => Bring::Done,
            Some(ServiceState::StartPending) => Bring::Done,
            Some(ServiceState::StopPending) => Bring::WaitThenStart,
            _ => Bring::Start,
        },
{
    match state {
        Some(ServiceState::Running) => Bring::Done,
        Some(ServiceState::StartPending) => Bring::Done,
        Some(ServiceState::StopPending) => Bring::WaitThenStart,
        _ => Bring::Start,
    }
}

/// Whether a start that failed with the given code left the service up all the same.
pub fn is_up_anyway(code: Option<i32>) -> (r: bool)
    ensures
        r == (code == Some(ERROR_SERVICE_ALREADY_RUNNING)),
{
    match code {
        Some(c) => c == ERROR_SERVICE_ALREADY_RUNNING,
        None => false,
    }
}

} // verus!
