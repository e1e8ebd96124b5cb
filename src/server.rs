use vstd::prelude::*;
use crate::status::{Lookup, SlotView, StatusMap};

verus! {

/// The query of `GET /preview`: the preview file asked for.
pub struct QueryParams {
    pub path: String,
}

/// The content type of a served preview.
pub const PREVIEW_CONTENT_TYPE: &'static str = "image/webp";

pub const STATUS_OK: u16 = 200;

pub const STATUS_NOT_FOUND: u16 = 404;

pub const STATUS_SERVER_ERROR: u16 = 500;

/// What the preview endpoint does after a lookup.
pub enum ServeStep {
    /// Answer 404 at once: the path is not registered for the open directory.
    NotFound,
    /// Subscribe to the primitive of this generation and look up again once woken.
    Wait(u64),
    /// Open the file and stream it.
    Stream,
    /// Answer 500 with the diagnostic: generation failed.
    Fail(String),
}

/// The endpoint's answer to a lookup.
pub fn serve_step(lookup: Lookup) -> (r: ServeStep)
    ensures
        match lookup {
            Lookup::NotTracked => r is NotFound,
            Lookup::Pending(g) => r == ServeStep::Wait(g),
            Lookup::ReadyNow => r is Stream,
            Lookup::Failed(reason) => r is Fail && r->Fail_0@ == reason@,
        },
{
    match lookup {
        Lookup::NotTracked => ServeStep::NotFound,
        Lookup::Pending(g) => ServeStep::Wait(g),
        Lookup::ReadyNow => ServeStep::Stream,
        Lookup::Failed(reason) => ServeStep::Fail(reason),
    }
}

/// The status to answer at once: 404 for an unregistered path, 500 for a failed
/// generation; `None` while the request goes on (wait, or stream the file).
pub fn immediate_status(step: &ServeStep) -> (r: Option<u16>)
    ensures
        r == match step {
            ServeStep::NotFound => Some(STATUS_NOT_FOUND),
            ServeStep::Fail(_) => Some(STATUS_SERVER_ERROR),
            ServeStep::Wait(_) => None,
            ServeStep::Stream => None::<u16>,
        },
{
    match step {
        ServeStep::NotFound => Some(STATUS_NOT_FOUND),
        ServeStep::Fail(_) => Some(STATUS_SERVER_ERROR),
        ServeStep::Wait(_) => None,
        ServeStep::Stream => None,
    }
}

/// Looks `path` up in the map and decides the answer.
pub fn preview_step(map: &StatusMap, path: &str) -> (r: ServeStep)
    requires
        map.wf(),
    ensures
        !map@.contains_key(path@) ==> r is NotFound,
        map@.contains_key(path@) ==> match map@[path@] {
            SlotView::Pending(g) => r == ServeStep::Wait(g),
            SlotView::Ready => r is Stream,
            SlotView::Failed(reason) => r is Fail && r->Fail_0@ == reason,
        },
{
    serve_step(map.lookup(path))
}

/// The status of the answer once the file was opened, or could not be.
pub fn stream_status(opened: bool) -> (r: u16)
    ensures
        r == if opened {
            STATUS_OK
        } else {
            STATUS_NOT_FOUND
        },
{
    if opened {
        STATUS_OK
    } else {
        STATUS_NOT_FOUND
    }
}

/// The unit in which the health endpoint reports uptime.
#[derive(Clone, Copy, Debug, PartialEq, Eq, Structural)]
pub enum UptimeUnit {
    Second,
    Minute,
    Hour,
}

pub open spec fn uptime_unit_spec(secs: u64) -> UptimeUnit {
    if secs <= 60 {
        UptimeUnit::Second
    } else if secs <= 3600 {
        UptimeUnit::Minute
    } else {
        UptimeUnit::Hour
    }
}

/// Seconds up to a minute, minutes up to an hour, hours beyond.
pub fn uptime_unit(secs: u64) -> (r: UptimeUnit)
    ensures
        r == uptime_unit_spec(secs),
{
    if secs <= 60 {
        UptimeUnit::Second
    } else if secs <= 3600 {
        UptimeUnit::Minute
    } else {
        UptimeUnit::Hour
    }
}

impl UptimeUnit {
    /// Seconds in one unit.
    pub fn seconds(&self) -> (r: u64)
        ensures
            r == match self {
                UptimeUnit::Second => 1u64,
                UptimeUnit::Minute => 60u64,
                UptimeUnit::Hour => 3600u64,
            },
    {
        match self {
            UptimeUnit::Second => 1,
            UptimeUnit::Minute => 60,
            UptimeUnit::Hour => 3600,
        }
    }

    /// The unit's name as the health report spells it.
    pub fn name(&self) -> (r: &'static str)
        ensures
            r@ == match self {
                UptimeUnit::Second => "second"@,
                UptimeUnit::Minute => "minute"@,
                UptimeUnit::Hour => "hour"@,
            },
    {
        match self {
            UptimeUnit::Second => "second",
            UptimeUnit::Minute => "minute",
            UptimeUnit::Hour => "hour",
        }
    }
}

} // verus!
