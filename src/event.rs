//! Activity events as the auditor sees them: a kind and a UTC instant.
use vstd::prelude::*;

verus! {

/// The account-activity kind whose events count as commits.
pub open spec fn push_type_name() -> Seq<char> {
    "PushEvent"@
}

/// What an activity event is, as far as the audit cares.
#[derive(Clone, Copy, Debug, PartialEq, Eq, Structural)]
pub enum EventKind {
    /// A push of commits: the one qualifying kind.
    Push,
    /// Any other activity; ignored by the audit.
    Other,
}

impl EventKind {
    /// Classifies an activity type name as reported by the event source.
    pub fn from_type_name(name: &str) -> (r: EventKind)
        ensures
            (r == EventKind::Push) == (name@ == push_type_name()),
    {
        let given = String::from_str(name);
        let push = String::from_str("PushEvent");
        if given == push {
            EventKind::Push
        } else {
            EventKind::Other
        }
    }
}

/// One activity record: its kind and the instant it happened, in seconds
/// since 1970-01-01T00:00:00Z.
#[derive(Clone, Copy, Debug, PartialEq, Eq, Structural)]
pub struct ActivityEvent {
    pub kind: EventKind,
    pub timestamp: i64,
}

impl ActivityEvent {
    /// Builds an event from the source's type name and timestamp.
    pub fn new(kind_name: &str, timestamp: i64) -> (r: ActivityEvent)
        ensures
            r.timestamp == timestamp,
            (r.kind == EventKind::Push) == (kind_name@ == push_type_name()),
    {
        ActivityEvent { kind: EventKind::from_type_name(kind_name), timestamp }
    }
}

/// The API route that lists the public events of `username`.
pub fn events_route(username: &str) -> (r: String)
    ensures
        r@ == "/users/"@ + username@ + "/events"@,
{
    let mut route = String::from_str("/users/");
    route.append(username);
    route.append("/events");
    route
}

} // verus!
