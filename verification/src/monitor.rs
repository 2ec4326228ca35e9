//! The directory watcher's event language.
//!
//! A filesystem watcher reports raw per-file events from the two state
//! directories; the library classifies each into the protocol's own event
//! alphabet, which the UI's reducer consumes.

use vstd::prelude::*;

use crate::path::Kind;

verus! {

/// What happened to a state file, in the protocol's terms.
#[derive(Clone, Copy, Debug, PartialEq, Eq, Structural)]
pub enum Event {
    New,
    Modified,
    Removed,
    Closed,
    Unknown,
}

/// One classified watcher event: what happened, in which state directory,
/// to which file.
#[derive(Debug)]
pub struct StateEvent {
    pub event: Event,
    pub kind: Kind,
    pub file_name: Vec<u8>,
}

/// A raw per-file notification, as a watcher reports it.
#[derive(Clone, Copy, Debug, PartialEq, Eq, Structural)]
pub enum RawEvent {
    Create,
    Modify,
    Delete,
    MovedFrom,
    MovedTo,
    CloseWrite,
    Other,
}

/// The protocol event a raw notification stands for: appearing by creation
/// or move-in, disappearing by deletion or move-out, rewritten in place,
/// or closed after writing — which is how a lock release shows up.
pub open spec fn spec_event_of(raw: RawEvent) -> Event {
    match raw {
        RawEvent::Modify => Event::Modified,
        RawEvent::Create => Event::New,
        RawEvent::MovedTo => Event::New,
        RawEvent::Delete => Event::Removed,
        RawEvent::MovedFrom => Event::Removed,
        RawEvent::CloseWrite => Event::Closed,
        RawEvent::Other => Event::Unknown,
    }
}

/// Classify one raw watcher notification.
pub fn monitor_map(raw: RawEvent, kind: Kind, file_name: Vec<u8>) -> (r: StateEvent)
    ensures
        r.event == spec_event_of(raw),
        r.kind == kind,
        r.file_name@ == file_name@,
{
    let event = match raw {
        RawEvent::Modify => Event::Modified,
        RawEvent::Create => Event::New,
        RawEvent::MovedTo => Event::New,
        RawEvent::Delete => Event::Removed,
        RawEvent::MovedFrom => Event::Removed,
        RawEvent::CloseWrite => Event::Closed,
        RawEvent::Other => Event::Unknown,
    };
    StateEvent { event, kind, file_name }
}

} // verus!
