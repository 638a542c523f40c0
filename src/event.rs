use vstd::prelude::*;

verus! {

/// A workspace number as the host reports it.
pub type WorkspaceId = u8;

/// The active window: its class, then its title.
#[derive(Debug, PartialEq, Eq)]
pub struct WindowEventData(pub String, pub String);

/// The active monitor: its name, then the workspace shown on it.
#[derive(Debug, PartialEq, Eq)]
pub struct MonitorEventData(pub String, pub WorkspaceId);

/// One decoded line of the stream.
#[derive(Debug, PartialEq, Eq)]
pub enum Event {
    WorkspaceChanged(WorkspaceId),
    WorkspaceDeleted(WorkspaceId),
    WorkspaceAdded(WorkspaceId),
    ActiveWindowChanged(Option<WindowEventData>),
    ActiveMonitorChanged(MonitorEventData),
    FullscreenStateChanged(bool),
    MonitorAdded(String),
    MonitorRemoved(String),
}

/// What an [`Event`] says, with its text fields as character sequences.
pub ghost enum EventModel {
    WorkspaceChanged(u8),
    WorkspaceDeleted(u8),
    WorkspaceAdded(u8),
    ActiveWindowChanged(Option<(Seq<char>, Seq<char>)>),
    ActiveMonitorChanged(Seq<char>, u8),
    FullscreenStateChanged(bool),
    MonitorAdded(Seq<char>),
    MonitorRemoved(Seq<char>),
}

/// The kinds of event; handlers are registered per kind.
#[derive(Clone, Copy, Debug, PartialEq, Eq, Structural)]
pub enum EventKind {
    WorkspaceChanged,
    WorkspaceDeleted,
    WorkspaceAdded,
    ActiveWindowChanged,
    ActiveMonitorChanged,
    FullscreenStateChanged,
    MonitorAdded,
    MonitorRemoved,
}

/// Why a line is not an event.
#[derive(Clone, Copy, Debug, PartialEq, Eq, Structural)]
pub enum DecodeError {
    /// The line matches no pattern of the grammar, or more than one.
    Ambiguous,
    /// A captured field does not convert to its type.
    FieldConversion,
}

impl View for Event {
    type V = EventModel;

    open spec fn view(&self) -> EventModel {
        match self {
            Event::WorkspaceChanged(id) => EventModel::WorkspaceChanged(*id),
            Event::WorkspaceDeleted(id) => EventModel::WorkspaceDeleted(*id),
            Event::WorkspaceAdded(id) => EventModel::WorkspaceAdded(*id),
            Event::ActiveWindowChanged(w) => EventModel::ActiveWindowChanged(
                match w {
                    Some(d) => Some((d.0@, d.1@)),
                    None => None,
                },
            ),
            Event::ActiveMonitorChanged(m) => EventModel::ActiveMonitorChanged(m.0@, m.1),
            Event::FullscreenStateChanged(b) => EventModel::FullscreenStateChanged(*b),
            Event::MonitorAdded(m) => EventModel::MonitorAdded(m@),
            Event::MonitorRemoved(m) => EventModel::MonitorRemoved(m@),
        }
    }
}

impl EventModel {
    pub open spec fn kind(self) -> EventKind {
        match self {
            EventModel::WorkspaceChanged(_) => EventKind::WorkspaceChanged,
            EventModel::WorkspaceDeleted(_) => EventKind::WorkspaceDeleted,
            EventModel::WorkspaceAdded(_) => EventKind::WorkspaceAdded,
            EventModel::ActiveWindowChanged(_) => EventKind::ActiveWindowChanged,
            EventModel::ActiveMonitorChanged(_, _) => EventKind::ActiveMonitorChanged,
            EventModel::FullscreenStateChanged(_) => EventKind::FullscreenStateChanged,
            EventModel::MonitorAdded(_) => EventKind::MonitorAdded,
            EventModel::MonitorRemoved(_) => EventKind::MonitorRemoved,
        }
    }
}

impl Event {
    /// The kind of this event, which picks the handlers it goes to.
    pub fn kind(&self) -> (r: EventKind)
        ensures
            r == self@.kind(),
    {
        match self {
            Event::WorkspaceChanged(_) => EventKind::WorkspaceChanged,
            Event::WorkspaceDeleted(_) => EventKind::WorkspaceDeleted,
            Event::WorkspaceAdded(_) => EventKind::WorkspaceAdded,
            Event::ActiveWindowChanged(_) => EventKind::ActiveWindowChanged,
            Event::ActiveMonitorChanged(_) => EventKind::ActiveMonitorChanged,
            Event::FullscreenStateChanged(_) => EventKind::FullscreenStateChanged,
            Event::MonitorAdded(_) => EventKind::MonitorAdded,
            Event::MonitorRemoved(_) => EventKind::MonitorRemoved,
        }
    }
}

} // verus!
