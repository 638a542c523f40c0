//! Handler registration and the decisions of the listening loop.
//!
//! The loop itself (waiting on the socket, reading, calling handlers) runs
//! outside this crate. For each read it hands the outcome to
//! [`Session::on_read`], which says which events arrived and whether the
//! loop goes on, and [`EventListener::deliveries`] says which handler gets
//! which event, in which order.
use crate::event::{DecodeError, Event, EventKind, EventModel, MonitorEventData, WindowEventData};
use crate::grammar::{decode, decode_spec};
use crate::stream::{framed, has_no_newline, LineBuffer};
use crate::text::{text_of_bytes, trim, trimmed};
use vstd::prelude::*;
use vstd::utf8::{decode_utf8, valid_utf8};

verus! {

/// What one read of the channel gave.
pub enum ReadOutcome {
    /// Some bytes (never zero of them).
    Data(Vec<u8>),
    /// A read of zero bytes: the host closed the channel.
    End,
    /// The read failed.
    Failed,
}

/// Why listening stopped before the channel closed.
#[derive(Clone, Copy, Debug, PartialEq, Eq, Structural)]
pub enum ListenError {
    /// A read of the channel failed.
    Transport,
    /// A line is not valid UTF-8.
    Encoding,
    /// A line is not an event.
    Decode(DecodeError),
}

/// Where the loop stands.
#[derive(Clone, Copy, Debug, PartialEq, Eq, Structural)]
pub enum Status {
    /// It goes on reading.
    Reading,
    /// The channel closed; listening ended well.
    Closed,
    /// Listening ended with an error.
    Failed(ListenError),
}

/// The result of one read: the events to deliver, in order, and where the
/// loop stands after them.
pub struct Step {
    pub events: Vec<Event>,
    pub status: Status,
}

pub open spec fn events_view(events: Seq<Event>) -> Seq<EventModel> {
    events.map_values(|e: Event| e@)
}

/// What one complete line of bytes gives: its text is trimmed of white
/// space, a blank line gives nothing, and any other line must be an event.
pub open spec fn line_event(line: Seq<u8>) -> Result<Option<EventModel>, ListenError> {
    if !valid_utf8(line) {
        Err(ListenError::Encoding)
    } else if trimmed(decode_utf8(line)).len() == 0 {
        Ok(None)
    } else {
        match decode_spec(trimmed(decode_utf8(line))) {
            Ok(e) => Ok(Some(e)),
            Err(d) => Err(ListenError::Decode(d)),
        }
    }
}

/// The events of `lines` up to the first line that is not one, and the
/// error of that line.
pub open spec fn decode_lines(lines: Seq<Seq<u8>>) -> (Seq<EventModel>, Option<ListenError>)
    decreases lines.len(),
{
    if lines.len() == 0 {
        (Seq::empty(), None)
    } else {
        let (events, err) = decode_lines(lines.drop_last());
        if err is Some {
            (events, err)
        } else {
            match line_event(lines.last()) {
                Ok(Some(e)) => (events.push(e), None),
                Ok(None) => (events, None),
                Err(x) => (events, Some(x)),
            }
        }
    }
}

pub open spec fn status_after(err: Option<ListenError>) -> Status {
    match err {
        Some(e) => Status::Failed(e),
        None => Status::Reading,
    }
}

/// The state of one listening loop: the unfinished last line and where the
/// loop stands.
pub struct Session {
    buffer: LineBuffer,
    status: Status,
}

impl Session {
    pub closed spec fn pending(&self) -> Seq<u8> {
        self.buffer@
    }

    pub closed spec fn state(&self) -> Status {
        self.status
    }

    /// The kept remainder never holds a line break: every complete line
    /// has been handed out.
    pub open spec fn wf(&self) -> bool {
        has_no_newline(self.pending())
    }

    pub fn new() -> (r: Session)
        ensures
            r.wf(),
            has_no_newline(r.pending()),
            r.state() == Status::Reading,
            r.pending() == Seq::<u8>::empty(),
    {
        Session { buffer: LineBuffer::new(), status: Status::Reading }
    }

    pub fn status(&self) -> (r: Status)
        ensures
            r == self.state(),
    {
        self.status
    }

    /// Takes the outcome of one read.
    ///
    /// A read of zero bytes closes the loop well; an unfinished last line is
    /// then dropped, since the host never completed it. A failed read ends
    /// the loop with `Transport`. Bytes are cut into lines; each complete
    /// line is trimmed of white space and, unless blank, decoded in order.
    /// The first one that is not valid UTF-8 or not an event ends the loop
    /// with its error, after the events before it.
    pub fn on_read(&mut self, outcome: ReadOutcome) -> (r: Step)
        requires
            old(self).wf(),
            old(self).state() == Status::Reading,
        ensures
            final(self).wf(),
            has_no_newline(final(self).pending()),
            final(self).state() == r.status,
            match outcome {
                ReadOutcome::End => r.events@.len() == 0 && r.status == Status::Closed,
                ReadOutcome::Failed => r.events@.len() == 0 && r.status == Status::Failed(
                    ListenError::Transport,
                ),
                ReadOutcome::Data(bytes) => exists|lines: Seq<Seq<u8>>|
                    {
                        &&& framed(lines) + final(self).pending() == old(self).pending() + bytes@
                        &&& forall|i: int| 0 <= i < lines.len() ==> has_no_newline(#[trigger] lines[i])
                        &&& events_view(r.events@) == decode_lines(lines).0
                        &&& r.status == status_after(decode_lines(lines).1)
                    },
            },
    {
        match outcome {
            ReadOutcome::End => {
                self.status = Status::Closed;
                Step { events: Vec::new(), status: Status::Closed }
            },
            ReadOutcome::Failed => {
                self.status = Status::Failed(ListenError::Transport);
                Step { events: Vec::new(), status: Status::Failed(ListenError::Transport) }
            },
            ReadOutcome::Data(bytes) => {
                let mut lines = self.buffer.feed(bytes.as_slice());
                let ghost all = lines@.map_values(|l: Vec<u8>| l@);
                let n = lines.len();
                let mut events: Vec<Event> = Vec::new();
                let mut err: Option<ListenError> = None;
                let mut i: usize = 0;
                while i < n && err.is_none()
                    invariant
                        n == lines@.len(),
                        i <= n,
                        all.len() == n,
                        forall|j: int| i <= j < n ==> lines@[j]@ == #[trigger] all[j],
                        (events_view(events@), err) == decode_lines(all.subrange(0, i as int)),
                    decreases n - i,
                {
                    let mut line: Vec<u8> = Vec::new();
                    std::mem::swap(&mut line, &mut lines[i]);
                    assert(all.subrange(0, i + 1).drop_last() =~= all.subrange(0, i as int));
                    match text_of_bytes(line) {
                        None => {
                            err = Some(ListenError::Encoding);
                        },
                        Some(text) => {
                            let t = trim(text.as_str());
                            if t.unicode_len() > 0 {
                                match decode(t.as_str()) {
                                    Ok(e) => {
                                        let ghost before = events@;
                                        events.push(e);
                                        assert(events_view(events@) =~= events_view(before).push(
                                            e@,
                                        ));
                                    },
                                    Err(d) => {
                                        err = Some(ListenError::Decode(d));
                                    },
                                }
                            }
                        },
                    }
                    i = i + 1;
                }
                proof {
                    lemma_decode_lines_stops(all, i as int);
                }
                let status = match err {
                    Some(e) => Status::Failed(e),
                    None => Status::Reading,
                };
                self.status = status;
                Step { events, status }
            },
        }
    }
}

/// Once a line has failed, the lines after it change nothing.
proof fn lemma_decode_lines_stops(lines: Seq<Seq<u8>>, i: int)
    requires
        0 <= i <= lines.len(),
        i < lines.len() ==> decode_lines(lines.subrange(0, i)).1 is Some,
    ensures
        decode_lines(lines) == decode_lines(lines.subrange(0, i)),
    decreases lines.len() - i,
{
    if i < lines.len() {
        assert(lines.subrange(0, i + 1).drop_last() =~= lines.subrange(0, i));
        lemma_decode_lines_stops(lines, i + 1);
    } else {
        assert(lines.subrange(0, i) =~= lines);
    }
}

/// A copy of `e`, field for field.
pub fn copy_event(e: &Event) -> (r: Event)
    ensures
        r@ == e@,
{
    match e {
        Event::WorkspaceChanged(id) => Event::WorkspaceChanged(*id),
        Event::WorkspaceDeleted(id) => Event::WorkspaceDeleted(*id),
        Event::WorkspaceAdded(id) => Event::WorkspaceAdded(*id),
        Event::ActiveWindowChanged(w) => Event::ActiveWindowChanged(
            match w {
                Some(d) => Some(WindowEventData(d.0.clone(), d.1.clone())),
                None => None,
            },
        ),
        Event::ActiveMonitorChanged(m) => Event::ActiveMonitorChanged(
            MonitorEventData(m.0.clone(), m.1),
        ),
        Event::FullscreenStateChanged(b) => Event::FullscreenStateChanged(*b),
        Event::MonitorAdded(m) => Event::MonitorAdded(m.clone()),
        Event::MonitorRemoved(m) => Event::MonitorRemoved(m.clone()),
    }
}

/// The handlers registered for each kind of event, each list in the order
/// of registration. `H` is whatever the caller uses to stand for a handler.
pub struct EventListener<H> {
    workspace_changed_events: Vec<H>,
    workspace_added_events: Vec<H>,
    workspace_destroyed_events: Vec<H>,
    active_monitor_changed_events: Vec<H>,
    active_window_changed_events: Vec<H>,
    fullscreen_state_changed_events: Vec<H>,
    monitor_removed_events: Vec<H>,
    monitor_added_events: Vec<H>,
}

/// `after` is `before` with `f` registered last for `kind`.
pub open spec fn registered<H>(
    before: EventListener<H>,
    after: EventListener<H>,
    kind: EventKind,
    f: H,
) -> bool {
    &&& after.handlers_of(kind) == before.handlers_of(kind).push(f)
    &&& forall|k: EventKind| k != kind ==> after.handlers_of(k) == before.handlers_of(k)
}

/// The pairs of handler and event, in the order in which `listener` calls
/// them for `events`: event by event, and for each the handlers of its kind
/// in the order of registration.
pub open spec fn deliveries<H>(listener: EventListener<H>, events: Seq<EventModel>) -> Seq<
    (H, EventModel),
>
    decreases events.len(),
{
    if events.len() == 0 {
        Seq::empty()
    } else {
        deliveries(listener, events.drop_last()) + listener.handlers_of(
            events.last().kind(),
        ).map_values(|h: H| (h, events.last()))
    }
}

impl<H> EventListener<H> {
    pub closed spec fn handlers_of(&self, kind: EventKind) -> Seq<H> {
        match kind {
            EventKind::WorkspaceChanged => self.workspace_changed_events@,
            EventKind::WorkspaceAdded => self.workspace_added_events@,
            EventKind::WorkspaceDeleted => self.workspace_destroyed_events@,
            EventKind::ActiveMonitorChanged => self.active_monitor_changed_events@,
            EventKind::ActiveWindowChanged => self.active_window_changed_events@,
            EventKind::FullscreenStateChanged => self.fullscreen_state_changed_events@,
            EventKind::MonitorRemoved => self.monitor_removed_events@,
            EventKind::MonitorAdded => self.monitor_added_events@,
        }
    }

    /// A listener with no handlers.
    pub fn new() -> (r: EventListener<H>)
        ensures
            forall|k: EventKind| r.handlers_of(k) == Seq::<H>::empty(),
    {
        EventListener {
            workspace_changed_events: Vec::new(),
            workspace_added_events: Vec::new(),
            workspace_destroyed_events: Vec::new(),
            active_monitor_changed_events: Vec::new(),
            active_window_changed_events: Vec::new(),
            fullscreen_state_changed_events: Vec::new(),
            monitor_removed_events: Vec::new(),
            monitor_added_events: Vec::new(),
        }
    }

    /// Adds a handler for changes of the active workspace.
    pub fn add_workspace_change_handler(&mut self, f: H)
        ensures
            registered(*old(self), *final(self), EventKind::WorkspaceChanged, f),
    {
        self.workspace_changed_events.push(f);
    }

    /// Adds a handler for new workspaces.
    pub fn add_workspace_added_handler(&mut self, f: H)
        ensures
            registered(*old(self), *final(self), EventKind::WorkspaceAdded, f),
    {
        self.workspace_added_events.push(f);
    }

    /// Adds a handler for destroyed workspaces.
    pub fn add_workspace_destroy_handler(&mut self, f: H)
        ensures
            registered(*old(self), *final(self), EventKind::WorkspaceDeleted, f),
    {
        self.workspace_destroyed_events.push(f);
    }

    /// Adds a handler for changes of the active monitor.
    pub fn add_active_monitor_change_handler(&mut self, f: H)
        ensures
            registered(*old(self), *final(self), EventKind::ActiveMonitorChanged, f),
    {
        self.active_monitor_changed_events.push(f);
    }

    /// Adds a handler for changes of the active window.
    pub fn add_active_window_change_handler(&mut self, f: H)
        ensures
            registered(*old(self), *final(self), EventKind::ActiveWindowChanged, f),
    {
        self.active_window_changed_events.push(f);
    }

    /// Adds a handler for changes of the fullscreen state.
    pub fn add_fullscreen_state_change_handler(&mut self, f: H)
        ensures
            registered(*old(self), *final(self), EventKind::FullscreenStateChanged, f),
    {
        self.fullscreen_state_changed_events.push(f);
    }

    /// Adds a handler for monitors that are plugged in.
    pub fn add_monitor_added_handler(&mut self, f: H)
        ensures
            registered(*old(self), *final(self), EventKind::MonitorAdded, f),
    {
        self.monitor_added_events.push(f);
    }

    /// Adds a handler for monitors that are removed.
    pub fn add_monitor_removed_handler(&mut self, f: H)
        ensures
            registered(*old(self), *final(self), EventKind::MonitorRemoved, f),
    {
        self.monitor_removed_events.push(f);
    }

    /// The handlers of `kind`, in the order of registration.
    pub fn handlers(&self, kind: EventKind) -> (r: &Vec<H>)
        ensures
            r@ == self.handlers_of(kind),
    {
        match kind {
            EventKind::WorkspaceChanged => &self.workspace_changed_events,
            EventKind::WorkspaceAdded => &self.workspace_added_events,
            EventKind::WorkspaceDeleted => &self.workspace_destroyed_events,
            EventKind::ActiveMonitorChanged => &self.active_monitor_changed_events,
            EventKind::ActiveWindowChanged => &self.active_window_changed_events,
            EventKind::FullscreenStateChanged => &self.fullscreen_state_changed_events,
            EventKind::MonitorRemoved => &self.monitor_removed_events,
            EventKind::MonitorAdded => &self.monitor_added_events,
        }
    }
}

impl<H: Copy> EventListener<H> {
    /// Each call to make for `events`: the handler and its own copy of the
    /// event, in the order of [`deliveries`].
    pub fn deliveries(&self, events: &Vec<Event>) -> (r: Vec<(H, Event)>)
        ensures
            r@.map_values(|d: (H, Event)| (d.0, d.1@)) == deliveries(*self, events_view(events@)),
    {
        let mut r: Vec<(H, Event)> = Vec::new();
        let mut i: usize = 0;
        while i < events.len()
            invariant
                i <= events@.len(),
                r@.map_values(|d: (H, Event)| (d.0, d.1@)) == deliveries(
                    *self,
                    events_view(events@.subrange(0, i as int)),
                ),
            decreases events@.len() - i,
        {
            let e = &events[i];
            let hs = self.handlers(e.kind());
            let ghost done = r@.map_values(|d: (H, Event)| (d.0, d.1@));
            let mut j: usize = 0;
            while j < hs.len()
                invariant
                    j <= hs@.len(),
                    r@.map_values(|d: (H, Event)| (d.0, d.1@)) == done + hs@.subrange(
                        0,
                        j as int,
                    ).map_values(|h: H| (h, e@)),
                decreases hs@.len() - j,
            {
                let h: H = hs[j];
                let c = copy_event(e);
                let ghost prev = r@;
                r.push((h, c));
                assert(r@.map_values(|d: (H, Event)| (d.0, d.1@)) =~= prev.map_values(
                    |d: (H, Event)| (d.0, d.1@),
                ).push((h, e@)));
                assert(hs@.subrange(0, j + 1).map_values(|h: H| (h, e@)) =~= hs@.subrange(
                    0,
                    j as int,
                ).map_values(|h: H| (h, e@)).push((h, e@)));
                assert(r@.map_values(|d: (H, Event)| (d.0, d.1@)) =~= done + hs@.subrange(
                    0,
                    j + 1,
                ).map_values(|h: H| (h, e@)));
                j = j + 1;
            }
            proof {
                let evs = events_view(events@.subrange(0, i + 1));
                assert(evs.drop_last() =~= events_view(events@.subrange(0, i as int)));
                assert(evs.last() == e@);
                assert(hs@.subrange(0, hs@.len() as int) =~= hs@);
            }
            i = i + 1;
        }
        assert(events@.subrange(0, events@.len() as int) =~= events@);
        r
    }
}

/// Two handlers registered one after the other for the same kind are both
/// called for an event of that kind, the first before the second, after the
/// handlers that were there before them.
pub proof fn lemma_handlers_called_in_registration_order<H>(
    l0: EventListener<H>,
    l1: EventListener<H>,
    l2: EventListener<H>,
    f: H,
    g: H,
    e: EventModel,
)
    requires
        registered(l0, l1, e.kind(), f),
        registered(l1, l2, e.kind(), g),
    ensures
        deliveries(l2, seq![e]) == deliveries(l0, seq![e]) + seq![(f, e), (g, e)],
{
    let one = seq![e];
    assert(one.drop_last() =~= Seq::<EventModel>::empty());
    assert(one.last() == e);
    let k = e.kind();
    assert(l2.handlers_of(k) == l0.handlers_of(k).push(f).push(g));
    assert(l2.handlers_of(k).map_values(|h: H| (h, e)) =~= l0.handlers_of(k).map_values(
        |h: H| (h, e),
    ) + seq![(f, e), (g, e)]);
    assert(deliveries(l0, Seq::<EventModel>::empty()) == Seq::<(H, EventModel)>::empty());
    assert(deliveries(l2, Seq::<EventModel>::empty()) == Seq::<(H, EventModel)>::empty());
    assert(deliveries(l0, one) =~= l0.handlers_of(k).map_values(|h: H| (h, e)));
    assert(deliveries(l2, one) =~= l2.handlers_of(k).map_values(|h: H| (h, e)));
}

/// The calls for a run of events are the calls for each event, one after
/// the other: no event is handled twice, and none reaches a handler of
/// another kind.
pub proof fn lemma_deliveries_follow_events<H>(
    listener: EventListener<H>,
    a: Seq<EventModel>,
    b: Seq<EventModel>,
)
    ensures
        deliveries(listener, a + b) == deliveries(listener, a) + deliveries(listener, b),
    decreases b.len(),
{
    if b.len() == 0 {
        assert(a + b =~= a);
        assert(deliveries(listener, a) + deliveries(listener, b) =~= deliveries(listener, a));
    } else {
        assert((a + b).drop_last() =~= a + b.drop_last());
        assert((a + b).last() == b.last());
        lemma_deliveries_follow_events(listener, a, b.drop_last());
        assert(deliveries(listener, a + b) =~= deliveries(listener, a) + deliveries(listener, b));
    }
}

/// Decoding lines in two runs gives what decoding them in one does: the
/// second run counts only where the first ended without an error.
pub proof fn lemma_decode_lines_join(x: Seq<Seq<u8>>, y: Seq<Seq<u8>>)
    ensures
        decode_lines(x + y) == (if decode_lines(x).1 is Some {
            decode_lines(x)
        } else {
            (decode_lines(x).0 + decode_lines(y).0, decode_lines(y).1)
        }),
    decreases y.len(),
{
    if y.len() == 0 {
        assert(x + y =~= x);
        assert(decode_lines(x).0 + decode_lines(y).0 =~= decode_lines(x).0);
    } else {
        assert((x + y).drop_last() =~= x + y.drop_last());
        assert((x + y).last() == y.last());
        lemma_decode_lines_join(x, y.drop_last());
        if decode_lines(x).1 is None {
            let a = decode_lines(x).0;
            let b = decode_lines(y.drop_last()).0;
            match line_event(y.last()) {
                Ok(Some(e)) => {
                    assert(a + b.push(e) =~= (a + b).push(e));
                },
                _ => {},
            }
        }
    }
}

} // verus!
