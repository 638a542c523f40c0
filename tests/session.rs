use hypr_listener::{
    DecodeError, Event, EventKind, EventListener, LineBuffer, ListenError, ReadOutcome, Session,
    Status,
};

fn data(s: &str) -> ReadOutcome {
    ReadOutcome::Data(s.as_bytes().to_vec())
}

#[test]
fn line_buffer_keeps_unfinished_line() {
    let mut b = LineBuffer::new();
    assert!(b.feed(b"workspace>").is_empty());
    assert_eq!(b.feed(b">2\nfull"), vec![b"workspace>>2".to_vec()]);
    assert_eq!(b.feed(b"screen>>0\n\n"), vec![b"fullscreen>>0".to_vec(), Vec::new()]);
    assert!(b.feed(b"").is_empty());
}

#[test]
fn multi_line_chunk_gives_events_in_order() {
    let mut s = Session::new();
    let step = s.on_read(data("workspace>>2\ncreateworkspace>>3\n"));
    assert_eq!(step.events, vec![Event::WorkspaceChanged(2), Event::WorkspaceAdded(3)]);
    assert_eq!(step.status, Status::Reading);
    assert_eq!(s.status(), Status::Reading);
}

#[test]
fn multi_line_chunk_reaches_only_matching_handlers() {
    let mut l: EventListener<&str> = EventListener::new();
    l.add_workspace_change_handler("changed");
    l.add_workspace_added_handler("added");
    l.add_monitor_added_handler("monitor");
    l.add_workspace_destroy_handler("destroyed");
    let mut s = Session::new();
    let step = s.on_read(data("workspace>>2\ncreateworkspace>>3\n"));
    let calls = l.deliveries(&step.events);
    assert_eq!(
        calls,
        vec![("changed", Event::WorkspaceChanged(2)), ("added", Event::WorkspaceAdded(3))]
    );
}

#[test]
fn line_split_across_reads_gives_one_event() {
    let mut s = Session::new();
    let first = s.on_read(data("workspace>"));
    assert!(first.events.is_empty());
    assert_eq!(first.status, Status::Reading);
    let second = s.on_read(data(">2\n"));
    assert_eq!(second.events, vec![Event::WorkspaceChanged(2)]);
    assert_eq!(second.status, Status::Reading);
}

#[test]
fn zero_length_read_closes_after_events() {
    let mut s = Session::new();
    let step = s.on_read(data("workspace>>1\nworkspace>>2\nfullscreen>>1\n"));
    assert_eq!(step.events.len(), 3);
    let end = s.on_read(ReadOutcome::End);
    assert!(end.events.is_empty());
    assert_eq!(end.status, Status::Closed);
    assert_eq!(s.status(), Status::Closed);
}

#[test]
fn failed_read_is_a_transport_error() {
    let mut s = Session::new();
    s.on_read(data("workspace>>1\n"));
    let step = s.on_read(ReadOutcome::Failed);
    assert!(step.events.is_empty());
    assert_eq!(step.status, Status::Failed(ListenError::Transport));
    assert_eq!(s.status(), Status::Failed(ListenError::Transport));
}

#[test]
fn unfinished_line_at_end_is_dropped() {
    let mut s = Session::new();
    assert!(s.on_read(data("workspace>>2")).events.is_empty());
    let end = s.on_read(ReadOutcome::End);
    assert!(end.events.is_empty());
    assert_eq!(end.status, Status::Closed);
}

#[test]
fn bad_line_stops_after_events_before_it() {
    let mut s = Session::new();
    let step = s.on_read(data("workspace>>2\nbogus\nworkspace>>3\n"));
    assert_eq!(step.events, vec![Event::WorkspaceChanged(2)]);
    assert_eq!(step.status, Status::Failed(ListenError::Decode(DecodeError::Ambiguous)));
}

#[test]
fn blank_lines_are_skipped() {
    let mut s = Session::new();
    let step = s.on_read(data("\n  \nworkspace>>2\n\t\n"));
    assert_eq!(step.events, vec![Event::WorkspaceChanged(2)]);
    assert_eq!(step.status, Status::Reading);
}

#[test]
fn lines_are_trimmed_of_white_space() {
    let mut s = Session::new();
    let step = s.on_read(data(" monitoradded>>DP-1 \r\nactivewindow>>kitty,  zsh\u{a0}\n"));
    assert_eq!(
        step.events,
        vec![
            Event::MonitorAdded("DP-1".to_string()),
            Event::ActiveWindowChanged(Some(hypr_listener::WindowEventData(
                "kitty".to_string(),
                "  zsh".to_string()
            ))),
        ]
    );
}

#[test]
fn trim_removes_unicode_white_space_at_both_ends() {
    assert_eq!(hypr_listener::text::trim("\u{2003} a b\r\n"), "a b");
    assert_eq!(hypr_listener::text::trim(" \t "), "");
    assert_eq!(hypr_listener::text::trim("x"), "x");
}

#[test]
fn invalid_utf8_is_an_encoding_error() {
    let mut s = Session::new();
    let step = s.on_read(ReadOutcome::Data(vec![b'm', 0xff, b'\n']));
    assert!(step.events.is_empty());
    assert_eq!(step.status, Status::Failed(ListenError::Encoding));
}

#[test]
fn utf8_character_split_across_reads() {
    let mut s = Session::new();
    let bytes = "monitoradded>>é\n".as_bytes();
    let cut = bytes.len() - 2;
    assert!(s.on_read(ReadOutcome::Data(bytes[..cut].to_vec())).events.is_empty());
    let step = s.on_read(ReadOutcome::Data(bytes[cut..].to_vec()));
    assert_eq!(step.events, vec![Event::MonitorAdded("é".to_string())]);
}

#[test]
fn two_handlers_of_one_kind_run_in_registration_order() {
    let mut l: EventListener<u32> = EventListener::new();
    l.add_fullscreen_state_change_handler(1);
    l.add_fullscreen_state_change_handler(2);
    assert_eq!(l.handlers(EventKind::FullscreenStateChanged), &vec![1, 2]);
    let events = vec![Event::FullscreenStateChanged(true), Event::FullscreenStateChanged(false)];
    let calls = l.deliveries(&events);
    assert_eq!(
        calls,
        vec![
            (1, Event::FullscreenStateChanged(true)),
            (2, Event::FullscreenStateChanged(true)),
            (1, Event::FullscreenStateChanged(false)),
            (2, Event::FullscreenStateChanged(false)),
        ]
    );
}

#[test]
fn new_listener_has_no_handlers() {
    let l: EventListener<u32> = EventListener::new();
    assert!(l.handlers(EventKind::WorkspaceChanged).is_empty());
    assert!(l.deliveries(&vec![Event::WorkspaceChanged(1)]).is_empty());
}

#[test]
fn each_registration_goes_to_its_kind() {
    let mut l: EventListener<u32> = EventListener::new();
    l.add_workspace_change_handler(1);
    l.add_workspace_added_handler(2);
    l.add_workspace_destroy_handler(3);
    l.add_active_monitor_change_handler(4);
    l.add_active_window_change_handler(5);
    l.add_fullscreen_state_change_handler(6);
    l.add_monitor_added_handler(7);
    l.add_monitor_removed_handler(8);
    let kinds = [
        EventKind::WorkspaceChanged,
        EventKind::WorkspaceAdded,
        EventKind::WorkspaceDeleted,
        EventKind::ActiveMonitorChanged,
        EventKind::ActiveWindowChanged,
        EventKind::FullscreenStateChanged,
        EventKind::MonitorAdded,
        EventKind::MonitorRemoved,
    ];
    for (i, k) in kinds.iter().enumerate() {
        assert_eq!(l.handlers(*k), &vec![i as u32 + 1]);
    }
}

#[test]
fn event_kinds() {
    assert_eq!(Event::WorkspaceDeleted(1).kind(), EventKind::WorkspaceDeleted);
    assert_eq!(Event::MonitorRemoved(String::new()).kind(), EventKind::MonitorRemoved);
    assert_eq!(Event::ActiveWindowChanged(None).kind(), EventKind::ActiveWindowChanged);
}
