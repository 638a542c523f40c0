use hypr_listener::{decode, encode_line, Event, MonitorEventData, WindowEventData};

fn samples() -> Vec<Event> {
    vec![
        Event::WorkspaceChanged(0),
        Event::WorkspaceChanged(1),
        Event::WorkspaceChanged(7),
        Event::WorkspaceChanged(99),
        Event::WorkspaceDeleted(4),
        Event::WorkspaceAdded(10),
        Event::ActiveMonitorChanged(MonitorEventData("DP-1".to_string(), 12)),
        Event::ActiveMonitorChanged(MonitorEventData("a,5".to_string(), 3)),
        Event::ActiveMonitorChanged(MonitorEventData(String::new(), 0)),
        Event::ActiveWindowChanged(None),
        Event::ActiveWindowChanged(Some(WindowEventData("Firefox".to_string(), "My Page".to_string()))),
        Event::ActiveWindowChanged(Some(WindowEventData("a,b".to_string(), "ünï".to_string()))),
        Event::FullscreenStateChanged(true),
        Event::FullscreenStateChanged(false),
        Event::MonitorAdded("HDMI-A-1".to_string()),
        Event::MonitorAdded(String::new()),
        Event::MonitorAdded("a>b".to_string()),
        Event::MonitorRemoved(">x>".to_string()),
        Event::ActiveMonitorChanged(MonitorEventData(">m".to_string(), 5)),
        Event::MonitorRemoved("eDP-1".to_string()),
    ]
}

#[test]
fn decoding_an_encoded_event_gives_it_back() {
    for e in samples() {
        let line = encode_line(&e);
        assert_eq!(decode(&line), Ok(e), "line {line:?}");
    }
}

#[test]
fn encoded_lines() {
    assert_eq!(encode_line(&Event::WorkspaceChanged(7)), "workspace>>7");
    assert_eq!(encode_line(&Event::WorkspaceChanged(200)), "workspace>>200");
    assert_eq!(encode_line(&Event::WorkspaceDeleted(42)), "destroyworkspace>>42");
    assert_eq!(encode_line(&Event::WorkspaceAdded(3)), "createworkspace>>3");
    assert_eq!(
        encode_line(&Event::ActiveMonitorChanged(MonitorEventData("DP-1".to_string(), 12))),
        "activemon>>DP-1,12"
    );
    assert_eq!(encode_line(&Event::ActiveWindowChanged(None)), "activewindow>>,");
    assert_eq!(
        encode_line(&Event::ActiveWindowChanged(Some(WindowEventData("a".to_string(), "b".to_string())))),
        "activewindow>>a,b"
    );
    assert_eq!(encode_line(&Event::FullscreenStateChanged(true)), "fullscreen>>0");
    assert_eq!(encode_line(&Event::FullscreenStateChanged(false)), "fullscreen>>1");
    assert_eq!(encode_line(&Event::MonitorRemoved("x".to_string())), "monitorremoved>>x");
    assert_eq!(encode_line(&Event::MonitorAdded("y".to_string())), "monitoradded>>y");
}

// Three digits are more than the grammar reads.
#[test]
fn three_digit_workspace_does_not_round_trip() {
    assert_eq!(decode(&encode_line(&Event::WorkspaceChanged(200))), Ok(Event::WorkspaceChanged(20)));
}
