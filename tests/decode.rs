use hypr_listener::{decode, DecodeError, Event, MonitorEventData, WindowEventData};

fn window(class: &str, title: &str) -> Event {
    Event::ActiveWindowChanged(Some(WindowEventData(class.to_string(), title.to_string())))
}

#[test]
fn workspace_without_id_is_workspace_one() {
    assert_eq!(decode("workspace>>"), Ok(Event::WorkspaceChanged(1)));
}

#[test]
fn workspace_with_id() {
    assert_eq!(decode("workspace>>7"), Ok(Event::WorkspaceChanged(7)));
    assert_eq!(decode("workspace>>42"), Ok(Event::WorkspaceChanged(42)));
}

#[test]
fn workspace_takes_at_most_two_digits() {
    assert_eq!(decode("workspace>>123"), Ok(Event::WorkspaceChanged(12)));
}

#[test]
fn workspace_without_digits_is_workspace_one() {
    assert_eq!(decode("workspace>>name"), Ok(Event::WorkspaceChanged(1)));
}

#[test]
fn destroyed_and_created_workspaces() {
    assert_eq!(decode("destroyworkspace>>4"), Ok(Event::WorkspaceDeleted(4)));
    assert_eq!(decode("createworkspace>>3"), Ok(Event::WorkspaceAdded(3)));
    assert_eq!(decode("createworkspace>>99"), Ok(Event::WorkspaceAdded(99)));
}

#[test]
fn created_workspace_needs_a_digit() {
    assert_eq!(decode("createworkspace>>"), Err(DecodeError::Ambiguous));
}

#[test]
fn active_monitor() {
    assert_eq!(
        decode("activemon>>DP-1,2"),
        Ok(Event::ActiveMonitorChanged(MonitorEventData("DP-1".to_string(), 2)))
    );
}

#[test]
fn active_monitor_splits_at_last_comma_before_digits() {
    assert_eq!(
        decode("activemon>>a,b,1x,15"),
        Ok(Event::ActiveMonitorChanged(MonitorEventData("a,b,1x".to_string(), 15)))
    );
}

#[test]
fn active_window_both_fields_empty_is_none() {
    assert_eq!(decode("activewindow>>,"), Ok(Event::ActiveWindowChanged(None)));
}

#[test]
fn active_window_with_fields() {
    assert_eq!(decode("activewindow>>Firefox,My Page"), Ok(window("Firefox", "My Page")));
}

#[test]
fn active_window_one_field_empty_is_none() {
    assert_eq!(decode("activewindow>>kitty,"), Ok(Event::ActiveWindowChanged(None)));
    assert_eq!(decode("activewindow>>,title"), Ok(Event::ActiveWindowChanged(None)));
}

#[test]
fn active_window_title_follows_last_comma() {
    assert_eq!(decode("activewindow>>a,b,c"), Ok(window("a,b", "c")));
}

#[test]
fn active_window_keeps_non_ascii_text() {
    assert_eq!(decode("activewindow>>kitty,é ü ✓"), Ok(window("kitty", "é ü ✓")));
}

// The wire sends 0 when fullscreen is entered and 1 when it is left.
#[test]
fn fullscreen_zero_is_true_and_one_is_false() {
    assert_eq!(decode("fullscreen>>0"), Ok(Event::FullscreenStateChanged(true)));
    assert_eq!(decode("fullscreen>>1"), Ok(Event::FullscreenStateChanged(false)));
}

#[test]
fn fullscreen_other_state_is_ambiguous() {
    assert_eq!(decode("fullscreen>>2"), Err(DecodeError::Ambiguous));
}

#[test]
fn monitors_added_and_removed() {
    assert_eq!(decode("monitoradded>>HDMI-A-1"), Ok(Event::MonitorAdded("HDMI-A-1".to_string())));
    assert_eq!(decode("monitorremoved>>eDP-1"), Ok(Event::MonitorRemoved("eDP-1".to_string())));
    assert_eq!(decode("monitoradded>>"), Ok(Event::MonitorAdded(String::new())));
}

#[test]
fn line_matching_nothing_is_ambiguous() {
    assert_eq!(decode(""), Err(DecodeError::Ambiguous));
    assert_eq!(decode("openwindow>>abc"), Err(DecodeError::Ambiguous));
    assert_eq!(decode("workspace>"), Err(DecodeError::Ambiguous));
}

#[test]
fn line_matching_two_patterns_is_ambiguous() {
    assert_eq!(decode("monitoradded>>workspace>>1"), Err(DecodeError::Ambiguous));
    assert_eq!(decode("activewindow>>a,fullscreen>>1"), Err(DecodeError::Ambiguous));
}

#[test]
fn pattern_may_stand_after_other_text() {
    assert_eq!(decode("xx fullscreen>>1"), Ok(Event::FullscreenStateChanged(false)));
    assert_eq!(decode("x workspace>>5"), Ok(Event::WorkspaceChanged(5)));
}

// A Unicode word character before `workspace>>` hides it; other text does not.
#[test]
fn workspace_boundary_is_unicode() {
    assert_eq!(decode("1workspace>>3"), Err(DecodeError::Ambiguous));
    assert_eq!(decode("éworkspace>>3"), Err(DecodeError::Ambiguous));
    assert_eq!(decode("✓workspace>>3"), Ok(Event::WorkspaceChanged(3)));
}

#[test]
fn zero_padded_workspace_ids() {
    assert_eq!(decode("workspace>>07"), Ok(Event::WorkspaceChanged(7)));
    assert_eq!(decode("destroyworkspace>>00"), Ok(Event::WorkspaceDeleted(0)));
    assert_eq!(decode("createworkspace>>09"), Ok(Event::WorkspaceAdded(9)));
}

#[test]
fn single_angle_bracket_in_names_is_kept() {
    assert_eq!(decode("monitoradded>>a>b"), Ok(Event::MonitorAdded("a>b".to_string())));
    assert_eq!(decode("monitorremoved>>>x"), Ok(Event::MonitorRemoved(">x".to_string())));
}
