use hypr_listener::{decode, DecodeError, Event, MonitorEventData, WindowEventData};
use regex::{Regex, RegexSet};

const PATTERNS: [&str; 8] = [
    r"\bworkspace>>(?P<workspace>[0-9]{1,2}|)",
    r"destroyworkspace>>(?P<workspace>[0-9]{1,2})",
    r"createworkspace>>(?P<workspace>[0-9]{1,2})",
    r"activemon>>(?P<monitor>.*),(?P<workspace>[0-9]{1,2})",
    r"activewindow>>(?P<class>.*),(?P<title>.*)",
    r"fullscreen>>(?P<state>0|1)",
    r"monitorremoved>>(?P<monitor>.*)",
    r"monitoradded>>(?P<monitor>.*)",
];

// The same grammar, read with regular expressions.
fn decode_with_regex(line: &str) -> Result<Event, DecodeError> {
    let set = RegexSet::new(PATTERNS).unwrap();
    let hits: Vec<usize> = set.matches(line).into_iter().collect();
    if hits.len() != 1 {
        return Err(DecodeError::Ambiguous);
    }
    let caps = Regex::new(PATTERNS[hits[0]]).unwrap().captures(line).unwrap();
    let num = |name: &str| caps[name].parse::<u8>().unwrap();
    Ok(match hits[0] {
        0 => Event::WorkspaceChanged(if caps["workspace"].is_empty() { 1 } else { num("workspace") }),
        1 => Event::WorkspaceDeleted(num("workspace")),
        2 => Event::WorkspaceAdded(num("workspace")),
        3 => Event::ActiveMonitorChanged(MonitorEventData(caps["monitor"].to_string(), num("workspace"))),
        4 => {
            if caps["class"].is_empty() || caps["title"].is_empty() {
                Event::ActiveWindowChanged(None)
            } else {
                Event::ActiveWindowChanged(Some(WindowEventData(
                    caps["class"].to_string(),
                    caps["title"].to_string(),
                )))
            }
        }
        5 => Event::FullscreenStateChanged(&caps["state"] == "0"),
        6 => Event::MonitorRemoved(caps["monitor"].to_string()),
        _ => Event::MonitorAdded(caps["monitor"].to_string()),
    })
}

#[test]
fn decoder_agrees_with_regular_expressions() {
    let lines = [
        "", "workspace>>", "workspace>>3", "workspace>>123", "workspace>>x", "xworkspace>>3",
        "_workspace>>3", "-workspace>>3", "éworkspace>>3", "✓workspace>>3", "٣workspace>>3","destroyworkspace>>1",
        "destroyworkspace>>", "destroyworkspace>>x1", "createworkspace>>42",
        "createworkspace>>420", "activemon>>DP-1,2", "activemon>>DP-1,", "activemon>>,7",
        "activemon>>a,1,b,22", "activemon>>a,b", "activewindow>>,", "activewindow>>a,",
        "activewindow>>,b", "activewindow>>a,b", "activewindow>>a,b,c", "activewindow>>ab",
        "activewindow>>a>>b,c", "fullscreen>>0", "fullscreen>>1", "fullscreen>>10",
        "fullscreen>>", "monitorremoved>>", "monitorremoved>>HDMI-A-1", "monitoradded>>DP-2",
        "monitoradded>>workspace>>1", "monitoradded>>monitorremoved>>x",
        "activewindow>>fullscreen>>1,x", "junk activemon>>m,3", "activemon>>m,3activemon>>n,4",
        "workspace>>2workspace>>3", "activewindow>>kitty,ünï ✓",
    ];
    for line in lines {
        assert_eq!(decode(line), decode_with_regex(line), "line {line:?}");
    }
}
