use hyprdrover::matcher::launched_window_matches;
use hyprdrover::records::HyprClient;
use hyprdrover::records::HyprWorkspaceRef;
use hyprdrover::restore::resolve_command;

fn client(address: &str, class: &str, initial_class: &str) -> HyprClient {
    HyprClient {
        address: address.to_string(),
        at_x: 0,
        at_y: 0,
        size_w: 800,
        size_h: 600,
        workspace: HyprWorkspaceRef { id: 1, name: "1".to_string() },
        class: class.to_string(),
        title: "window".to_string(),
        initial_class: initial_class.to_string(),
        initial_title: "window".to_string(),
        floating: false,
        pinned: false,
        monitor: 0,
        fullscreen: 0,
        xwayland: false,
        pid: 1000,
        exec_path: None,
    }
}

#[test]
fn equal_classes_match() {
    let saved = client("0x1", "Code", "Code");
    let live = client("0x2", "Code", "Code");
    assert!(launched_window_matches(&live, &saved));
}

#[test]
fn initial_class_matches_case_insensitively() {
    let mut saved = client("0x1", "", "code");
    let mut live = client("0x2", "", "Code");
    saved.class = "".to_string();
    live.class = "".to_string();
    assert!(launched_window_matches(&live, &saved));
}

#[test]
fn different_classes_do_not_match() {
    let saved = client("0x1", "kitty", "kitty");
    let live = client("0x2", "firefox", "firefox");
    assert!(!launched_window_matches(&live, &saved));
}

#[test]
fn saved_class_matches_live_initial_class() {
    let saved = client("0x1", "Brave-browser", "");
    let live = client("0x2", "some-late-name", "brave-browser");
    assert!(launched_window_matches(&live, &saved));
}

#[test]
fn equal_exec_paths_match_despite_classes() {
    let mut saved = client("0x1", "one", "one");
    let mut live = client("0x2", "two", "two");
    saved.exec_path = Some("/usr/bin/app".to_string());
    live.exec_path = Some("/usr/bin/app".to_string());
    assert!(launched_window_matches(&live, &saved));
}

#[test]
fn different_exec_paths_fall_back_to_classes() {
    let mut saved = client("0x1", "kitty", "kitty");
    let mut live = client("0x2", "kitty", "kitty");
    saved.exec_path = Some("/usr/bin/kitty".to_string());
    live.exec_path = Some("/opt/kitty/kitty".to_string());
    assert!(launched_window_matches(&live, &saved));
}

#[test]
fn empty_saved_classes_never_match() {
    let saved = client("0x1", "", "");
    let live = client("0x2", "", "");
    assert!(!launched_window_matches(&live, &saved));
}

#[test]
fn resolve_command_lowercases_the_class() {
    assert_eq!(resolve_command("Kitty"), "kitty".to_string());
}

#[test]
fn resolve_command_applies_alias_table() {
    assert_eq!(resolve_command("Brave-Browser"), "brave".to_string());
    assert_eq!(resolve_command("google-chrome"), "google-chrome-stable".to_string());
    assert_eq!(resolve_command("Com.Mitchellh.Ghostty"), "ghostty".to_string());
    assert_eq!(resolve_command("code"), "code".to_string());
}
