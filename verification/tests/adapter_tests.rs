use hyprdrover::adapter::{
    dispatch_best_effort, focus_window, move_window_pixel, move_window_to_workspace,
    resize_window_pixel, BestEffort, Command,
};
use hyprdrover::addresses::AddressSet;
use hyprdrover::scripted::ScriptedAdapter;

fn fresh_adapter() -> ScriptedAdapter {
    ScriptedAdapter::new(Vec::new(), Some(1))
}

#[test]
fn helpers_issue_the_expected_commands() {
    let mut adapter = fresh_adapter();
    move_window_to_workspace(&mut adapter, "0xa", 3).expect("dispatch should succeed");
    focus_window(&mut adapter, "0xa").expect("dispatch should succeed");
    move_window_pixel(&mut adapter, "0xa", 15, 25).expect("dispatch should succeed");
    resize_window_pixel(&mut adapter, "0xa", 640, 480).expect("dispatch should succeed");
    assert_eq!(
        adapter.issued,
        vec![
            Command::MoveToWorkspaceSilent { workspace_id: 3, address: "0xa".to_string() },
            Command::FocusWindow { address: "0xa".to_string() },
            Command::MoveWindowPixel { address: "0xa".to_string(), x: 15, y: 25 },
            Command::ResizeWindowPixel { address: "0xa".to_string(), w: 640, h: 480 },
        ]
    );
}

#[test]
fn best_effort_swallows_dispatch_failures() {
    let mut adapter = fresh_adapter();
    adapter.fail_other_dispatch = true;
    let outcome =
        dispatch_best_effort(&mut adapter, &Command::SwitchWorkspace { workspace_id: 2 });
    assert_eq!(outcome, BestEffort::FailureTolerated);
    // The failed command was still recorded as issued.
    assert_eq!(adapter.issued.len(), 1);
}

#[test]
fn best_effort_reports_success() {
    let mut adapter = fresh_adapter();
    let outcome =
        dispatch_best_effort(&mut adapter, &Command::SwitchWorkspace { workspace_id: 2 });
    assert_eq!(outcome, BestEffort::Applied);
}

#[test]
fn address_set_tracks_membership() {
    let mut set = AddressSet::new();
    assert!(!set.contains("0xa"));
    set.insert("0xa".to_string());
    assert!(set.contains("0xa"));
    assert!(!set.contains("0xb"));
    set.insert("0xb".to_string());
    assert!(set.contains("0xa"));
    assert!(set.contains("0xb"));
}
