use hyprdrover::adapter::Command;
use hyprdrover::addresses::AddressSet;
use hyprdrover::records::HyprClient;
use hyprdrover::records::HyprWorkspaceRef;
use hyprdrover::records::SessionSnapshot;
use hyprdrover::restore::RestoreError;
use hyprdrover::restore::ensure_restored;
use hyprdrover::restore::restore_session;
use hyprdrover::scripted::ScriptedAdapter;

fn client(address: &str, class: &str, workspace_id: i32) -> HyprClient {
    HyprClient {
        address: address.to_string(),
        at_x: 0,
        at_y: 0,
        size_w: 800,
        size_h: 600,
        workspace: HyprWorkspaceRef { id: workspace_id, name: workspace_id.to_string() },
        class: class.to_string(),
        title: class.to_string(),
        initial_class: class.to_string(),
        initial_title: class.to_string(),
        floating: false,
        pinned: false,
        monitor: 0,
        fullscreen: 0,
        xwayland: false,
        pid: 1000,
        exec_path: None,
    }
}

fn snapshot_of(clients: Vec<HyprClient>) -> SessionSnapshot {
    SessionSnapshot { clients, workspaces: Vec::new(), monitors: Vec::new() }
}

fn is_mutating_command(cmd: &Command) -> bool {
    matches!(
        cmd,
        Command::MoveToWorkspaceSilent { .. }
            | Command::MoveWindowPixel { .. }
            | Command::ResizeWindowPixel { .. }
            | Command::ToggleFloating { .. }
            | Command::ExecInWorkspace { .. }
    )
}

#[test]
fn settled_session_issues_no_mutating_commands() {
    // The live set already sits in the exact saved configuration, a floating
    // window included: no move, resize or floating toggle is issued and
    // nothing is spawned.
    let saved_a = {
        let mut c = client("0xa", "kitty", 1);
        c.at_x = 0;
        c.size_w = 960;
        c
    };
    let saved_b = {
        let mut c = client("0xb", "firefox", 1);
        c.at_x = 960;
        c.size_w = 960;
        c
    };
    let saved_float = {
        let mut c = client("0xf", "pavucontrol", 1);
        c.floating = true;
        c.at_x = 100;
        c.at_y = 120;
        c.size_w = 640;
        c.size_h = 480;
        c
    };
    let live = vec![saved_a.clone(), saved_b.clone(), saved_float.clone()];
    let mut adapter = ScriptedAdapter::new(vec![live], Some(1));
    let snapshot = snapshot_of(vec![saved_a, saved_b, saved_float]);

    let report = restore_session(&mut adapter, &snapshot).expect("restore should succeed");
    assert!(report.window_failures.is_empty());
    assert!(report.replay_failures.is_empty());
    assert!(adapter.issued.iter().all(|cmd| !is_mutating_command(cmd)));
}

#[test]
fn settled_floating_window_is_left_alone() {
    // A floating window already at its exact saved position and size gets no
    // commands at all.
    let saved = {
        let mut c = client("0xf", "pavucontrol", 1);
        c.floating = true;
        c.at_x = 100;
        c.at_y = 120;
        c.size_w = 640;
        c.size_h = 480;
        c
    };
    let live = saved.clone();
    let mut adapter = ScriptedAdapter::new(vec![Vec::new()], Some(1));
    let mut pool = vec![live];
    let baseline = AddressSet::new();
    let mut restored = AddressSet::new();

    let result = ensure_restored(&mut adapter, &saved, &mut pool, &baseline, &mut restored, 1000);
    assert!(result.is_ok());
    assert!(adapter.issued.is_empty());
}

#[test]
fn moved_floating_window_is_repositioned_only() {
    // A floating window at the wrong position but the right size is moved,
    // not resized.
    let saved = {
        let mut c = client("0xf", "pavucontrol", 1);
        c.floating = true;
        c.at_x = 100;
        c.at_y = 120;
        c.size_w = 640;
        c.size_h = 480;
        c
    };
    let live = {
        let mut c = saved.clone();
        c.at_x = 5;
        c.at_y = 7;
        c
    };
    let mut adapter = ScriptedAdapter::new(vec![Vec::new()], Some(1));
    let mut pool = vec![live];
    let baseline = AddressSet::new();
    let mut restored = AddressSet::new();

    let result = ensure_restored(&mut adapter, &saved, &mut pool, &baseline, &mut restored, 1000);
    assert!(result.is_ok());
    assert_eq!(
        adapter.issued,
        vec![Command::MoveWindowPixel { address: "0xf".to_string(), x: 100, y: 120 }]
    );
}

#[test]
fn launch_timeout_is_bounded() {
    // An adapter stub that never produces a matching window: the poller
    // gives up after timeout / interval polls with a timeout error naming
    // the saved window's class.
    let saved = client("0xdead", "kitty", 1);
    let mut adapter = ScriptedAdapter::new(vec![Vec::new()], Some(1));
    let mut pool: Vec<HyprClient> = Vec::new();
    let baseline = AddressSet::new();
    let mut restored = AddressSet::new();

    let result = ensure_restored(&mut adapter, &saved, &mut pool, &baseline, &mut restored, 1000);
    match result {
        Err(RestoreError::LaunchTimeout { class }) => assert_eq!(class, "kitty".to_string()),
        other => panic!("expected a launch timeout, got {:?}", other),
    }
    // 1000 ms at a 250 ms interval: exactly four polls, then the bound.
    assert_eq!(adapter.sleeps, 4);
    let execs = adapter
        .issued
        .iter()
        .filter(|cmd| matches!(cmd, Command::ExecInWorkspace { .. }))
        .count();
    assert_eq!(execs, 1);
}

#[test]
fn workspaces_are_processed_in_ascending_order() {
    // Saved windows on workspaces [2, 1, 1, 3] are processed as [1, 2, 3],
    // whatever the input order.
    let saved = vec![
        client("0x1", "one", 2),
        client("0x2", "two", 1),
        client("0x3", "three", 1),
        client("0x4", "four", 3),
    ];
    let live = saved.clone();
    let mut adapter = ScriptedAdapter::new(vec![live], Some(5));
    let snapshot = snapshot_of(saved);

    let report = restore_session(&mut adapter, &snapshot).expect("restore should succeed");
    assert_eq!(report.workspaces_processed, vec![1, 2, 3]);

    let switches: Vec<i32> = adapter
        .issued
        .iter()
        .filter_map(|cmd| match cmd {
            Command::SwitchWorkspace { workspace_id } => Some(*workspace_id),
            _ => None,
        })
        .collect();
    // Ascending visits, then the best-effort return to the original
    // workspace.
    assert_eq!(switches, vec![1, 2, 3, 5]);
}

#[test]
fn replay_failure_falls_back_to_unordered_restore() {
    // Three tiled windows; the leftmost is missing and its first launch
    // attempt fails, aborting the replay. The unordered fallback still
    // restores all three.
    let saved_a = {
        let mut c = client("0xa", "appa", 1);
        c.at_x = 0;
        c.size_w = 500;
        c
    };
    let saved_b = {
        let mut c = client("0xb", "appb", 1);
        c.at_x = 500;
        c.size_w = 500;
        c
    };
    let saved_c = {
        let mut c = client("0xc", "appc", 1);
        c.at_x = 1000;
        c.size_w = 500;
        c
    };
    let live_b = saved_b.clone();
    let live_c = saved_c.clone();
    let fresh_a = {
        let mut c = client("0xa2", "appa", 1);
        c.at_x = 0;
        c.size_w = 500;
        c
    };
    let polls = vec![
        vec![live_b.clone(), live_c.clone()],
        vec![live_b, live_c, fresh_a],
    ];
    let mut adapter = ScriptedAdapter::new(polls, Some(1));
    adapter.fail_exec_count = 1;
    let snapshot = snapshot_of(vec![saved_a, saved_b, saved_c]);

    let report = restore_session(&mut adapter, &snapshot).expect("restore should succeed");
    // The replay failure is reported for the workspace, but every window was
    // still restored by the fallback, so no per-window failure remains.
    assert_eq!(report.replay_failures.len(), 1);
    assert_eq!(report.replay_failures[0].0, 1);
    assert!(report.window_failures.is_empty());
    assert!(report.restored_addresses.contains("0xa2"));
    assert!(report.restored_addresses.contains("0xb"));
    assert!(report.restored_addresses.contains("0xc"));
}

#[test]
fn failed_launch_dispatch_is_fatal_for_the_window() {
    let saved = client("0xdead", "kitty", 1);
    let mut adapter = ScriptedAdapter::new(vec![Vec::new()], Some(1));
    adapter.fail_exec_count = 1;
    let mut pool: Vec<HyprClient> = Vec::new();
    let baseline = AddressSet::new();
    let mut restored = AddressSet::new();

    let result = ensure_restored(&mut adapter, &saved, &mut pool, &baseline, &mut restored, 1000);
    match result {
        Err(RestoreError::LaunchFailed { command, .. }) => {
            assert_eq!(command, "kitty".to_string());
        }
        other => panic!("expected a launch failure, got {:?}", other),
    }
    // Nothing was polled after the failed dispatch.
    assert_eq!(adapter.sleeps, 0);
}

#[test]
fn unreachable_adapter_aborts_the_whole_restore() {
    let saved = vec![client("0x1", "kitty", 1)];
    let mut adapter = ScriptedAdapter::new(vec![saved.clone()], Some(1));
    adapter.fail_queries = true;
    let snapshot = snapshot_of(saved);

    let result = restore_session(&mut adapter, &snapshot);
    assert!(matches!(result, Err(RestoreError::Adapter { .. })));
}

#[test]
fn poll_query_failure_reports_adapter_error() {
    let saved = client("0xdead", "kitty", 1);
    let mut adapter = ScriptedAdapter::new(vec![Vec::new()], Some(1));
    adapter.fail_queries = true;
    let mut pool: Vec<HyprClient> = Vec::new();
    let baseline = AddressSet::new();
    let mut restored = AddressSet::new();

    let result = ensure_restored(&mut adapter, &saved, &mut pool, &baseline, &mut restored, 1000);
    assert!(matches!(result, Err(RestoreError::Adapter { .. })));
}

#[test]
fn matched_window_is_moved_to_its_saved_workspace() {
    // The live window sits on workspace 2 while the saved record wants
    // workspace 1: one silent move is issued.
    let saved = client("0xa", "kitty", 1);
    let live = client("0xa", "kitty", 2);
    let mut adapter = ScriptedAdapter::new(vec![Vec::new()], Some(1));
    let mut pool = vec![live];
    let baseline = AddressSet::new();
    let mut restored = AddressSet::new();

    let result = ensure_restored(&mut adapter, &saved, &mut pool, &baseline, &mut restored, 1000);
    assert!(result.is_ok());
    assert!(pool.is_empty());
    assert!(restored.contains("0xa"));
    assert_eq!(
        adapter.issued,
        vec![Command::MoveToWorkspaceSilent { workspace_id: 1, address: "0xa".to_string() }]
    );
}

#[test]
fn floating_window_gets_exact_geometry() {
    let saved = {
        let mut c = client("0xa", "kitty", 1);
        c.floating = true;
        c.at_x = 10;
        c.at_y = 20;
        c.size_w = 300;
        c.size_h = 400;
        c
    };
    let live = client("0xa", "kitty", 1);
    let mut adapter = ScriptedAdapter::new(vec![Vec::new()], Some(1));
    let mut pool = vec![live];
    let baseline = AddressSet::new();
    let mut restored = AddressSet::new();

    let result = ensure_restored(&mut adapter, &saved, &mut pool, &baseline, &mut restored, 1000);
    assert!(result.is_ok());
    assert_eq!(
        adapter.issued,
        vec![
            Command::ToggleFloating { address: "0xa".to_string() },
            Command::MoveWindowPixel { address: "0xa".to_string(), x: 10, y: 20 },
            Command::ResizeWindowPixel { address: "0xa".to_string(), w: 300, h: 400 },
        ]
    );
}

#[test]
fn launched_window_is_polled_and_positioned() {
    // The pool has no match; the application is launched and its fresh
    // window appears on the second poll.
    let saved = client("0xold", "kitty", 1);
    let fresh = client("0xnew", "kitty", 1);
    let polls = vec![Vec::new(), Vec::new(), vec![fresh]];
    let mut adapter = ScriptedAdapter::new(polls, Some(1));
    let mut pool: Vec<HyprClient> = Vec::new();
    let baseline = AddressSet::new();
    let mut restored = AddressSet::new();

    let result = ensure_restored(&mut adapter, &saved, &mut pool, &baseline, &mut restored, 1000);
    let resolved = result.expect("the fresh window should be claimed");
    assert_eq!(resolved.address, "0xnew".to_string());
    assert!(restored.contains("0xnew"));
}

#[test]
fn baseline_windows_are_not_claimed_as_fresh() {
    // A matching window that was already alive before the launch is not
    // mistaken for the newly spawned one.
    let saved = client("0xold", "kitty", 1);
    let pre_existing = client("0xbase", "kitty", 1);
    let polls = vec![vec![pre_existing.clone()]];
    let mut adapter = ScriptedAdapter::new(polls, Some(1));
    let mut pool: Vec<HyprClient> = Vec::new();
    let mut baseline = AddressSet::new();
    baseline.insert("0xbase".to_string());
    let mut restored = AddressSet::new();

    let result = ensure_restored(&mut adapter, &saved, &mut pool, &baseline, &mut restored, 500);
    assert!(matches!(result, Err(RestoreError::LaunchTimeout { .. })));
}
