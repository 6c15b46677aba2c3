use hyprdrover::records::HyprClient;
use hyprdrover::records::HyprWorkspaceRef;
use hyprdrover::session::Config;
use hyprdrover::session::SessionManager;

fn client(address: &str, class: &str) -> HyprClient {
    HyprClient {
        address: address.to_string(),
        at_x: 0,
        at_y: 0,
        size_w: 800,
        size_h: 600,
        workspace: HyprWorkspaceRef { id: 1, name: "1".to_string() },
        class: class.to_string(),
        title: class.to_string(),
        initial_class: class.to_string(),
        initial_title: class.to_string(),
        floating: false,
        pinned: false,
        monitor: 0,
        fullscreen: 0,
        xwayland: false,
        pid: 1000,
        exec_path: None,
    }
}

#[test]
fn test_session_manager_creation() {
    let config = Config::new("sessions".to_string());
    let _manager = SessionManager::new(config);
}

#[test]
fn config_keeps_session_dir_and_ignores_helpers() {
    let config = Config::new("/tmp/sessions".to_string());
    assert_eq!(config.session_dir, "/tmp/sessions".to_string());
    assert!(config.ignored_classes.contains(&"rofi".to_string()));
    assert!(config.ignored_classes.contains(&"waybar".to_string()));
    assert!(config.ignored_classes.contains(&"dunst".to_string()));
}

#[test]
fn snapshot_filter_drops_ignored_classes() {
    let config = Config::new("sessions".to_string());
    let manager = SessionManager::new(config);
    let clients = vec![
        client("0x1", "kitty"),
        client("0x2", "rofi"),
        client("0x3", "waybar"),
        client("0x4", "firefox"),
    ];
    let kept = manager.filter_ignored_clients(&clients);
    let kept_classes: Vec<String> = kept.iter().map(|c| c.class.clone()).collect();
    assert_eq!(kept_classes, vec!["kitty".to_string(), "firefox".to_string()]);
}

#[test]
fn snapshot_filter_keeps_everything_else() {
    let config = Config::new("sessions".to_string());
    let manager = SessionManager::new(config);
    let clients = vec![client("0x1", "kitty"), client("0x2", "firefox")];
    let kept = manager.filter_ignored_clients(&clients);
    assert_eq!(kept.len(), 2);
}
