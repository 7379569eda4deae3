use sysconfig::error::Error;
use sysconfig::json::Json;
use sysconfig::service::{Plugin, SysConfigService};
use sysconfig::state::SystemState;

fn plugin(id: &str, socket: &str) -> Plugin {
    Plugin {
        id: id.to_string(),
        name: format!("{} plugin", id),
        description: "test plugin".to_string(),
        socket_path: socket.to_string(),
        managed_paths: vec!["network".to_string()],
    }
}

fn state_with(key: &str, value: &str) -> SystemState {
    let mut s = SystemState::new();
    s.set(key, Json::Str(value.to_string())).unwrap();
    s
}

#[test]
fn test_register_and_get_plugin() {
    let mut service = SysConfigService::new(None);
    service.register_plugin(plugin("p1", "/tmp/p1.sock")).unwrap();
    service.register_plugin(plugin("p2", "/tmp/p2.sock")).unwrap();
    service.register_plugin(plugin("p1", "/tmp/p1-new.sock")).unwrap();
    assert_eq!(service.get_plugin("p1").unwrap().socket_path, "/tmp/p1-new.sock");
    assert!(service.get_plugin("p3").is_none());
    assert_eq!(service.get_plugins().len(), 2);
}

#[test]
fn test_lock_and_unlock() {
    let mut service = SysConfigService::new(None);
    assert!(service.lock_state("network", "p1").unwrap());
    assert!(service.is_locked_by("network", "p1"));
    assert!(!service.is_locked_by_other("network", "p1"));
    assert!(service.is_locked_by_other("network", "p2"));
    assert!(!service.lock_state("network", "p2").unwrap());
    assert!(!service.unlock_state("network", "p2").unwrap());
    assert!(service.unlock_state("network", "p1").unwrap());
    assert!(!service.is_locked_by("network", "p1"));
    assert!(service.lock_state("network", "p2").unwrap());
}

#[test]
fn test_apply_state_refused_by_lock() {
    let mut service = SysConfigService::new(None);
    service.lock_state("hostname", "owner").unwrap();
    let result = service.apply_state(state_with("hostname", "new"), false, "intruder");
    match result {
        Err(Error::Lock(m)) => assert_eq!(m, "Path is locked by another plugin: hostname"),
        _ => panic!("expected a lock error"),
    }
    assert!(service.get_state("hostname").is_err());
}

#[test]
fn test_apply_state_by_owner_and_dry_run() {
    let mut service = SysConfigService::new(None);
    service.lock_state("hostname", "owner").unwrap();
    let changes = service.apply_state(state_with("hostname", "dry"), true, "owner").unwrap();
    assert!(changes.is_empty());
    assert!(service.get_state("hostname").is_err());
    service.apply_state(state_with("hostname", "real"), false, "owner").unwrap();
    match service.get_state("hostname").unwrap() {
        Json::Str(s) => assert_eq!(s, "real"),
        _ => panic!("expected a string"),
    }
    match service.get_state("missing") {
        Err(Error::State(m)) => assert_eq!(m, "Path not found: missing"),
        _ => panic!("expected a state error"),
    }
}

#[test]
fn test_apply_state_unrelated_lock() {
    let mut service = SysConfigService::new(Some(state_with("dns", "1.1.1.1")));
    service.lock_state("network", "owner").unwrap();
    assert!(service.apply_state(state_with("hostname", "x"), false, "other").is_ok());
}

#[test]
fn test_action_plugin_choice() {
    let mut service = SysConfigService::new(None);
    match service.action_plugin(None) {
        Err(Error::Plugin(m)) => assert_eq!(m, "No plugins registered"),
        _ => panic!("expected a plugin error"),
    }
    service.register_plugin(plugin("p1", "/tmp/p1.sock")).unwrap();
    assert_eq!(service.action_plugin(None).unwrap().id, "p1");
    match service.action_plugin(Some("zz")) {
        Err(Error::Plugin(m)) => assert_eq!(m, "Plugin not found: zz"),
        _ => panic!("expected a plugin error"),
    }
    assert_eq!(service.action_plugin(Some("p1")).unwrap().socket_path, "/tmp/p1.sock");
}
