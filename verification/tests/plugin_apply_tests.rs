use sysconfig::json::Json;
use sysconfig::json_text::parse_json_text;
use sysconfig::plugin_apply::{apply_response, desired_state, invalid_state_response, legacy_sections};
use sysconfig::provisioning::{TaskChange, TaskChangeType};

fn change(path: &str) -> TaskChange {
    TaskChange { change_type: TaskChangeType::Update, path: path.to_string(), old_value: None, new_value: None, verbose: false }
}

#[test]
fn test_apply_response_collects_changes() {
    let steps = vec![
        (String::new(), Ok(vec![change("network.settings.hostname")])),
        (String::new(), Ok(vec![change("/etc/motd"), change("/etc/issue")])),
    ];
    let r = apply_response(&steps);
    assert!(r.success);
    assert_eq!(r.error, "");
    let paths: Vec<&str> = r.changes.iter().map(|c| c.path.as_str()).collect();
    assert_eq!(paths, vec!["network.settings.hostname", "/etc/motd", "/etc/issue"]);
}

#[test]
fn test_apply_response_stops_at_first_failure() {
    let steps = vec![
        (String::new(), Ok(vec![change("a")])),
        ("invalid network.settings schema: ".to_string(), Err("unknown field `x`".to_string())),
        (String::new(), Err("later".to_string())),
    ];
    let r = apply_response(&steps);
    assert!(!r.success);
    assert_eq!(r.error, "invalid network.settings schema: unknown field `x`");
    assert!(r.changes.is_empty());
}

#[test]
fn test_legacy_sections() {
    let desired = parse_json_text("{\"network\":{\"settings\":{\"hostname\":\"h\"}},\"files\":[]}").unwrap();
    let (settings, files) = legacy_sections(&desired);
    assert!(matches!(settings, Some(Json::Object(_))));
    assert!(matches!(files, Some(Json::Array(ref a)) if a.is_empty()));
    let (s2, f2) = legacy_sections(&Json::Null);
    assert!(s2.is_none() && f2.is_none());
}

#[test]
fn state_text_that_is_not_json_is_refused() {
    let r = desired_state("not json");
    let a = r.unwrap_err();
    assert!(!a.success);
    assert!(a.changes.is_empty());
    assert!(a.error.starts_with("invalid state JSON: "));
    assert!(a.error.len() > "invalid state JSON: ".len());
}

#[test]
fn json_state_text_is_read() {
    let r = desired_state(r#"{"a":1}"#);
    assert!(matches!(r, Ok(Json::Object(_))));
}

#[test]
fn invalid_state_response_text() {
    let a = invalid_state_response("expected value at line 1 column 1");
    assert!(!a.success);
    assert_eq!(a.error, "invalid state JSON: expected value at line 1 column 1");
    assert!(a.changes.is_empty());
}
