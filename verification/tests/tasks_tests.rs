use sysconfig::files::{parse_mode, specs_value, u32_to_oct, Ensure, FileObservation, FileSpec, Files};
use sysconfig::json::Json;
use sysconfig::plugin_support::{
    default_plugin_socket_path, default_sysconfig_socket_path, illumos_socket_path, linux_socket_path,
    should_auto_enable_dry_run,
};
use sysconfig::provisioning::{TaskChange, TaskChangeType};
use sysconfig::tasks::{
    apply_dns, apply_hostname, sanitize, DesiredDns, DesiredSettings, NetworkSettings, StorageZfs, TaskHandler,
};

fn spec(path: &str, ensure: Ensure, content: Option<&str>, mode: Option<&str>, uid: Option<u32>, gid: Option<u32>) -> FileSpec {
    FileSpec {
        path: path.to_string(),
        ensure,
        content: content.map(|c| c.to_string()),
        mode: mode.map(|m| m.to_string()),
        uid,
        gid,
    }
}

fn seen(exists: bool, content: Option<&str>, mode: Option<u32>, owner: Option<(u32, u32)>) -> FileObservation {
    FileObservation { exists, content: content.map(|c| c.to_string()), mode, owner }
}

fn member<'a>(j: &'a Json, key: &str) -> &'a Json {
    match j {
        Json::Object(m) => &m.iter().find(|(k, _)| k == key).expect("member").1,
        _ => panic!("not an object"),
    }
}

fn text(j: &Json) -> &str {
    match j {
        Json::Str(s) => s.as_str(),
        _ => panic!("not a string"),
    }
}

fn kinds(v: &[TaskChange]) -> Vec<TaskChangeType> {
    v.iter().map(|c| c.change_type).collect()
}

#[test]
fn test_parse_mode_values() {
    assert_eq!(parse_mode("0644"), Some(0o644));
    assert_eq!(parse_mode("644"), Some(0o644));
    assert_eq!(parse_mode("0o755"), Some(0o755));
    assert_eq!(parse_mode("0o0o600"), Some(0o600));
    assert_eq!(parse_mode("0000"), Some(0));
    assert_eq!(parse_mode(""), Some(0));
    assert_eq!(parse_mode("+7"), Some(7));
    assert_eq!(parse_mode("+"), None);
    assert_eq!(parse_mode("0648"), None);
    assert_eq!(parse_mode("rw-r--r--"), None);
    assert_eq!(parse_mode("37777777777"), Some(u32::MAX));
    assert_eq!(parse_mode("40000000000"), None);
}

#[test]
fn test_octal_formatting() {
    assert_eq!(u32_to_oct(0), "0");
    assert_eq!(u32_to_oct(0o644), "644");
    assert_eq!(u32_to_oct(0o100644), "100644");
    assert_eq!(u32_to_oct(u32::MAX), "37777777777");
}

#[test]
fn test_files_diff_absent_and_missing() {
    let files = Files;
    let specs = vec![
        spec("/etc/old", Ensure::Absent, None, None, None, None),
        spec("/etc/gone", Ensure::Absent, None, None, None, None),
        spec("/etc/new", Ensure::Present, Some("hello"), Some("0644"), Some(0), None),
    ];
    let obs = vec![seen(true, None, None, None), seen(false, None, None, None), seen(false, None, None, None)];
    let changes = files.diff(&specs, &obs);
    assert_eq!(kinds(&changes), vec![TaskChangeType::Delete, TaskChangeType::Create]);
    assert_eq!(changes[0].path, "/etc/old");
    assert!(matches!(member(changes[0].old_value.as_ref().unwrap(), "exists"), Json::Bool(true)));
    let created = changes[1].new_value.as_ref().unwrap();
    assert_eq!(text(member(created, "content")), "hello");
    assert_eq!(text(member(created, "mode")), "0644");
    assert!(matches!(member(created, "uid"), Json::PosInt(0)));
    assert!(matches!(member(created, "gid"), Json::Null));
    assert!(changes[1].verbose);
}

#[test]
fn test_files_diff_existing_file() {
    let files = Files;
    let specs = vec![spec("/etc/motd", Ensure::Present, Some("new"), Some("0600"), None, Some(5))];
    let obs = vec![seen(true, Some("old"), Some(0o644), Some((1, 2)))];
    let changes = files.diff(&specs, &obs);
    assert_eq!(changes.len(), 3);
    assert_eq!(text(member(changes[0].old_value.as_ref().unwrap(), "content")), "old");
    assert_eq!(text(member(changes[0].new_value.as_ref().unwrap(), "content")), "new");
    assert_eq!(text(member(changes[1].old_value.as_ref().unwrap(), "mode")), "644");
    assert_eq!(text(member(changes[1].new_value.as_ref().unwrap(), "mode")), "0600");
    assert!(matches!(member(changes[2].old_value.as_ref().unwrap(), "gid"), Json::PosInt(2)));
    assert!(matches!(member(changes[2].new_value.as_ref().unwrap(), "gid"), Json::PosInt(5)));
    assert!(matches!(member(changes[2].new_value.as_ref().unwrap(), "uid"), Json::Null));

    let in_sync = vec![seen(true, Some("new"), Some(0o600), None)];
    let specs2 = vec![spec("/etc/motd", Ensure::Present, Some("new"), Some("600"), None, None)];
    assert!(files.diff(&specs2, &in_sync).is_empty());

    let unreadable = vec![seen(true, None, None, None)];
    let changes = files.diff(&specs, &unreadable);
    assert_eq!(changes.len(), 3);
    assert!(changes[0].old_value.is_none());
    assert!(changes[1].old_value.is_none());
    assert!(matches!(member(changes[2].old_value.as_ref().unwrap(), "uid"), Json::PosInt(4294967295)));
}

#[test]
fn test_files_apply_steps() {
    let absent = spec("/tmp/x", Ensure::Absent, None, None, None, None);
    let (c, remove) = Files::apply_absent(&absent, true, false);
    assert_eq!(c.unwrap().change_type, TaskChangeType::Delete);
    assert!(remove);
    let (c, remove) = Files::apply_absent(&absent, true, true);
    assert!(c.is_some());
    assert!(!remove);
    assert!(Files::apply_absent(&absent, false, false).0.is_none());

    let f = spec("/tmp/y", Ensure::Present, Some("data"), Some("0640"), Some(10), None);
    let (c, w) = Files::apply_content(&f, false, &None, false);
    assert_eq!(c.unwrap().change_type, TaskChangeType::Create);
    assert_eq!(w, Some("data".to_string()));
    let (c, w) = Files::apply_content(&f, true, &Some("data".to_string()), false);
    assert!(c.is_none());
    assert!(w.is_none());
    let (c, w) = Files::apply_content(&f, true, &Some("other".to_string()), true);
    assert_eq!(c.unwrap().change_type, TaskChangeType::Update);
    assert!(w.is_none());

    let empty = spec("/tmp/z", Ensure::Present, None, None, None, None);
    let (c, w) = Files::apply_content(&empty, false, &None, false);
    assert_eq!(text(member(c.unwrap().new_value.as_ref().unwrap(), "content")), "");
    assert_eq!(w, Some(String::new()));

    let (c, set) = Files::apply_mode(&f, Some(0o644), false);
    let c = c.unwrap();
    assert_eq!(text(member(c.old_value.as_ref().unwrap(), "mode")), "644");
    assert_eq!(text(member(c.new_value.as_ref().unwrap(), "mode")), "640");
    assert_eq!(set, Some(0o640));
    let (c, set) = Files::apply_mode(&f, None, false);
    assert_eq!(text(member(c.unwrap().old_value.as_ref().unwrap(), "mode")), "0");
    assert_eq!(set, Some(0o640));
    assert!(Files::apply_mode(&f, Some(0o640), false).0.is_none());

    let (c, ids) = Files::apply_owner(&f, Some((0, 0)), false);
    assert!(c.is_some());
    assert_eq!(ids, Some((10, u32::MAX)));
    assert_eq!(Files::apply_owner(&f, None, true).1, None);
    assert!(Files::apply_owner(&empty, None, false).0.is_none());
}

#[test]
fn test_specs_value() {
    let arr = Json::Array(vec![]);
    assert!(matches!(specs_value(&arr), Ok(Json::Array(_))));
    let obj = Json::Object(vec![("files".to_string(), Json::Array(vec![Json::Null]))]);
    assert!(matches!(specs_value(&obj), Ok(Json::Array(v)) if v.len() == 1));
    match specs_value(&Json::Str("x".to_string())) {
        Err(m) => assert_eq!(m, "files must be an array of file specs"),
        Ok(_) => panic!("expected an error"),
    }
}

#[test]
fn test_socket_paths() {
    assert_eq!(default_sysconfig_socket_path(), "/var/run/sysconfig.sock");
    assert_eq!(default_plugin_socket_path(), "/var/run/sysconfig-freebsd-base.sock");
    assert!(should_auto_enable_dry_run(false));
    assert!(!should_auto_enable_dry_run(true));
    assert_eq!(illumos_socket_path(true, Some("/run/user/5"), 5, "sysconfig.sock"), "/var/run/sysconfig.sock");
    assert_eq!(illumos_socket_path(false, Some("/run/user/5"), 5, "sysconfig.sock"), "/run/user/5/sysconfig.sock");
    assert_eq!(illumos_socket_path(false, None, 501, "sysconfig-illumos-base.sock"), "/tmp/run-501/sysconfig-illumos-base.sock");
    assert_eq!(linux_socket_path(Some("/run/user/1000"), 1000, "sysconfig.sock"), "/run/user/1000/sysconfig.sock");
    assert_eq!(linux_socket_path(None, 0, "sysconfig-linux-base.sock"), "/var/run/sysconfig-linux-base.sock");
    assert_eq!(linux_socket_path(None, 1000, "sysconfig.sock"), "/run/user/1000/sysconfig.sock");
}

#[test]
fn test_network_settings_changes() {
    let desired = DesiredSettings {
        hostname: Some("  web01 ".to_string()),
        dns: Some(DesiredDns {
            nameservers: vec![" 1.1.1.1".to_string(), "  ".to_string()],
            search: vec![],
        }),
    };
    let clean = sanitize(desired);
    assert_eq!(clean.hostname, Some("web01".to_string()));
    assert_eq!(clean.dns.as_ref().unwrap().nameservers, vec!["1.1.1.1".to_string()]);
    let changes = NetworkSettings::changes_for(&clean);
    assert_eq!(changes.len(), 2);
    assert_eq!(changes[0].path, "network.settings.hostname");
    assert_eq!(text(changes[0].new_value.as_ref().unwrap()), "web01");
    assert_eq!(changes[1].path, "network.settings.dns");

    let blank = sanitize(DesiredSettings {
        hostname: Some("   ".to_string()),
        dns: Some(DesiredDns { nameservers: vec![" ".to_string()], search: vec![] }),
    });
    assert!(blank.hostname.is_none());
    assert!(blank.dns.is_none());
    assert!(NetworkSettings::changes_for(&blank).is_empty());

    assert_eq!(apply_hostname("web01", false), Ok(false));
    assert_eq!(apply_dns(&vec![], &vec![], true), Ok(false));
}

#[test]
fn test_stub_task_handlers() {
    let zfs = StorageZfs;
    assert!(zfs.diff(&Json::Null, &Json::Null).unwrap().is_empty());
    assert!(zfs.apply(&Json::Null, true).unwrap().is_empty());
    assert_eq!(zfs.exec("anything", &Json::Null).unwrap(), "");
}

#[test]
fn test_files_dry_run_apply_reports_changes() {
    let files = Files;
    let specs = vec![
        spec("/tmp/gone", Ensure::Absent, None, None, None, None),
        spec("/tmp/new", Ensure::Present, Some("hello"), Some("0644"), None, None),
        spec("/tmp/same", Ensure::Present, Some("x"), Some("644"), None, None),
    ];
    let observed = vec![
        seen(true, None, None, None),
        seen(false, None, None, None),
        seen(true, Some("x"), Some(0o644), Some((0, 0))),
    ];
    let changes = files.apply_dry_run(&specs, &observed);
    assert_eq!(changes.len(), 3);
    assert_eq!(changes[0].change_type, TaskChangeType::Delete);
    assert_eq!(changes[0].path, "/tmp/gone");
    assert_eq!(changes[1].change_type, TaskChangeType::Create);
    assert_eq!(changes[1].path, "/tmp/new");
    assert_eq!(changes[2].change_type, TaskChangeType::Update);
    assert_eq!(changes[2].path, "/tmp/new");
}
