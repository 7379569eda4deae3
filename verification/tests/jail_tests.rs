use sysconfig::jail::{jail_block, jail_change, jail_conf_with, nested_config_plan, JailSpec};
use sysconfig::json_text::json_to_text;
use sysconfig::provisioning::TaskChangeType;

fn web() -> JailSpec {
    JailSpec {
        name: "web".to_string(),
        path: "/jails/web".to_string(),
        hostname: "web.local".to_string(),
        ip_addresses: vec!["10.0.0.5".to_string(), "10.0.0.6".to_string()],
        interfaces: vec![],
        parameters: vec![("allow.raw_sockets".to_string(), "1".to_string())],
        auto_start: true,
        has_nested_config: false,
    }
}

#[test]
fn jail_block_text() {
    assert_eq!(
        jail_block(&web()),
        "\nweb {\n    path = \"/jails/web\";\n    host.hostname = \"web.local\";\n    ip4.addr = \"10.0.0.5, 10.0.0.6\";\n    allow.raw_sockets = \"1\";\n}\n"
    );
}

#[test]
fn jail_block_with_interfaces_only() {
    let mut j = web();
    j.ip_addresses = vec![];
    j.interfaces = vec!["em0".to_string()];
    j.parameters = vec![];
    assert_eq!(
        jail_block(&j),
        "\nweb {\n    path = \"/jails/web\";\n    host.hostname = \"web.local\";\n    interface = \"em0\";\n}\n"
    );
}

#[test]
fn jail_conf_keeps_a_named_jail_and_adds_a_new_one() {
    let block = jail_block(&web());
    assert_eq!(jail_conf_with("db {\n}\n", "web", &block), format!("db {{\n}}\n{}", block));
    assert_eq!(jail_conf_with("web {\n}\n", "web", &block), "web {\n}\n");
    let once = jail_conf_with("", "web", &block);
    assert_eq!(jail_conf_with(&once, "web", &block), once);
}

#[test]
fn jail_change_record() {
    let c = jail_change(&web());
    assert_eq!(c.change_type, TaskChangeType::Create);
    assert_eq!(c.path, "jail:web");
    assert_eq!(
        json_to_text(c.new_value.as_ref().unwrap()),
        r#"{"auto_start":true,"has_nested_config":false,"hostname":"web.local","interfaces":[],"ip_addresses":["10.0.0.5","10.0.0.6"],"parameters":{"allow.raw_sockets":"1"},"path":"/jails/web"}"#
    );
}

#[test]
fn nested_config_is_copied_in_and_provisioned_once() {
    let (temp, steps) = nested_config_plan("web");
    assert_eq!(temp, "/tmp/jail_web_nested_config.json");
    assert_eq!(steps.len(), 3);
    assert!(steps[0].make_dir);
    assert_eq!(steps[0].argv, vec!["/usr/jails/web/etc/sysconfig"]);
    assert_eq!(
        steps[1].argv,
        vec!["/bin/cp", "/tmp/jail_web_nested_config.json", "/usr/jails/web/etc/sysconfig/nested-config.json"]
    );
    assert_eq!(steps[1].failure, "failed to copy nested config to jail web");
    assert_eq!(
        steps[2].argv,
        vec![
            "/usr/sbin/jexec", "web", "/usr/local/bin/sysconfig", "provision", "--config-file",
            "/etc/sysconfig/nested-config.json", "--run-once"
        ]
    );
    assert_eq!(steps[2].failure, "failed to apply nested config in jail web");
}
