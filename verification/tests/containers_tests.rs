use sysconfig::containers::{container_plan, run_args, ContainerRuntime, ContainerSpec, PortMapping, VolumeMount};
use sysconfig::json_text::json_to_text;
use sysconfig::provisioning::TaskChangeType;

fn nginx() -> ContainerSpec {
    ContainerSpec {
        name: "web".to_string(),
        image: "nginx:latest".to_string(),
        runtime: ContainerRuntime::Podman,
        state: "running".to_string(),
        environment: vec![("MODE".to_string(), "prod".to_string())],
        ports: vec![PortMapping { host_port: 8080, container_port: 80 }],
        volumes: vec![VolumeMount { source: "/srv/www".to_string(), target: "/usr/share/nginx/html".to_string() }],
    }
}

#[test]
fn run_command_has_ports_environment_volumes_then_image() {
    assert_eq!(
        run_args(&nginx()),
        vec![
            "/usr/bin/podman", "run", "-d", "--name", "web", "-p", "8080:80", "-e", "MODE=prod", "-v",
            "/srv/www:/usr/share/nginx/html", "nginx:latest"
        ]
    );
}

#[test]
fn other_runtimes_use_docker() {
    let mut c = nginx();
    c.runtime = ContainerRuntime::Other;
    c.ports = vec![];
    c.environment = vec![];
    c.volumes = vec![];
    assert_eq!(run_args(&c), vec!["/usr/bin/docker", "run", "-d", "--name", "web", "nginx:latest"]);
}

#[test]
fn plan_pulls_then_runs_and_reports() {
    let (steps, changes) = container_plan(&vec![nginx()], false);
    assert_eq!(steps.len(), 2);
    assert_eq!(steps[0].argv, vec!["/usr/bin/podman", "pull", "nginx:latest"]);
    assert_eq!(steps[0].failure, "failed to pull container image nginx:latest");
    assert_eq!(steps[1].failure, "failed to run container web");
    assert_eq!(steps[1].spawn_failure, "failed to run container");
    assert_eq!(changes.len(), 1);
    assert_eq!(changes[0].change_type, TaskChangeType::Create);
    assert_eq!(changes[0].path, "container:web");
    assert_eq!(
        json_to_text(changes[0].new_value.as_ref().unwrap()),
        r#"{"environment":{"MODE":"prod"},"image":"nginx:latest","name":"web","ports":[{"container_port":80,"host_port":8080}],"runtime":"podman","state":"running","volumes":[{"source":"/srv/www","target":"/usr/share/nginx/html"}]}"#
    );
}

#[test]
fn dry_run_has_no_command() {
    let (steps, changes) = container_plan(&vec![nginx()], true);
    assert!(steps.is_empty());
    assert_eq!(changes.len(), 1);
}
