//! Container configuration of the Linux base plugin: the commands that pull
//! each container's image and run it, and the change reported for it.
use vstd::prelude::*;
use crate::files::ChangeV;
use crate::json::{entries_view, items_view, lemma_array_view, lemma_object_view, Json, JsonV};
use crate::kdl_parser::strings_view;
use crate::provisioning::{TaskChange, TaskChangeType};
use crate::storage::{
    add_change, add_step, assignment, cat, props_json, props_to_json, push_word, run, run_step, steps_view, StepV,
    StorageStep,
};
use crate::tasks::{change_view, changes_view};
use crate::text::{dec_digits, string_from_chars, u64_to_dec};

verus! {

/// The container runtime; any other runtime is run with Docker.
#[derive(Debug, Clone, Copy, PartialEq, Eq, Structural)]
pub enum ContainerRuntime {
    Docker,
    Podman,
    Other,
}

/// A published port: the host's port and the container's.
#[derive(Debug, Clone, Copy, PartialEq, Eq, Structural)]
pub struct PortMapping {
    pub host_port: u16,
    pub container_port: u16,
}

/// A volume: the host path `source` mounted at `target` in the container.
#[derive(Debug)]
pub struct VolumeMount {
    pub source: String,
    pub target: String,
}

/// A container to create and run.
#[derive(Debug)]
pub struct ContainerSpec {
    pub name: String,
    pub image: String,
    pub runtime: ContainerRuntime,
    /// The state asked for, by name.
    pub state: String,
    /// Environment variables, in the order they are passed.
    pub environment: Vec<(String, String)>,
    pub ports: Vec<PortMapping>,
    pub volumes: Vec<VolumeMount>,
}

/// The program that runs a runtime's commands.
pub open spec fn runtime_program(r: ContainerRuntime) -> Seq<char> {
    match r {
        ContainerRuntime::Podman => "/usr/bin/podman"@,
        _ => "/usr/bin/docker"@,
    }
}

/// The name of a runtime in a change record.
pub open spec fn runtime_name(r: ContainerRuntime) -> Seq<char> {
    match r {
        ContainerRuntime::Docker => "docker"@,
        ContainerRuntime::Podman => "podman"@,
        ContainerRuntime::Other => "other"@,
    }
}

/// The `run` options of the ports, the environment and the volumes, in that order.
pub open spec fn port_args(ps: Seq<PortMapping>) -> Seq<Seq<char>>
    decreases ps.len(),
{
    if ps.len() == 0 {
        Seq::empty()
    } else {
        port_args(ps.drop_last()) + seq![
            "-p"@,
            dec_digits(ps.last().host_port as nat) + ":"@ + dec_digits(ps.last().container_port as nat),
        ]
    }
}

pub open spec fn env_args(es: Seq<(String, String)>) -> Seq<Seq<char>>
    decreases es.len(),
{
    if es.len() == 0 {
        Seq::empty()
    } else {
        env_args(es.drop_last()) + seq!["-e"@, assignment(es.last())]
    }
}

pub open spec fn volume_args(vs: Seq<VolumeMount>) -> Seq<Seq<char>>
    decreases vs.len(),
{
    if vs.len() == 0 {
        Seq::empty()
    } else {
        volume_args(vs.drop_last()) + seq!["-v"@, vs.last().source@ + ":"@ + vs.last().target@]
    }
}

/// The command that creates and starts a container, detached and named.
pub open spec fn run_argv(c: ContainerSpec) -> Seq<Seq<char>> {
    seq![runtime_program(c.runtime), "run"@, "-d"@, "--name"@, c.name@] + port_args(c.ports@) + env_args(
        c.environment@,
    ) + volume_args(c.volumes@) + seq![c.image@]
}

/// One container: unless in a dry run, its image is pulled, then it is run.
pub open spec fn container_steps(c: ContainerSpec, dry_run: bool) -> Seq<StepV> {
    if dry_run {
        Seq::empty()
    } else {
        seq![
            run_step(
                seq![runtime_program(c.runtime), "pull"@, c.image@],
                "failed to pull container image"@,
                "failed to pull container image "@ + c.image@,
            ),
            run_step(run_argv(c), "failed to run container"@, "failed to run container "@ + c.name@),
        ]
    }
}

pub open spec fn port_json(p: PortMapping) -> JsonV {
    JsonV::Object(
        seq![
            ("container_port"@, JsonV::PosInt(p.container_port as u64)),
            ("host_port"@, JsonV::PosInt(p.host_port as u64)),
        ],
    )
}

pub open spec fn volume_json(v: VolumeMount) -> JsonV {
    JsonV::Object(seq![("source"@, JsonV::Str(v.source@)), ("target"@, JsonV::Str(v.target@))])
}

/// The change reported for a container, in a dry run too.
pub open spec fn container_change(c: ContainerSpec) -> ChangeV {
    (
        TaskChangeType::Create,
        "container:"@ + c.name@,
        None,
        Some(
            JsonV::Object(
                seq![
                    ("environment"@, props_json(c.environment@)),
                    ("image"@, JsonV::Str(c.image@)),
                    ("name"@, JsonV::Str(c.name@)),
                    ("ports"@, JsonV::Array(Seq::new(c.ports@.len(), |i: int| port_json(c.ports@[i])))),
                    ("runtime"@, JsonV::Str(runtime_name(c.runtime))),
                    ("state"@, JsonV::Str(c.state@)),
                    ("volumes"@, JsonV::Array(Seq::new(c.volumes@.len(), |i: int| volume_json(c.volumes@[i])))),
                ],
            ),
        ),
        false,
    )
}

pub open spec fn containers_steps(cs: Seq<ContainerSpec>, dry_run: bool) -> Seq<StepV>
    decreases cs.len(),
{
    if cs.len() == 0 {
        Seq::empty()
    } else {
        containers_steps(cs.drop_last(), dry_run) + container_steps(cs.last(), dry_run)
    }
}

} // verus!

verus! {

fn program_of(r: ContainerRuntime) -> (s: String)
    ensures
        s@ == runtime_program(r),
{
    match r {
        ContainerRuntime::Podman => "/usr/bin/podman".to_owned(),
        _ => "/usr/bin/docker".to_owned(),
    }
}

fn runtime_text(r: ContainerRuntime) -> (s: String)
    ensures
        s@ == runtime_name(r),
{
    match r {
        ContainerRuntime::Docker => "docker".to_owned(),
        ContainerRuntime::Podman => "podman".to_owned(),
        ContainerRuntime::Other => "other".to_owned(),
    }
}

fn port_text(p: PortMapping) -> (s: String)
    ensures
        s@ == dec_digits(p.host_port as nat) + ":"@ + dec_digits(p.container_port as nat),
{
    let mut m = u64_to_dec(p.host_port as u64);
    crate::text::append_chars(&mut m, &crate::text::chars_of(":"));
    crate::text::append_chars(&mut m, &u64_to_dec(p.container_port as u64));
    string_from_chars(&m)
}

/// The command that creates and starts a container, as `run_argv` says.
pub fn run_args(c: &ContainerSpec) -> (r: Vec<String>)
    ensures
        strings_view(r@) == run_argv(*c),
{
    let mut out: Vec<String> = Vec::new();
    let program = program_of(c.runtime);
    push_word(&mut out, &program);
    push_word(&mut out, "run");
    push_word(&mut out, "-d");
    push_word(&mut out, "--name");
    push_word(&mut out, &c.name);
    let ghost head = strings_view(out@);
    assert(head =~= seq![runtime_program(c.runtime), "run"@, "-d"@, "--name"@, c.name@]);
    let mut i: usize = 0;
    assert(port_args(c.ports@.subrange(0, 0)) =~= Seq::<Seq<char>>::empty());
    assert(strings_view(out@) =~= head + port_args(c.ports@.subrange(0, 0)));
    while i < c.ports.len()
        invariant
            i <= c.ports@.len(),
            strings_view(out@) == head + port_args(c.ports@.subrange(0, i as int)),
        decreases c.ports.len() - i,
    {
        proof {
            assert(c.ports@.subrange(0, i as int + 1).drop_last() =~= c.ports@.subrange(0, i as int));
        }
        push_word(&mut out, "-p");
        let t = port_text(c.ports[i]);
        push_word(&mut out, &t);
        assert(strings_view(out@) =~= head + port_args(c.ports@.subrange(0, i as int + 1)));
        i = i + 1;
    }
    assert(c.ports@.subrange(0, c.ports@.len() as int) =~= c.ports@);
    let ghost with_ports = strings_view(out@);
    i = 0;
    assert(env_args(c.environment@.subrange(0, 0)) =~= Seq::<Seq<char>>::empty());
    assert(strings_view(out@) =~= with_ports + env_args(c.environment@.subrange(0, 0)));
    while i < c.environment.len()
        invariant
            i <= c.environment@.len(),
            strings_view(out@) == with_ports + env_args(c.environment@.subrange(0, i as int)),
        decreases c.environment.len() - i,
    {
        proof {
            assert(c.environment@.subrange(0, i as int + 1).drop_last() =~= c.environment@.subrange(0, i as int));
        }
        push_word(&mut out, "-e");
        let t = cat(&cat(&c.environment[i].0, "="), &c.environment[i].1);
        push_word(&mut out, &t);
        assert(strings_view(out@) =~= with_ports + env_args(c.environment@.subrange(0, i as int + 1)));
        i = i + 1;
    }
    assert(c.environment@.subrange(0, c.environment@.len() as int) =~= c.environment@);
    let ghost with_env = strings_view(out@);
    i = 0;
    assert(volume_args(c.volumes@.subrange(0, 0)) =~= Seq::<Seq<char>>::empty());
    assert(strings_view(out@) =~= with_env + volume_args(c.volumes@.subrange(0, 0)));
    while i < c.volumes.len()
        invariant
            i <= c.volumes@.len(),
            strings_view(out@) == with_env + volume_args(c.volumes@.subrange(0, i as int)),
        decreases c.volumes.len() - i,
    {
        proof {
            assert(c.volumes@.subrange(0, i as int + 1).drop_last() =~= c.volumes@.subrange(0, i as int));
        }
        push_word(&mut out, "-v");
        let t = cat(&cat(&c.volumes[i].source, ":"), &c.volumes[i].target);
        push_word(&mut out, &t);
        assert(strings_view(out@) =~= with_env + volume_args(c.volumes@.subrange(0, i as int + 1)));
        i = i + 1;
    }
    assert(c.volumes@.subrange(0, c.volumes@.len() as int) =~= c.volumes@);
    push_word(&mut out, &c.image);
    assert(strings_view(out@) =~= run_argv(*c));
    out
}

fn change_of(c: &ContainerSpec) -> (r: TaskChange)
    ensures
        change_view(r) == container_change(*c),
{
    let mut ports: Vec<Json> = Vec::new();
    let mut i: usize = 0;
    while i < c.ports.len()
        invariant
            i <= c.ports@.len(),
            items_view(ports@) =~= Seq::new(i as nat, |k: int| port_json(c.ports@[k])),
        decreases c.ports.len() - i,
    {
        let ghost before = items_view(ports@);
        let x = crate::files::two_members(
            "container_port",
            Json::PosInt(c.ports[i].container_port as u64),
            "host_port",
            Json::PosInt(c.ports[i].host_port as u64),
        );
        ports.push(x);
        assert(items_view(ports@) =~= before.push(x@));
        i = i + 1;
    }
    proof {
        lemma_array_view(ports);
    }
    let mut volumes: Vec<Json> = Vec::new();
    i = 0;
    while i < c.volumes.len()
        invariant
            i <= c.volumes@.len(),
            items_view(volumes@) =~= Seq::new(i as nat, |k: int| volume_json(c.volumes@[k])),
        decreases c.volumes.len() - i,
    {
        let ghost before = items_view(volumes@);
        let x = crate::files::two_members(
            "source",
            Json::Str(c.volumes[i].source.clone()),
            "target",
            Json::Str(c.volumes[i].target.clone()),
        );
        volumes.push(x);
        assert(items_view(volumes@) =~= before.push(x@));
        i = i + 1;
    }
    proof {
        lemma_array_view(volumes);
    }
    let mut m: Vec<(String, Json)> = Vec::new();
    m.push(("environment".to_owned(), props_to_json(&c.environment)));
    m.push(("image".to_owned(), Json::Str(c.image.clone())));
    m.push(("name".to_owned(), Json::Str(c.name.clone())));
    m.push(("ports".to_owned(), Json::Array(ports)));
    m.push(("runtime".to_owned(), Json::Str(runtime_text(c.runtime))));
    m.push(("state".to_owned(), Json::Str(c.state.clone())));
    m.push(("volumes".to_owned(), Json::Array(volumes)));
    proof {
        lemma_object_view(m);
        assert(entries_view(m@) =~= container_change(*c).3->Some_0->Object_0);
    }
    TaskChange {
        change_type: TaskChangeType::Create,
        path: cat("container:", &c.name),
        old_value: None,
        new_value: Some(Json::Object(m)),
        verbose: false,
    }
}

/// The commands that create and run the containers, in order (none in a dry
/// run), and the change reported for each container. The caller runs the
/// commands in order and stops at the first that fails, as for storage.
pub fn container_plan(cs: &Vec<ContainerSpec>, dry_run: bool) -> (r: (Vec<StorageStep>, Vec<TaskChange>))
    ensures
        steps_view(r.0@) == containers_steps(cs@, dry_run),
        changes_view(r.1@) == Seq::new(cs@.len(), |i: int| container_change(cs@[i])),
{
    let mut steps: Vec<StorageStep> = Vec::new();
    let mut changes: Vec<TaskChange> = Vec::new();
    let mut i: usize = 0;
    assert(steps_view(steps@) =~= containers_steps(cs@.subrange(0, 0), dry_run));
    while i < cs.len()
        invariant
            i <= cs@.len(),
            steps_view(steps@) == containers_steps(cs@.subrange(0, i as int), dry_run),
            changes_view(changes@) =~= Seq::new(i as nat, |k: int| container_change(cs@[k])),
        decreases cs.len() - i,
    {
        proof {
            assert(cs@.subrange(0, i as int + 1).drop_last() =~= cs@.subrange(0, i as int));
        }
        let ghost s0 = steps_view(steps@);
        if !dry_run {
            let program = program_of(cs[i].runtime);
            let pull = vec![program, "pull".to_owned(), cs[i].image.clone()];
            assert(strings_view(pull@) =~= seq![runtime_program(cs@[i as int].runtime), "pull"@, cs@[i as int].image@]);
            add_step(&mut steps, run(pull, "failed to pull container image".to_owned(), cat("failed to pull container image ", &cs[i].image)));
            let argv = run_args(&cs[i]);
            add_step(&mut steps, run(argv, "failed to run container".to_owned(), cat("failed to run container ", &cs[i].name)));
        }
        assert(steps_view(steps@) =~= s0 + container_steps(cs@[i as int], dry_run));
        assert(steps_view(steps@) =~= containers_steps(cs@.subrange(0, i as int + 1), dry_run));
        let ghost c0 = changes_view(changes@);
        add_change(&mut changes, change_of(&cs[i]));
        i = i + 1;
    }
    assert(cs@.subrange(0, cs@.len() as int) =~= cs@);
    (steps, changes)
}

} // verus!
