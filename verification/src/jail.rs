//! Jail configuration of the FreeBSD base plugin: the block it adds to
//! jail.conf for a new jail, how jail.conf's text changes, and the change it
//! reports for the jail.
use vstd::prelude::*;
use crate::files::ChangeV;
use crate::json::{entries_view, lemma_object_view, Json, JsonV};
use crate::kdl_parser::strings_view;
use crate::provisioning::{TaskChange, TaskChangeType};
use crate::storage::{cat, props_json, props_to_json, run, run_step, steps_view, StepV, StorageStep};
use crate::tasks::{change_view, strings_json, strings_to_json};
use crate::text::{append_chars, chars_of, contains_substring, has_substring, string_from_chars};

verus! {

/// A jail to configure.
#[derive(Debug)]
pub struct JailSpec {
    pub name: String,
    pub path: String,
    pub hostname: String,
    pub ip_addresses: Vec<String>,
    pub interfaces: Vec<String>,
    /// Further jail parameters, in the order they are written.
    pub parameters: Vec<(String, String)>,
    /// Whether the jail is started once configured.
    pub auto_start: bool,
    /// Whether a configuration for inside the jail comes with it.
    pub has_nested_config: bool,
}

/// Texts joined with `sep` between them.
pub open spec fn joined(v: Seq<Seq<char>>, sep: Seq<char>) -> Seq<char>
    decreases v.len(),
{
    if v.len() == 0 {
        Seq::empty()
    } else if v.len() == 1 {
        v[0]
    } else {
        joined(v.drop_last(), sep) + sep + v.last()
    }
}

/// A line `    key = "value";`.
pub open spec fn setting_line(key: Seq<char>, value: Seq<char>) -> Seq<char> {
    "    "@ + key + " = \""@ + value + "\";\n"@
}

/// The parameter lines, in order.
pub open spec fn parameter_lines(ps: Seq<(String, String)>) -> Seq<char>
    decreases ps.len(),
{
    if ps.len() == 0 {
        Seq::empty()
    } else {
        parameter_lines(ps.drop_last()) + setting_line(ps.last().0@, ps.last().1@)
    }
}

/// The block added to jail.conf for a new jail: its path and host name, its
/// addresses and interfaces where there are any (joined with `, `), then its
/// parameters.
pub open spec fn jail_block_spec(j: JailSpec) -> Seq<char> {
    "\n"@ + j.name@ + " {\n"@ + setting_line("path"@, j.path@) + setting_line("host.hostname"@, j.hostname@) + (if j.ip_addresses@.len() > 0 {
        setting_line("ip4.addr"@, joined(strings_view(j.ip_addresses@), ", "@))
    } else {
        Seq::empty()
    }) + (if j.interfaces@.len() > 0 {
        setting_line("interface"@, joined(strings_view(j.interfaces@), ", "@))
    } else {
        Seq::empty()
    }) + parameter_lines(j.parameters@) + "}\n"@
}

/// The new text of jail.conf: kept where it already names the jail, else the
/// block added at its end.
pub open spec fn jail_conf_spec(existing: Seq<char>, name: Seq<char>, block: Seq<char>) -> Seq<char> {
    if has_substring(existing, name) {
        existing
    } else {
        existing + block
    }
}

/// The change reported for a jail, in a dry run too.
pub open spec fn jail_change_spec(j: JailSpec) -> ChangeV {
    (
        TaskChangeType::Create,
        "jail:"@ + j.name@,
        None,
        Some(
            JsonV::Object(
                seq![
                    ("auto_start"@, JsonV::Bool(j.auto_start)),
                    ("has_nested_config"@, JsonV::Bool(j.has_nested_config)),
                    ("hostname"@, JsonV::Str(j.hostname@)),
                    ("interfaces"@, strings_json(strings_view(j.interfaces@))),
                    ("ip_addresses"@, strings_json(strings_view(j.ip_addresses@))),
                    ("parameters"@, props_json(j.parameters@)),
                    ("path"@, JsonV::Str(j.path@)),
                ],
            ),
        ),
        false,
    )
}

fn push_text(m: &mut Vec<char>, s: &str)
    ensures
        final(m)@ == old(m)@ + s@,
{
    append_chars(m, &chars_of(s));
}

/// Texts joined with `sep`, as `joined` says.
fn join_with(v: &Vec<String>, sep: &str) -> (r: Vec<char>)
    ensures
        r@ == joined(strings_view(v@), sep@),
{
    let mut out: Vec<char> = Vec::new();
    let mut i: usize = 0;
    assert(strings_view(v@).subrange(0, 0) =~= Seq::<Seq<char>>::empty());
    while i < v.len()
        invariant
            i <= v@.len(),
            out@ == joined(strings_view(v@).subrange(0, i as int), sep@),
        decreases v.len() - i,
    {
        let ghost sv = strings_view(v@);
        proof {
            assert(sv.subrange(0, i as int + 1).drop_last() =~= sv.subrange(0, i as int));
        }
        if i > 0 {
            push_text(&mut out, sep);
        }
        push_text(&mut out, &v[i]);
        proof {
            if i == 0 {
                assert(out@ =~= sv.subrange(0, 1)[0]);
            } else {
                assert(out@ =~= joined(sv.subrange(0, i as int), sep@) + sep@ + sv[i as int]);
            }
        }
        i = i + 1;
    }
    assert(strings_view(v@).subrange(0, v@.len() as int) =~= strings_view(v@));
    out
}

fn push_setting(m: &mut Vec<char>, key: &str, value: &Vec<char>)
    ensures
        final(m)@ == old(m)@ + setting_line(key@, value@),
{
    let ghost m0 = m@;
    push_text(m, "    ");
    push_text(m, key);
    push_text(m, " = \"");
    append_chars(m, value);
    push_text(m, "\";\n");
    assert(m@ =~= m0 + setting_line(key@, value@));
}

/// The block added to jail.conf for a new jail, as `jail_block_spec` says.
pub fn jail_block(j: &JailSpec) -> (r: String)
    ensures
        r@ == jail_block_spec(*j),
{
    let mut m: Vec<char> = Vec::new();
    push_text(&mut m, "\n");
    push_text(&mut m, &j.name);
    push_text(&mut m, " {\n");
    push_setting(&mut m, "path", &chars_of(&j.path));
    push_setting(&mut m, "host.hostname", &chars_of(&j.hostname));
    let ghost head = m@;
    if j.ip_addresses.len() > 0 {
        push_setting(&mut m, "ip4.addr", &join_with(&j.ip_addresses, ", "));
    }
    let ghost with_ips = m@;
    if j.interfaces.len() > 0 {
        push_setting(&mut m, "interface", &join_with(&j.interfaces, ", "));
    }
    let ghost with_ifaces = m@;
    let mut i: usize = 0;
    assert(parameter_lines(j.parameters@.subrange(0, 0)) =~= Seq::<char>::empty());
    assert(m@ =~= with_ifaces + parameter_lines(j.parameters@.subrange(0, 0)));
    while i < j.parameters.len()
        invariant
            i <= j.parameters@.len(),
            m@ == with_ifaces + parameter_lines(j.parameters@.subrange(0, i as int)),
        decreases j.parameters.len() - i,
    {
        proof {
            assert(j.parameters@.subrange(0, i as int + 1).drop_last() =~= j.parameters@.subrange(0, i as int));
        }
        push_setting(&mut m, &j.parameters[i].0, &chars_of(&j.parameters[i].1));
        assert(m@ =~= with_ifaces + parameter_lines(j.parameters@.subrange(0, i as int + 1)));
        i = i + 1;
    }
    assert(j.parameters@.subrange(0, j.parameters@.len() as int) =~= j.parameters@);
    push_text(&mut m, "}\n");
    assert(m@ =~= jail_block_spec(*j));
    string_from_chars(&m)
}

/// The new text of jail.conf, as `jail_conf_spec` says.
pub fn jail_conf_with(existing: &str, name: &str, block: &str) -> (r: String)
    ensures
        r@ == jail_conf_spec(existing@, name@, block@),
{
    if contains_substring(&chars_of(existing), &chars_of(name)) {
        existing.to_owned()
    } else {
        let mut m = chars_of(existing);
        push_text(&mut m, block);
        string_from_chars(&m)
    }
}

/// The change reported for a jail, as `jail_change_spec` says.
pub fn jail_change(j: &JailSpec) -> (r: TaskChange)
    ensures
        change_view(r) == jail_change_spec(*j),
{
    let mut m: Vec<(String, Json)> = Vec::new();
    m.push(("auto_start".to_owned(), Json::Bool(j.auto_start)));
    m.push(("has_nested_config".to_owned(), Json::Bool(j.has_nested_config)));
    m.push(("hostname".to_owned(), Json::Str(j.hostname.clone())));
    m.push(("interfaces".to_owned(), strings_to_json(&j.interfaces)));
    m.push(("ip_addresses".to_owned(), strings_to_json(&j.ip_addresses)));
    m.push(("parameters".to_owned(), props_to_json(&j.parameters)));
    m.push(("path".to_owned(), Json::Str(j.path.clone())));
    proof {
        lemma_object_view(m);
        assert(entries_view(m@) =~= jail_change_spec(*j).3->Some_0->Object_0);
    }
    let mut path = chars_of("jail:");
    push_text(&mut path, &j.name);
    TaskChange {
        change_type: TaskChangeType::Create,
        path: string_from_chars(&path),
        old_value: None,
        new_value: Some(Json::Object(m)),
        verbose: false,
    }
}

/// Adding a jail to jail.conf is idempotent: once the block is added, adding it
/// again leaves the text as it is.
pub proof fn law_jail_conf_is_idempotent(existing: Seq<char>, j: JailSpec)
    ensures
        jail_conf_spec(jail_conf_spec(existing, j.name@, jail_block_spec(j)), j.name@, jail_block_spec(j))
            == jail_conf_spec(existing, j.name@, jail_block_spec(j)),
{
    if !has_substring(existing, j.name@) {
        let all = existing + jail_block_spec(j);
        let at: int = existing.len() as int + 1;
        reveal_strlit("\n");
        assert(all.subrange(at, at + j.name@.len() as int) =~= j.name@);
        assert(has_substring(all, j.name@));
    }
}

/// Where the configuration for inside a jail is written before it is copied in.
pub open spec fn nested_temp_path(name: Seq<char>) -> Seq<char> {
    "/tmp/jail_"@ + name + "_nested_config.json"@
}

/// The directory inside the jail's root that receives the configuration.
pub open spec fn nested_config_dir(name: Seq<char>) -> Seq<char> {
    "/usr/jails/"@ + name + "/etc/sysconfig"@
}

/// After the configuration is written to `nested_temp_path`: make the jail's
/// configuration directory, copy the file in, and run the provisioning tool
/// inside the jail once on it.
pub open spec fn nested_steps(name: Seq<char>) -> Seq<StepV> {
    seq![
        (true, seq![nested_config_dir(name)], "failed to create jail config directory"@, "failed to create jail config directory"@),
        run_step(
            seq!["/bin/cp"@, nested_temp_path(name), nested_config_dir(name) + "/nested-config.json"@],
            "failed to copy config to jail"@,
            "failed to copy nested config to jail "@ + name,
        ),
        run_step(
            seq![
                "/usr/sbin/jexec"@,
                name,
                "/usr/local/bin/sysconfig"@,
                "provision"@,
                "--config-file"@,
                "/etc/sysconfig/nested-config.json"@,
                "--run-once"@,
            ],
            "failed to execute nested provisioning"@,
            "failed to apply nested config in jail "@ + name,
        ),
    ]
}

/// The file to write the jail's configuration to, and the steps that follow,
/// as `nested_temp_path` and `nested_steps` say. In a dry run none of this is done.
pub fn nested_config_plan(jail_name: &str) -> (r: (String, Vec<StorageStep>))
    ensures
        r.0@ == nested_temp_path(jail_name@),
        steps_view(r.1@) == nested_steps(jail_name@),
{
    let temp = cat(&cat("/tmp/jail_", jail_name), "_nested_config.json");
    let dir = cat(&cat("/usr/jails/", jail_name), "/etc/sysconfig");
    let mut steps: Vec<StorageStep> = Vec::new();
    let dir_argv = vec![dir.clone()];
    assert(strings_view(dir_argv@) =~= seq![dir@]);
    steps.push(StorageStep {
        make_dir: true,
        argv: dir_argv,
        spawn_failure: "failed to create jail config directory".to_owned(),
        failure: "failed to create jail config directory".to_owned(),
    });
    let cp = vec!["/bin/cp".to_owned(), temp.clone(), cat(&dir, "/nested-config.json")];
    assert(strings_view(cp@) =~= seq!["/bin/cp"@, temp@, dir@ + "/nested-config.json"@]);
    steps.push(run(cp, "failed to copy config to jail".to_owned(), cat("failed to copy nested config to jail ", jail_name)));
    let jexec = vec![
        "/usr/sbin/jexec".to_owned(),
        jail_name.to_owned(),
        "/usr/local/bin/sysconfig".to_owned(),
        "provision".to_owned(),
        "--config-file".to_owned(),
        "/etc/sysconfig/nested-config.json".to_owned(),
        "--run-once".to_owned(),
    ];
    assert(strings_view(jexec@) =~= seq![
        "/usr/sbin/jexec"@,
        jail_name@,
        "/usr/local/bin/sysconfig"@,
        "provision"@,
        "--config-file"@,
        "/etc/sysconfig/nested-config.json"@,
        "--run-once"@,
    ]);
    steps.push(run(jexec, "failed to execute nested provisioning".to_owned(), cat("failed to apply nested config in jail ", jail_name)));
    assert(steps_view(steps@) =~= nested_steps(jail_name@));
    (temp, steps)
}

} // verus!
