//! Software configuration of the FreeBSD base plugin: the pkg repository
//! files and the proxy setting it writes, the changes it reports for them, and
//! the request it hands to the package task.
use vstd::prelude::*;
use crate::files::ChangeV;
use crate::json::{lemma_object_view, Json, JsonV, entries_view};
use crate::kdl_parser::strings_view;
use crate::provisioning::{TaskChange, TaskChangeType};
use crate::tasks::{change_view, changes_view, strings_json, strings_to_json};
use crate::text::{append_chars, chars_of, contains_substring, has_substring, string_from_chars};

verus! {

/// A pkg repository to configure.
#[derive(Debug)]
pub struct PkgRepository {
    pub name: String,
    pub url: String,
    pub enabled: bool,
}

/// The path of a repository's configuration file.
pub open spec fn repo_conf_path_spec(name: Seq<char>) -> Seq<char> {
    "/usr/local/etc/pkg/repos/"@ + name + ".conf"@
}

/// The text of a repository's configuration file.
pub open spec fn repo_conf_text_spec(r: PkgRepository) -> Seq<char> {
    r.name@ + ": {\n    url: \""@ + r.url@ + "\"\n    enabled: "@ + (if r.enabled {
        "yes"@
    } else {
        "no"@
    }) + "\n}\n"@
}

/// The line that sets pkg's HTTP proxy.
pub open spec fn proxy_line_spec(proxy: Seq<char>) -> Seq<char> {
    "PKG_ENV: { HTTP_PROXY: \""@ + proxy + "\" }\n"@
}

/// The new text of pkg.conf: kept as it is where it already has a `PKG_ENV`
/// setting, else the proxy line added at its end.
pub open spec fn pkg_conf_spec(existing: Seq<char>, line: Seq<char>) -> Seq<char> {
    if has_substring(existing, "PKG_ENV"@) {
        existing
    } else {
        existing + line
    }
}

/// The path of pkg's configuration file.
pub open spec fn pkg_conf_path_spec() -> Seq<char> {
    "/usr/local/etc/pkg.conf"@
}

fn cat2(a: &str, b: &str) -> (r: String)
    ensures
        r@ == a@ + b@,
{
    let mut m = chars_of(a);
    append_chars(&mut m, &chars_of(b));
    string_from_chars(&m)
}

fn cat3(a: &str, b: &str, c: &str) -> (r: String)
    ensures
        r@ == a@ + b@ + c@,
{
    let mut m = chars_of(a);
    append_chars(&mut m, &chars_of(b));
    append_chars(&mut m, &chars_of(c));
    string_from_chars(&m)
}

/// The path of the repository `name`'s configuration file.
pub fn repo_conf_path(name: &str) -> (r: String)
    ensures
        r@ == repo_conf_path_spec(name@),
{
    cat3("/usr/local/etc/pkg/repos/", name, ".conf")
}

/// The text of a repository's configuration file, as `repo_conf_text_spec` says.
pub fn repo_conf_text(r: &PkgRepository) -> (t: String)
    ensures
        t@ == repo_conf_text_spec(*r),
{
    let head = cat3(&r.name, ": {\n    url: \"", &r.url);
    let flag = if r.enabled {
        "yes"
    } else {
        "no"
    };
    let tail = cat2(flag, "\n}\n");
    let t = cat3(&head, "\"\n    enabled: ", &tail);
    assert(t@ =~= repo_conf_text_spec(*r));
    t
}

/// The line that sets pkg's HTTP proxy, as `proxy_line_spec` says.
pub fn proxy_line(proxy: &str) -> (r: String)
    ensures
        r@ == proxy_line_spec(proxy@),
{
    cat3("PKG_ENV: { HTTP_PROXY: \"", proxy, "\" }\n")
}

/// The new text of pkg.conf, as `pkg_conf_spec` says.
pub fn pkg_conf_with_proxy(existing: &str, line: &str) -> (r: String)
    ensures
        r@ == pkg_conf_spec(existing@, line@),
{
    let e = chars_of(existing);
    if contains_substring(&e, &chars_of("PKG_ENV")) {
        existing.to_owned()
    } else {
        cat2(existing, line)
    }
}

/// The request handed to the package task: `install` and `remove` lists,
/// each where it is not empty; nothing where both are.
pub open spec fn packages_request_spec(install: Seq<Seq<char>>, remove: Seq<Seq<char>>) -> Option<JsonV> {
    if install.len() == 0 && remove.len() == 0 {
        None
    } else {
        Some(
            JsonV::Object(
                (if install.len() > 0 {
                    seq![("install"@, strings_json(install))]
                } else {
                    Seq::empty()
                }) + (if remove.len() > 0 {
                    seq![("remove"@, strings_json(remove))]
                } else {
                    Seq::empty()
                }),
            ),
        )
    }
}

/// The request handed to the package task, as `packages_request_spec` says.
pub fn packages_request(install: &Vec<String>, remove: &Vec<String>) -> (r: Option<Json>)
    ensures
        match r {
            Some(j) => packages_request_spec(strings_view(install@), strings_view(remove@)) == Some(j@),
            None => packages_request_spec(strings_view(install@), strings_view(remove@)) is None,
        },
{
    if install.len() == 0 && remove.len() == 0 {
        return None;
    }
    let mut m: Vec<(String, Json)> = Vec::new();
    if install.len() > 0 {
        m.push(("install".to_owned(), strings_to_json(install)));
    }
    if remove.len() > 0 {
        m.push(("remove".to_owned(), strings_to_json(remove)));
    }
    proof {
        lemma_object_view(m);
        let e = (if install@.len() > 0 {
            seq![("install"@, strings_json(strings_view(install@)))]
        } else {
            Seq::empty()
        }) + (if remove@.len() > 0 {
            seq![("remove"@, strings_json(strings_view(remove@)))]
        } else {
            Seq::empty()
        });
        assert(entries_view(m@) =~= e);
    }
    Some(Json::Object(m))
}

/// The change reported for a file that is written.
pub open spec fn updated(path: Seq<char>, text: Seq<char>) -> ChangeV {
    (TaskChangeType::Update, path, None, Some(JsonV::Str(text)), false)
}

/// The repository files to write (path and text), in order.
pub open spec fn repo_files_spec(repos: Seq<PkgRepository>) -> Seq<(Seq<char>, Seq<char>)> {
    Seq::new(repos.len(), |i: int| (repo_conf_path_spec(repos[i].name@), repo_conf_text_spec(repos[i])))
}

/// The changes reported: one per repository file, then the proxy line where a
/// proxy is given.
pub open spec fn software_changes_spec(repos: Seq<PkgRepository>, proxy: Option<Seq<char>>) -> Seq<ChangeV> {
    Seq::new(repos.len(), |i: int| updated(repo_files_spec(repos)[i].0, repo_files_spec(repos)[i].1)) + match proxy {
        Some(p) => seq![updated(pkg_conf_path_spec(), proxy_line_spec(p))],
        None => Seq::empty(),
    }
}

pub open spec fn text_pairs_view(v: Seq<(String, String)>) -> Seq<(Seq<char>, Seq<char>)> {
    Seq::new(v.len(), |i: int| (v[i].0@, v[i].1@))
}

/// The repository files to write, path and text, in order, and the changes
/// reported for the repositories and the proxy. Where `proxy` is given, the
/// caller writes `pkg_conf_with_proxy` of pkg.conf's text and `proxy_line` to
/// pkg.conf after the repository files; in a dry run nothing is written, and
/// the same changes are reported.
pub fn software_plan(repos: &Vec<PkgRepository>, proxy: &Option<String>) -> (r: (Vec<(String, String)>, Vec<TaskChange>))
    ensures
        text_pairs_view(r.0@) == repo_files_spec(repos@),
        changes_view(r.1@) == software_changes_spec(
            repos@,
            match proxy {
                Some(p) => Some(p@),
                None => None,
            },
        ),
{
    let mut files: Vec<(String, String)> = Vec::new();
    let mut changes: Vec<TaskChange> = Vec::new();
    let mut i: usize = 0;
    while i < repos.len()
        invariant
            i <= repos@.len(),
            text_pairs_view(files@) =~= repo_files_spec(repos@).subrange(0, i as int),
            changes_view(changes@) =~= Seq::new(
                i as nat,
                |k: int| updated(repo_files_spec(repos@)[k].0, repo_files_spec(repos@)[k].1),
            ),
        decreases repos.len() - i,
    {
        let path = repo_conf_path(&repos[i].name);
        let text = repo_conf_text(&repos[i]);
        let ghost f0 = text_pairs_view(files@);
        let ghost c0 = changes_view(changes@);
        files.push((path.clone(), text.clone()));
        assert(text_pairs_view(files@) =~= f0.push((path@, text@)));
        let c = TaskChange {
            change_type: TaskChangeType::Update,
            path,
            old_value: None,
            new_value: Some(Json::Str(text)),
            verbose: false,
        };
        let ghost cv = change_view(c);
        changes.push(c);
        assert(changes_view(changes@) =~= c0.push(cv));
        i = i + 1;
    }
    let ghost c1 = changes_view(changes@);
    match proxy {
        Some(p) => {
            let c = TaskChange {
                change_type: TaskChangeType::Update,
                path: "/usr/local/etc/pkg.conf".to_owned(),
                old_value: None,
                new_value: Some(Json::Str(proxy_line(p))),
                verbose: false,
            };
            let ghost cv = change_view(c);
            changes.push(c);
            assert(changes_view(changes@) =~= c1.push(cv));
        },
        None => {},
    }
    assert(changes_view(changes@) =~= software_changes_spec(
        repos@,
        match proxy {
            Some(p) => Some(p@),
            None => None,
        },
    ));
    (files, changes)
}

/// Setting the proxy is idempotent: writing pkg.conf a second time with the same
/// proxy line leaves the text as the first write left it.
pub proof fn law_proxy_setting_is_idempotent(existing: Seq<char>, proxy: Seq<char>)
    ensures
        pkg_conf_spec(pkg_conf_spec(existing, proxy_line_spec(proxy)), proxy_line_spec(proxy)) == pkg_conf_spec(
            existing,
            proxy_line_spec(proxy),
        ),
{
    let line = proxy_line_spec(proxy);
    reveal_strlit("PKG_ENV");
    reveal_strlit("PKG_ENV: { HTTP_PROXY: \"");
    assert(line.subrange(0, 7) =~= "PKG_ENV"@);
    if !has_substring(existing, "PKG_ENV"@) {
        let all = existing + line;
        assert(all.subrange(existing.len() as int, existing.len() as int + 7) =~= "PKG_ENV"@);
        assert(has_substring(all, "PKG_ENV"@));
    }
}

} // verus!
