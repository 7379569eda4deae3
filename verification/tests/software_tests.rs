use sysconfig::json_text::json_to_text;
use sysconfig::provisioning::TaskChangeType;
use sysconfig::software::{
    packages_request, pkg_conf_with_proxy, proxy_line, repo_conf_path, repo_conf_text, software_plan, PkgRepository,
};

fn repo(name: &str, url: &str, enabled: bool) -> PkgRepository {
    PkgRepository { name: name.to_string(), url: url.to_string(), enabled }
}

#[test]
fn repository_file_path_and_text() {
    assert_eq!(repo_conf_path("FreeBSD"), "/usr/local/etc/pkg/repos/FreeBSD.conf");
    assert_eq!(
        repo_conf_text(&repo("custom", "http://pkg.example/${ABI}", true)),
        "custom: {\n    url: \"http://pkg.example/${ABI}\"\n    enabled: yes\n}\n"
    );
    assert_eq!(repo_conf_text(&repo("off", "u", false)), "off: {\n    url: \"u\"\n    enabled: no\n}\n");
}

#[test]
fn proxy_line_and_pkg_conf() {
    let line = proxy_line("http://proxy:3128");
    assert_eq!(line, "PKG_ENV: { HTTP_PROXY: \"http://proxy:3128\" }\n");
    assert_eq!(pkg_conf_with_proxy("ABI = x;\n", &line), format!("ABI = x;\n{}", line));
    assert_eq!(pkg_conf_with_proxy("PKG_ENV: { A: b }\n", &line), "PKG_ENV: { A: b }\n");
    let once = pkg_conf_with_proxy("", &line);
    assert_eq!(pkg_conf_with_proxy(&once, &line), once);
}

#[test]
fn packages_request_lists_what_is_given() {
    assert!(packages_request(&vec![], &vec![]).is_none());
    let both = packages_request(&vec!["vim".to_string()], &vec!["nano".to_string()]).unwrap();
    assert_eq!(json_to_text(&both), r#"{"install":["vim"],"remove":["nano"]}"#);
    let only_remove = packages_request(&vec![], &vec!["nano".to_string()]).unwrap();
    assert_eq!(json_to_text(&only_remove), r#"{"remove":["nano"]}"#);
}

#[test]
fn software_plan_reports_repositories_then_proxy() {
    let repos = vec![repo("a", "http://a", true), repo("b", "http://b", false)];
    let (files, changes) = software_plan(&repos, &Some("http://p".to_string()));
    assert_eq!(files.len(), 2);
    assert_eq!(files[0].0, "/usr/local/etc/pkg/repos/a.conf");
    assert_eq!(files[1].1, "b: {\n    url: \"http://b\"\n    enabled: no\n}\n");
    assert_eq!(changes.len(), 3);
    assert!(changes.iter().all(|c| c.change_type == TaskChangeType::Update));
    assert_eq!(changes[2].path, "/usr/local/etc/pkg.conf");
    assert_eq!(json_to_text(changes[2].new_value.as_ref().unwrap()), r#""PKG_ENV: { HTTP_PROXY: \"http://p\" }\n""#);
    let (_, none) = software_plan(&vec![], &None);
    assert!(none.is_empty());
}
