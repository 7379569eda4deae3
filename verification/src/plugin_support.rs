//! Settings shared by the base plugins: socket paths and dry-run selection.
use vstd::prelude::*;
use crate::text::{append_chars, chars_of, dec_digits, string_from_chars, u64_to_dec};

verus! {

/// The socket of the configuration service (FreeBSD).
pub fn default_sysconfig_socket_path() -> (r: String)
    ensures
        r@ == "/var/run/sysconfig.sock"@,
{
    "/var/run/sysconfig.sock".to_owned()
}

/// The socket of the FreeBSD base plugin.
pub fn default_plugin_socket_path() -> (r: String)
    ensures
        r@ == "/var/run/sysconfig-freebsd-base.sock"@,
{
    "/var/run/sysconfig-freebsd-base.sock".to_owned()
}

/// Dry-run mode is chosen automatically when the plugin does not run as root.
pub fn should_auto_enable_dry_run(is_root: bool) -> (r: bool)
    ensures
        r == !is_root,
{
    !is_root
}

/// Where a socket named `name` lives on illumos: under /var/run for root, else in
/// the runtime directory (`/tmp/run-` and the user id where none is set).
pub open spec fn illumos_socket_path_spec(is_root: bool, runtime_dir: Option<Seq<char>>, euid: u32, name: Seq<char>) -> Seq<char> {
    if is_root {
        "/var/run/"@ + name
    } else {
        (match runtime_dir {
            Some(d) => d,
            None => "/tmp/run-"@ + dec_digits(euid as nat),
        }) + "/"@ + name
    }
}

/// The path of a socket on illumos, as `illumos_socket_path_spec` says.
pub fn illumos_socket_path(is_root: bool, runtime_dir: Option<&str>, euid: u32, name: &str) -> (r: String)
    ensures
        r@ == illumos_socket_path_spec(
            is_root,
            match runtime_dir {
                Some(d) => Some(d@),
                None => None,
            },
            euid,
            name@,
        ),
{
    let mut p = if is_root {
        chars_of("/var/run")
    } else {
        match runtime_dir {
            Some(d) => chars_of(d),
            None => {
                let mut t = chars_of("/tmp/run-");
                append_chars(&mut t, &u64_to_dec(euid as u64));
                t
            },
        }
    };
    append_chars(&mut p, &chars_of("/"));
    append_chars(&mut p, &chars_of(name));
    proof {
        reveal_strlit("/var/run");
        reveal_strlit("/var/run/");
        reveal_strlit("/");
    }
    assert(p@ =~= illumos_socket_path_spec(
        is_root,
        match runtime_dir {
            Some(d) => Some(d@),
            None => None,
        },
        euid,
        name@,
    ));
    string_from_chars(&p)
}

/// Where a socket named `name` lives on Linux: in the runtime directory where one
/// is set, else under /var/run for root and /run/user/<uid> for other users.
pub open spec fn linux_socket_path_spec(runtime_dir: Option<Seq<char>>, euid: u32, name: Seq<char>) -> Seq<char> {
    match runtime_dir {
        Some(d) => d + "/"@ + name,
        None => if euid == 0 {
            "/var/run/"@ + name
        } else {
            "/run/user/"@ + dec_digits(euid as nat) + "/"@ + name
        },
    }
}

/// The path of a socket on Linux, as `linux_socket_path_spec` says.
pub fn linux_socket_path(runtime_dir: Option<&str>, euid: u32, name: &str) -> (r: String)
    ensures
        r@ == linux_socket_path_spec(
            match runtime_dir {
                Some(d) => Some(d@),
                None => None,
            },
            euid,
            name@,
        ),
{
    let mut p = match runtime_dir {
        Some(d) => {
            let mut t = chars_of(d);
            append_chars(&mut t, &chars_of("/"));
            t
        },
        None => if euid == 0 {
            chars_of("/var/run/")
        } else {
            let mut t = chars_of("/run/user/");
            append_chars(&mut t, &u64_to_dec(euid as u64));
            append_chars(&mut t, &chars_of("/"));
            t
        },
    };
    append_chars(&mut p, &chars_of(name));
    string_from_chars(&p)
}

} // verus!
