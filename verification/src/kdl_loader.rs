//! Loading, validating and summarizing a KDL configuration.
use vstd::prelude::*;
use crate::error::{Error, ErrorV};
use crate::json::{entries_view, items_view, lemma_array_view, lemma_object_view, members_insert, obj_insert, Json, JsonV};
use crate::kdl_parser::{
    kdl_error_message,
    config_of_tree, kdl_err_text, kdl_parse, parse_kdl_str, result_model, tree_matches, KdlErrV,
    KdlInterfaceV, KdlSysConfig, KdlSysConfigV, KdlTree,
};
use crate::state::SystemState;
use crate::text::{append_chars, chars_of, message, string_from_chars};

verus! {

/// Loads a KDL configuration and checks it before it is applied.
#[derive(Debug)]
pub struct KdlConfigLoader {
    /// Path of the configuration file, once one is known.
    config_path: Option<String>,
    /// The parsed configuration.
    config: Option<KdlSysConfig>,
    /// Whether to validate only (dry run).
    validate_only: bool,
}

/// Why a configuration is refused, or `None` when it is acceptable.
pub open spec fn validation_error(c: KdlSysConfigV) -> Option<Seq<char>> {
    if c.hostname matches Some(h) && h.len() == 0 {
        Some("Hostname cannot be empty"@)
    } else if c.hostname matches Some(h) && utf8_len(h) > 255 {
        Some("Hostname too long (max 255 characters)"@)
    } else if exists|i: int| 0 <= i < c.nameservers.len() && c.nameservers[i].len() == 0 {
        Some("Nameserver address cannot be empty"@)
    } else {
        interfaces_error(c.interfaces)
    }
}

/// Length in bytes of the UTF-8 encoding of a text, as `str::len` counts.
pub open spec fn utf8_len(s: Seq<char>) -> nat {
    vstd::utf8::encode_utf8(s).len()
}

/// The first problem with the interfaces, in order.
pub open spec fn interfaces_error(ifs: Seq<KdlInterfaceV>) -> Option<Seq<char>>
    decreases ifs.len(),
{
    if ifs.len() == 0 {
        None
    } else {
        match interfaces_error(ifs.drop_last()) {
            Some(e) => Some(e),
            None => interface_error(ifs.last()),
        }
    }
}

/// The first problem with one interface.
pub open spec fn interface_error(i: KdlInterfaceV) -> Option<Seq<char>> {
    if i.name.len() == 0 {
        Some("Interface name cannot be empty"@)
    } else {
        addresses_error(i.name, i.addresses, i.addresses.len() as int)
    }
}

/// The first problem among the first `n` addresses of interface `iname`.
pub open spec fn addresses_error(iname: Seq<char>, a: Seq<crate::kdl_parser::KdlAddressV>, n: int) -> Option<Seq<char>>
    decreases n,
{
    if n <= 0 || n > a.len() {
        None
    } else {
        match addresses_error(iname, a, n - 1) {
            Some(e) => Some(e),
            None => {
                let x = a[n - 1];
                if x.name.len() == 0 {
                    Some("Address name cannot be empty for interface "@ + iname)
                } else if x.kind == "static"@ && x.address is None {
                    Some("Static address "@ + (x.name + (" on interface "@ + (iname + " requires an address value"@))))
                } else {
                    None
                }
            },
        }
    }
}

/// The summary text of a configuration.
pub open spec fn summary_text(c: KdlSysConfigV) -> Seq<char> {
    (match c.hostname {
        Some(h) => "Hostname: "@ + h + "\n"@,
        None => Seq::empty(),
    }) + (if c.nameservers.len() > 0 {
        "Nameservers: "@ + join(c.nameservers, ", "@) + "\n"@
    } else {
        Seq::empty()
    }) + (if c.interfaces.len() > 0 {
        "Interfaces: "@ + join(Seq::new(c.interfaces.len(), |i: int| c.interfaces[i].name), ", "@) + "\n"@
    } else {
        Seq::empty()
    })
}

/// The texts joined with a separator between each two.
pub open spec fn join(v: Seq<Seq<char>>, sep: Seq<char>) -> Seq<char>
    decreases v.len(),
{
    if v.len() == 0 {
        Seq::empty()
    } else if v.len() == 1 {
        v[0]
    } else {
        join(v.drop_last(), sep) + sep + v.last()
    }
}


/// The JSON form of an address: its name and kind, and its address where it has one.
pub open spec fn address_json(a: crate::kdl_parser::KdlAddressV) -> JsonV {
    let e = obj_insert(obj_insert(Seq::empty(), "name"@, JsonV::Str(a.name)), "kind"@, JsonV::Str(a.kind));
    JsonV::Object(match a.address {
        Some(x) => obj_insert(e, "address"@, JsonV::Str(x)),
        None => e,
    })
}

/// The JSON form of an interface: its name and addresses, and its selector where it has one.
pub open spec fn interface_json(i: KdlInterfaceV) -> JsonV {
    let addrs = JsonV::Array(Seq::new(i.addresses.len(), |k: int| address_json(i.addresses[k])));
    let e = obj_insert(obj_insert(Seq::empty(), "name"@, JsonV::Str(i.name)), "addresses"@, addrs);
    JsonV::Object(match i.selector {
        Some(x) => obj_insert(e, "selector"@, JsonV::Str(x)),
        None => e,
    })
}

/// The system state a configuration stands for: the hostname where there is one,
/// the nameservers where there are any, and the interfaces.
/// The message of a load refused because the text is not KDL: the given
/// prefix, then the KDL parser's message `m`.
pub open spec fn kdl_parse_failure(prefix: Seq<char>, m: Seq<char>) -> Seq<char> {
    prefix + kdl_err_text(KdlErrV::Kdl(m))
}

pub open spec fn system_state_json(c: KdlSysConfigV) -> JsonV {
    let e1 = match c.hostname {
        Some(h) => obj_insert(Seq::empty(), "hostname"@, JsonV::Str(h)),
        None => Seq::empty(),
    };
    let e2 = if c.nameservers.len() > 0 {
        obj_insert(e1, "nameservers"@, JsonV::Array(Seq::new(c.nameservers.len(), |k: int| JsonV::Str(c.nameservers[k]))))
    } else {
        e1
    };
    JsonV::Object(obj_insert(e2, "interfaces"@, JsonV::Array(Seq::new(c.interfaces.len(), |k: int| interface_json(c.interfaces[k])))))
}

fn str_json(s: &String) -> (r: Json)
    ensures
        r@ == JsonV::Str(s@),
{
    Json::Str(s.clone())
}

fn put(e: &mut Vec<(String, Json)>, key: &str, v: Json)
    ensures
        entries_view(final(e)@) == obj_insert(entries_view(old(e)@), key@, v@),
{
    members_insert(e, &chars_of(key), v);
}

fn address_to_json(a: &crate::kdl_parser::KdlAddress) -> (r: Json)
    ensures
        r@ == address_json(a.model()),
{
    let mut e: Vec<(String, Json)> = Vec::new();
    assert(entries_view(e@) =~= Seq::empty());
    put(&mut e, "name", str_json(&a.name));
    put(&mut e, "kind", str_json(&a.kind));
    match &a.address {
        Some(x) => put(&mut e, "address", str_json(x)),
        None => {},
    }
    proof {
        lemma_object_view(e);
    }
    Json::Object(e)
}

fn interface_to_json(i: &crate::kdl_parser::KdlInterface) -> (r: Json)
    ensures
        r@ == interface_json(i.model()),
{
    let ghost iv = i.model();
    let mut addrs: Vec<Json> = Vec::new();
    let mut k: usize = 0;
    while k < i.addresses.len()
        invariant
            k <= i.addresses.len(),
            iv == i.model(),
            items_view(addrs@) =~= Seq::new(k as nat, |j: int| address_json(iv.addresses[j])),
        decreases i.addresses.len() - k,
    {
        let a = address_to_json(&i.addresses[k]);
        assert(iv.addresses[k as int] == i.addresses@[k as int].model());
        let ghost before = addrs@;
        addrs.push(a);
        assert(items_view(addrs@) =~= items_view(before).push(a@));
        k = k + 1;
    }
    proof {
        lemma_array_view(addrs);
    }
    let mut e: Vec<(String, Json)> = Vec::new();
    assert(entries_view(e@) =~= Seq::empty());
    put(&mut e, "name", str_json(&i.name));
    put(&mut e, "addresses", Json::Array(addrs));
    match &i.selector {
        Some(x) => put(&mut e, "selector", str_json(x)),
        None => {},
    }
    proof {
        lemma_object_view(e);
    }
    Json::Object(e)
}

fn join_strings(v: &Vec<String>, sep: &str) -> (r: Vec<char>)
    ensures
        r@ == join(Seq::new(v@.len(), |i: int| v@[i]@), sep@),
{
    let ghost vs = Seq::new(v@.len(), |i: int| v@[i]@);
    let s = chars_of(sep);
    let mut out: Vec<char> = Vec::new();
    let mut i: usize = 0;
    while i < v.len()
        invariant
            i <= v.len(),
            s@ == sep@,
            vs == Seq::new(v@.len(), |i: int| v@[i]@),
            out@ == join(vs.subrange(0, i as int), sep@),
        decreases v.len() - i,
    {
        proof {
            let t = vs.subrange(0, i as int + 1);
            assert(t.drop_last() =~= vs.subrange(0, i as int));
            assert(t.last() == v@[i as int]@);
        }
        if i > 0 {
            append_chars(&mut out, &s);
        }
        append_chars(&mut out, &chars_of(v[i].as_str()));
        proof {
            if i == 0 {
                assert(vs.subrange(0, 1).len() == 1);
                assert(out@ =~= join(vs.subrange(0, 1), sep@));
            }
        }
        i = i + 1;
    }
    assert(vs.subrange(0, v.len() as int) =~= vs);
    out
}

impl KdlConfigLoader {
    /// The model of the loaded configuration.
    pub closed spec fn config_model(&self) -> Option<KdlSysConfigV> {
        match self.config {
            Some(c) => Some(c.model()),
            None => None,
        }
    }

    pub closed spec fn path_model(&self) -> Option<Seq<char>> {
        match self.config_path {
            Some(p) => Some(p@),
            None => None,
        }
    }

    pub closed spec fn is_validate_only(&self) -> bool {
        self.validate_only
    }

    /// A loader with nothing loaded.
    pub fn new() -> (r: KdlConfigLoader)
        ensures
            r.config_model() is None,
            r.path_model() is None,
            !r.is_validate_only(),
    {
        KdlConfigLoader { config_path: None, config: None, validate_only: false }
    }

    /// A loader for the configuration file at `path`.
    pub fn with_path(path: &str) -> (r: KdlConfigLoader)
        ensures
            r.config_model() is None,
            r.path_model() == Some(path@),
            !r.is_validate_only(),
    {
        KdlConfigLoader { config_path: Some(path.to_owned()), config: None, validate_only: false }
    }

    /// Sets validation-only (dry run) mode.
    pub fn validate_only(self, validate: bool) -> (r: KdlConfigLoader)
        ensures
            r.config_model() == self.config_model(),
            r.path_model() == self.path_model(),
            r.is_validate_only() == validate,
    {
        KdlConfigLoader { validate_only: validate, ..self }
    }

    /// The path of the configuration file, if one is known.
    pub fn config_path(&self) -> (r: Option<&String>)
        ensures
            match self.path_model() {
                Some(p) => r is Some && r->0@ == p,
                None => r is None,
            },
    {
        self.config_path.as_ref()
    }

    /// Whether the loader is in validation-only mode.
    pub fn is_validate_only_mode(&self) -> (r: bool)
        ensures
            r == self.is_validate_only(),
    {
        self.validate_only
    }

    /// Loads the configuration from the text read from the file at `path`;
    /// `content` is that text, or the read error's message.
    pub fn load_file(&mut self, path: &str, content: Result<String, String>) -> (r: Result<(), Error>)
        ensures
            content is Err ==> r is Err && r->Err_0@ == ErrorV::Plugin(
                "Failed to parse KDL file: "@ + kdl_err_text(KdlErrV::InvalidStructure("Failed to read file: "@ + content->Err_0@)))
                && *final(self) == *old(self),
            content is Ok && kdl_parse(content->Ok_0@) is Err ==> r is Err && *final(self) == *old(self)
                && r->Err_0@ == ErrorV::Plugin(kdl_parse_failure("Failed to parse KDL file: "@, kdl_error_message(kdl_parse(content->Ok_0@)->Err_0))),
            content is Ok && kdl_parse(content->Ok_0@) is Ok ==> exists|t: KdlTree|
                #[trigger] tree_matches(t, kdl_parse(content->Ok_0@)->Ok_0, 2) && match config_of_tree(t) {
                    Ok(c) => r is Ok && final(self).config_model() == Some(c) && final(self).path_model() == Some(path@)
                        && final(self).is_validate_only() == old(self).is_validate_only(),
                    Err(e) => r is Err && r->Err_0@ == ErrorV::Plugin("Failed to parse KDL file: "@ + kdl_err_text(e))
                        && *final(self) == *old(self),
                },
    {
        let text = match content {
            Ok(t) => t,
            Err(e) => {
                let inner = crate::kdl_parser::KdlParseError::InvalidStructure(
                    message("Failed to read file: ", &chars_of(e.as_str())),
                );
                let m = inner.to_message();
                return Err(Error::Plugin(message("Failed to parse KDL file: ", &chars_of(m.as_str()))));
            },
        };
        let parsed = parse_kdl_str(text.as_str());
        proof {
            if let Ok(d) = kdl_parse(text@) {
                let t = choose|t: KdlTree| tree_matches(t, d, 2) && #[trigger] config_of_tree(t) == result_model(parsed);
                assert(tree_matches(t, d, 2) && config_of_tree(t) == result_model(parsed));
            }
        }
        match parsed {
            Ok(config) => {
                let p = path.to_owned();
                self.config_path = Some(p);
                self.config = Some(config);
                Ok(())
            },
            Err(e) => {
                let m = e.to_message();
                let err = Error::Plugin(message("Failed to parse KDL file: ", &chars_of(m.as_str())));
                proof {
                    if kdl_parse(text@) is Err {
                        assert(err@ == ErrorV::Plugin(kdl_parse_failure("Failed to parse KDL file: "@, kdl_error_message(kdl_parse(text@)->Err_0))));
                    }
                }
                Err(err)
            },
        }
    }

    /// Loads the configuration from a KDL text.
    pub fn load_string(&mut self, content: &str) -> (r: Result<(), Error>)
        ensures
            kdl_parse(content@) is Err ==> r is Err && *final(self) == *old(self)
                && r->Err_0@ == ErrorV::Plugin(kdl_parse_failure("Failed to parse KDL string: "@, kdl_error_message(kdl_parse(content@)->Err_0))),
            kdl_parse(content@) matches Ok(d) ==> exists|t: KdlTree|
                #[trigger] tree_matches(t, d, 2) && match config_of_tree(t) {
                    Ok(c) => r is Ok && final(self).config_model() == Some(c) && final(self).path_model() == old(self).path_model()
                        && final(self).is_validate_only() == old(self).is_validate_only(),
                    Err(e) => r is Err && r->Err_0@ == ErrorV::Plugin("Failed to parse KDL string: "@ + kdl_err_text(e))
                        && *final(self) == *old(self),
                },
    {
        match parse_kdl_str(content) {
            Ok(config) => {
                self.config = Some(config);
                Ok(())
            },
            Err(e) => {
                let m = e.to_message();
                let err = Error::Plugin(message("Failed to parse KDL string: ", &chars_of(m.as_str())));
                proof {
                    if kdl_parse(content@) is Err {
                        assert(err@ == ErrorV::Plugin(kdl_parse_failure("Failed to parse KDL string: "@, kdl_error_message(kdl_parse(content@)->Err_0))));
                    }
                }
                Err(err)
            },
        }
    }

    /// The loaded configuration.
    pub fn get_config(&self) -> (r: Option<&KdlSysConfig>)
        ensures
            match self.config_model() {
                Some(c) => r is Some && r->0.model() == c,
                None => r is None,
            },
    {
        self.config.as_ref()
    }

    /// The system state the loaded configuration stands for.
    pub fn to_system_state(&self) -> (r: Result<SystemState, Error>)
        ensures
            match self.config_model() {
                None => r is Err && r->Err_0@ == ErrorV::State("No configuration loaded"@),
                Some(c) => r is Ok && r->Ok_0.data@ == system_state_json(c),
            },
    {
        let config = match &self.config {
            None => {
                let m = message("No configuration loaded", &Vec::new());
                assert(m@ =~= "No configuration loaded"@);
                return Err(Error::State(m));
            },
            Some(c) => c,
        };
        let ghost c = config.model();
        let mut e: Vec<(String, Json)> = Vec::new();
        assert(entries_view(e@) =~= Seq::empty());
        match &config.hostname {
            Some(h) => put(&mut e, "hostname", str_json(h)),
            None => {},
        }
        if config.nameservers.len() > 0 {
            let mut ns: Vec<Json> = Vec::new();
            let mut k: usize = 0;
            while k < config.nameservers.len()
                invariant
                    k <= config.nameservers.len(),
                    c == config.model(),
                    items_view(ns@) =~= Seq::new(k as nat, |j: int| JsonV::Str(c.nameservers[j])),
                decreases config.nameservers.len() - k,
            {
                let x = str_json(&config.nameservers[k]);
                let ghost before = ns@;
                ns.push(x);
                assert(items_view(ns@) =~= items_view(before).push(x@));
                k = k + 1;
            }
            proof {
                lemma_array_view(ns);
            }
            put(&mut e, "nameservers", Json::Array(ns));
        }
        let mut ifs: Vec<Json> = Vec::new();
        let mut k: usize = 0;
        while k < config.interfaces.len()
            invariant
                k <= config.interfaces.len(),
                c == config.model(),
                items_view(ifs@) =~= Seq::new(k as nat, |j: int| interface_json(c.interfaces[j])),
            decreases config.interfaces.len() - k,
        {
            let x = interface_to_json(&config.interfaces[k]);
            let ghost before = ifs@;
            ifs.push(x);
            assert(items_view(ifs@) =~= items_view(before).push(x@));
            k = k + 1;
        }
        proof {
            lemma_array_view(ifs);
        }
        put(&mut e, "interfaces", Json::Array(ifs));
        proof {
            lemma_object_view(e);
        }
        Ok(SystemState { data: Json::Object(e) })
    }

    /// Checks the loaded configuration.
    pub fn validate(&self) -> (r: Result<(), Error>)
        ensures
            match self.config_model() {
                None => r is Err && r->Err_0@ == ErrorV::State("No configuration loaded"@),
                Some(c) => match validation_error(c) {
                    None => r is Ok,
                    Some(m) => r is Err && r->Err_0@ == ErrorV::State(m),
                },
            },
    {
        match &self.config {
            None => Err(Error::State(message("No configuration loaded", &Vec::new()))),
            Some(c) => self.validate_configuration(c),
        }
    }

    /// Checks a configuration: the hostname is not empty and at most 255 bytes,
    /// no nameserver is empty, every interface has a name, every address has a
    /// name, and every static address has an address value.
    pub fn validate_configuration(&self, config: &KdlSysConfig) -> (r: Result<(), Error>)
        ensures
            match validation_error(config.model()) {
                None => r is Ok,
                Some(m) => r is Err && r->Err_0@ == ErrorV::State(m),
            },
    {
        let ghost c = config.model();
        match &config.hostname {
            Some(h) => {
                let n = h.as_str().unicode_len();
                proof {
                    lemma_utf8_len_bounds(h@);
                }
                if n == 0 {
                    let r = message("Hostname cannot be empty", &Vec::new());
                    assert(r@ =~= "Hostname cannot be empty"@);
                    return Err(Error::State(r));
                }
                if n > 255 || h.as_str().len() > 255 {
                    let r = message("Hostname too long (max 255 characters)", &Vec::new());
                    assert(r@ =~= "Hostname too long (max 255 characters)"@);
                    return Err(Error::State(r));
                }
            },
            None => {},
        }
        let mut i: usize = 0;
        while i < config.nameservers.len()
            invariant
                i <= config.nameservers.len(),
                c == config.model(),
                c.hostname matches Some(h) ==> h.len() > 0 && utf8_len(h) <= 255,
                forall|j: int| 0 <= j < i ==> c.nameservers[j].len() > 0,
            decreases config.nameservers.len() - i,
        {
            if config.nameservers[i].as_str().unicode_len() == 0 {
                assert(c.nameservers[i as int].len() == 0);
                let r = message("Nameserver address cannot be empty", &Vec::new());
                assert(r@ =~= "Nameserver address cannot be empty"@);
                return Err(Error::State(r));
            }
            i = i + 1;
        }
        let mut k: usize = 0;
        while k < config.interfaces.len()
            invariant
                k <= config.interfaces.len(),
                c == config.model(),
                c.hostname matches Some(h) ==> h.len() > 0 && utf8_len(h) <= 255,
                forall|j: int| 0 <= j < c.nameservers.len() ==> c.nameservers[j].len() > 0,
                interfaces_error(c.interfaces.subrange(0, k as int)) is None,
            decreases config.interfaces.len() - k,
        {
            let iface = &config.interfaces[k];
            let ghost iv = c.interfaces[k as int];
            proof {
                assert(c.interfaces.subrange(0, k as int + 1).drop_last() =~= c.interfaces.subrange(0, k as int));
                assert(c.interfaces.subrange(0, k as int + 1).last() == iv);
                assert(iv == iface.model());
            }
            if iface.name.as_str().unicode_len() == 0 {
                proof {
                    lemma_interfaces_error_stays(c.interfaces, k as int + 1);
                }
                let r = message("Interface name cannot be empty", &Vec::new());
                assert(r@ =~= "Interface name cannot be empty"@);
                return Err(Error::State(r));
            }
            let mut a: usize = 0;
            while a < iface.addresses.len()
                invariant
                    a <= iface.addresses.len(),
                    k < config.interfaces.len(),
                    c == config.model(),
                    c.hostname matches Some(h) ==> h.len() > 0 && utf8_len(h) <= 255,
                    forall|j: int| 0 <= j < c.nameservers.len() ==> c.nameservers[j].len() > 0,
                    interfaces_error(c.interfaces.subrange(0, k as int)) is None,
                    c.interfaces.subrange(0, k as int + 1).drop_last() == c.interfaces.subrange(0, k as int),
                    c.interfaces.subrange(0, k as int + 1).last() == iv,
                    iv == iface.model(),
                    iv.name.len() > 0,
                    addresses_error(iv.name, iv.addresses, a as int) is None,
                decreases iface.addresses.len() - a,
            {
                let addr = &iface.addresses[a];
                assert(iv.addresses[a as int] == addr.model());
                if addr.name.as_str().unicode_len() == 0 {
                    let r = message("Address name cannot be empty for interface ", &chars_of(iface.name.as_str()));
                    proof {
                        lemma_addresses_error_stays(iv.name, iv.addresses, a as int + 1, iv.addresses.len() as int);
                        lemma_interfaces_error_stays(c.interfaces, k as int + 1);
                    }
                    return Err(Error::State(r));
                }
                let is_static = {
                    let k1 = chars_of(addr.kind.as_str());
                    crate::text::chars_eq(&k1, &chars_of("static"))
                };
                if is_static && addr.address.is_none() {
                    let mut t = chars_of(addr.name.as_str());
                    append_chars(&mut t, &chars_of(" on interface "));
                    append_chars(&mut t, &chars_of(iface.name.as_str()));
                    append_chars(&mut t, &chars_of(" requires an address value"));
                    let r = message("Static address ", &t);
                    proof {
                        let x = iv.addresses[a as int];
                        assert(r@ =~= "Static address "@ + (x.name + (" on interface "@ + (iv.name + " requires an address value"@))));
                        lemma_addresses_error_stays(iv.name, iv.addresses, a as int + 1, iv.addresses.len() as int);
                        lemma_interfaces_error_stays(c.interfaces, k as int + 1);
                    }
                    return Err(Error::State(r));
                }
                a = a + 1;
            }
            k = k + 1;
        }
        proof {
            assert(c.interfaces.subrange(0, config.interfaces.len() as int) =~= c.interfaces);
        }
        Ok(())
    }

    /// A human-readable summary of the loaded configuration.
    pub fn summary(&self) -> (r: String)
        ensures
            match self.config_model() {
                None => r@ == "No configuration loaded"@,
                Some(c) => r@ == summary_text(c),
            },
    {
        match &self.config {
            None => string_from_chars(&chars_of("No configuration loaded")),
            Some(config) => {
                let mut out: Vec<char> = Vec::new();
                match &config.hostname {
                    Some(h) => {
                        append_chars(&mut out, &chars_of("Hostname: "));
                        append_chars(&mut out, &chars_of(h.as_str()));
                        append_chars(&mut out, &chars_of("\n"));
                    },
                    None => {},
                }
                let ghost p1 = out@;
                if config.nameservers.len() > 0 {
                    append_chars(&mut out, &chars_of("Nameservers: "));
                    append_chars(&mut out, &join_strings(&config.nameservers, ", "));
                    append_chars(&mut out, &chars_of("\n"));
                }
                let ghost p2 = out@;
                if config.interfaces.len() > 0 {
                    let mut names: Vec<String> = Vec::new();
                    let mut i: usize = 0;
                    while i < config.interfaces.len()
                        invariant
                            i <= config.interfaces.len(),
                            names@.len() == i,
                            forall|j: int| 0 <= j < i ==> (#[trigger] names@[j])@ == config.interfaces@[j].name@,
                        decreases config.interfaces.len() - i,
                    {
                        names.push(config.interfaces[i].name.clone());
                        i = i + 1;
                    }
                    append_chars(&mut out, &chars_of("Interfaces: "));
                    let joined = join_strings(&names, ", ");
                    proof {
                        let c = config.model();
                        assert(Seq::new(names@.len(), |i: int| names@[i]@) =~= Seq::new(c.interfaces.len(), |i: int| c.interfaces[i].name));
                    }
                    append_chars(&mut out, &joined);
                    append_chars(&mut out, &chars_of("\n"));
                }
                proof {
                    let c = config.model();
                    assert(c.nameservers == Seq::new(config.nameservers@.len(), |i: int| config.nameservers@[i]@));
                    assert(out@ =~= summary_text(c));
                }
                string_from_chars(&out)
            },
        }
    }
}

proof fn lemma_utf8_len_bounds(s: Seq<char>)
    ensures
        s.len() <= utf8_len(s) <= 4 * s.len(),
    decreases s.len(),
{
    if s.len() > 0 {
        lemma_utf8_len_bounds(s.drop_first());
        let e = vstd::utf8::encode_scalar(s[0] as u32);
        assert(1 <= e.len() <= 4);
    }
}

proof fn lemma_addresses_error_stays(iname: Seq<char>, a: Seq<crate::kdl_parser::KdlAddressV>, n: int, m: int)
    requires
        0 < n <= m <= a.len(),
        addresses_error(iname, a, n) is Some,
    ensures
        addresses_error(iname, a, m) == addresses_error(iname, a, n),
    decreases m - n,
{
    if n < m {
        lemma_addresses_error_stays(iname, a, n, m - 1);
    }
}

proof fn lemma_interfaces_error_stays(ifs: Seq<KdlInterfaceV>, k: int)
    requires
        0 < k <= ifs.len(),
        interfaces_error(ifs.subrange(0, k)) is Some,
    ensures
        interfaces_error(ifs) == interfaces_error(ifs.subrange(0, k)),
    decreases ifs.len() - k,
{
    if k < ifs.len() {
        assert(ifs.subrange(0, k + 1).drop_last() =~= ifs.subrange(0, k));
        lemma_interfaces_error_stays(ifs, k + 1);
    } else {
        assert(ifs.subrange(0, k) =~= ifs);
    }
}

} // verus!
