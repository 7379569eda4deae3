//! The provisioning data sources: their settings, their priorities, and the
//! decisions about which source to use.
use vstd::prelude::*;
use crate::kdl_parser::strings_view;
use crate::prov_config::CloudVendor;
use crate::text::{
    chars_of, contains_substring, has_substring, str_eq, to_lowercase, trim, trim_chars, unicode_lowercase,
};

verus! {

/// The priority of each kind of source; a lower number takes precedence.
#[derive(Debug, Clone, Copy, PartialEq, Eq, Structural)]
pub enum SourcePriority {
    LocalFile,
    CloudInit,
    EC2,
    Azure,
    GCP,
    DigitalOcean,
    OpenStack,
    SmartOS,
}

/// The number of a priority.
pub open spec fn priority_number(p: SourcePriority) -> u32 {
    match p {
        SourcePriority::LocalFile => 1,
        SourcePriority::CloudInit => 10,
        SourcePriority::EC2 => 20,
        SourcePriority::Azure => 21,
        SourcePriority::GCP => 22,
        SourcePriority::DigitalOcean => 23,
        SourcePriority::OpenStack => 24,
        SourcePriority::SmartOS => 30,
    }
}

impl SourcePriority {
    /// The priority's number.
    pub fn value(&self) -> (r: u32)
        ensures
            r == priority_number(*self),
    {
        match self {
            SourcePriority::LocalFile => 1,
            SourcePriority::CloudInit => 10,
            SourcePriority::EC2 => 20,
            SourcePriority::Azure => 21,
            SourcePriority::GCP => 22,
            SourcePriority::DigitalOcean => 23,
            SourcePriority::OpenStack => 24,
            SourcePriority::SmartOS => 30,
        }
    }
}

/// The priority of the source with the given name, for the names that exist.
pub open spec fn source_priority_spec(name: Seq<char>) -> Option<SourcePriority> {
    if name == "local"@ {
        Some(SourcePriority::LocalFile)
    } else if name == "cloud-init"@ {
        Some(SourcePriority::CloudInit)
    } else if name == "ec2"@ {
        Some(SourcePriority::EC2)
    } else if name == "azure"@ {
        Some(SourcePriority::Azure)
    } else if name == "gcp"@ {
        Some(SourcePriority::GCP)
    } else if name == "digitalocean"@ {
        Some(SourcePriority::DigitalOcean)
    } else if name == "openstack"@ {
        Some(SourcePriority::OpenStack)
    } else if name == "smartos"@ {
        Some(SourcePriority::SmartOS)
    } else {
        None
    }
}

/// The priority of the named source; `None` for an unknown name.
pub fn source_priority(name: &str) -> (r: Option<SourcePriority>)
    ensures
        r == source_priority_spec(name@),
{
    if str_eq(name, "local") {
        Some(SourcePriority::LocalFile)
    } else if str_eq(name, "cloud-init") {
        Some(SourcePriority::CloudInit)
    } else if str_eq(name, "ec2") {
        Some(SourcePriority::EC2)
    } else if str_eq(name, "azure") {
        Some(SourcePriority::Azure)
    } else if str_eq(name, "gcp") {
        Some(SourcePriority::GCP)
    } else if str_eq(name, "digitalocean") {
        Some(SourcePriority::DigitalOcean)
    } else if str_eq(name, "openstack") {
        Some(SourcePriority::OpenStack)
    } else if str_eq(name, "smartos") {
        Some(SourcePriority::SmartOS)
    } else {
        None
    }
}

/// The vendor that a DMI system vendor text (trimmed and in lowercase) names.
pub open spec fn vendor_of_sys_vendor(v: Seq<char>) -> Option<CloudVendor> {
    if has_substring(v, "amazon"@) || has_substring(v, "ec2"@) {
        Some(CloudVendor::EC2)
    } else if has_substring(v, "microsoft"@) {
        Some(CloudVendor::Azure)
    } else if has_substring(v, "google"@) {
        Some(CloudVendor::GCP)
    } else if has_substring(v, "digitalocean"@) {
        Some(CloudVendor::DigitalOcean)
    } else if has_substring(v, "openstack"@) {
        Some(CloudVendor::OpenStack)
    } else {
        None
    }
}

/// The vendor that a DMI product name (trimmed and in lowercase) names.
pub open spec fn vendor_of_product(p: Seq<char>) -> Option<CloudVendor> {
    if has_substring(p, "openstack"@) {
        Some(CloudVendor::OpenStack)
    } else if has_substring(p, "droplet"@) {
        Some(CloudVendor::DigitalOcean)
    } else {
        None
    }
}

/// A DMI text as it is compared: trimmed, then in lowercase.
pub open spec fn dmi_key(s: Seq<char>) -> Seq<char> {
    unicode_lowercase(trim(s))
}

/// The vendor that the DMI system vendor and product name files name, each where
/// it could be read; the system vendor is asked first.
pub open spec fn vendor_from_dmi_spec(sys_vendor: Option<Seq<char>>, product: Option<Seq<char>>) -> Option<CloudVendor> {
    let by_vendor = match sys_vendor {
        Some(v) => vendor_of_sys_vendor(dmi_key(v)),
        None => None,
    };
    if by_vendor is Some {
        by_vendor
    } else {
        match product {
            Some(p) => vendor_of_product(dmi_key(p)),
            None => None,
        }
    }
}

fn has(s: &Vec<char>, t: &str) -> (r: bool)
    ensures
        r == has_substring(s@, t@),
{
    contains_substring(s, &chars_of(t))
}

fn dmi_text(s: &str) -> (r: Vec<char>)
    ensures
        r@ == dmi_key(s@),
{
    let t = trim_chars(&chars_of(s));
    let st = crate::text::string_from_chars(&t);
    chars_of(to_lowercase(st.as_str()).as_str())
}

/// Which vendor the DMI texts name; `sys_vendor` and `product` are the contents of
/// the system vendor and product name files, each where it could be read.
pub fn vendor_from_dmi(sys_vendor: Option<&str>, product: Option<&str>) -> (r: Option<CloudVendor>)
    ensures
        r == vendor_from_dmi_spec(
            match sys_vendor {
                Some(v) => Some(v@),
                None => None,
            },
            match product {
                Some(p) => Some(p@),
                None => None,
            },
        ),
{
    match sys_vendor {
        Some(v) => {
            let k = dmi_text(v);
            if has(&k, "amazon") || has(&k, "ec2") {
                return Some(CloudVendor::EC2);
            }
            if has(&k, "microsoft") {
                return Some(CloudVendor::Azure);
            }
            if has(&k, "google") {
                return Some(CloudVendor::GCP);
            }
            if has(&k, "digitalocean") {
                return Some(CloudVendor::DigitalOcean);
            }
            if has(&k, "openstack") {
                return Some(CloudVendor::OpenStack);
            }
        },
        None => {},
    }
    match product {
        Some(p) => {
            let k = dmi_text(p);
            if has(&k, "openstack") {
                return Some(CloudVendor::OpenStack);
            }
            if has(&k, "droplet") {
                return Some(CloudVendor::DigitalOcean);
            }
            None
        },
        None => None,
    }
}

/// The vendor that an SMBIOS system table text (in lowercase) names.
pub open spec fn vendor_of_smbios(t: Seq<char>) -> Option<CloudVendor> {
    if has_substring(t, "joyent"@) || has_substring(t, "smartdc"@) {
        Some(CloudVendor::SmartOS)
    } else if has_substring(t, "amazon"@) || has_substring(t, "ec2"@) {
        Some(CloudVendor::EC2)
    } else if has_substring(t, "digitalocean"@) {
        Some(CloudVendor::DigitalOcean)
    } else if has_substring(t, "google"@) {
        Some(CloudVendor::GCP)
    } else {
        None
    }
}

/// Which vendor the text printed by `smbios -t 1` names.
pub fn vendor_from_smbios(text: &str) -> (r: Option<CloudVendor>)
    ensures
        r == vendor_of_smbios(unicode_lowercase(text@)),
{
    let k = chars_of(to_lowercase(text).as_str());
    if has(&k, "joyent") || has(&k, "smartdc") {
        Some(CloudVendor::SmartOS)
    } else if has(&k, "amazon") || has(&k, "ec2") {
        Some(CloudVendor::EC2)
    } else if has(&k, "digitalocean") {
        Some(CloudVendor::DigitalOcean)
    } else if has(&k, "google") {
        Some(CloudVendor::GCP)
    } else {
        None
    }
}

/// The source that serves a vendor, and its name as the disabled list writes it;
/// `None` for the vendors that no source serves.
pub open spec fn vendor_source_spec(v: CloudVendor) -> Option<(Seq<char>, Seq<char>)> {
    match v {
        CloudVendor::EC2 => Some(("ec2"@, "EC2"@)),
        CloudVendor::Azure => Some(("azure"@, "Azure"@)),
        CloudVendor::GCP => Some(("gcp"@, "GCP"@)),
        CloudVendor::DigitalOcean => Some(("digitalocean"@, "DigitalOcean"@)),
        CloudVendor::OpenStack => Some(("openstack"@, "OpenStack"@)),
        CloudVendor::SmartOS => Some(("smartos"@, "SmartOS"@)),
        _ => None,
    }
}

/// Why no source serves a vendor.
pub open spec fn vendor_unserved_message(v: CloudVendor) -> Seq<char> {
    match v {
        CloudVendor::VMware => "VMware source not yet implemented"@,
        CloudVendor::Oracle => "Oracle Cloud source not yet implemented"@,
        _ => "Could not detect cloud vendor"@,
    }
}

/// Manages the configuration sources.
#[derive(Debug)]
pub struct SourceManager {
    disabled_sources: Vec<String>,
    timeout_seconds: u64,
}

impl SourceManager {
    /// The names of the disabled sources.
    pub closed spec fn disabled(&self) -> Seq<Seq<char>> {
        strings_view(self.disabled_sources@)
    }

    /// The timeout for metadata requests, in seconds.
    pub closed spec fn timeout(&self) -> u64 {
        self.timeout_seconds
    }

    /// A manager with no disabled source and a timeout of 5 seconds.
    pub fn new() -> (r: SourceManager)
        ensures
            r.disabled() == Seq::<Seq<char>>::empty(),
            r.timeout() == 5,
    {
        let r = SourceManager { disabled_sources: Vec::new(), timeout_seconds: 5 };
        assert(r.disabled() =~= Seq::<Seq<char>>::empty());
        r
    }

    /// A manager with the given sources disabled and a timeout of 5 seconds.
    pub fn with_disabled(disabled_sources: Vec<String>) -> (r: SourceManager)
        ensures
            r.disabled() == strings_view(disabled_sources@),
            r.timeout() == 5,
    {
        SourceManager { disabled_sources, timeout_seconds: 5 }
    }

    /// Sets the timeout for metadata requests.
    pub fn set_timeout(&mut self, seconds: u64)
        ensures
            final(self).timeout() == seconds,
            final(self).disabled() == old(self).disabled(),
    {
        self.timeout_seconds = seconds;
    }

    /// Sets the timeout for the sources reached over the network.
    pub fn set_network_timeout(&mut self, seconds: u64)
        ensures
            final(self).timeout() == seconds,
            final(self).disabled() == old(self).disabled(),
    {
        self.timeout_seconds = seconds;
    }

    /// The timeout for metadata requests, in seconds.
    pub fn timeout_seconds(&self) -> (r: u64)
        ensures
            r == self.timeout(),
    {
        self.timeout_seconds
    }

    /// Disables a source, unless it is disabled already.
    pub fn disable_source(&mut self, source: &str)
        ensures
            final(self).disabled() == (if old(self).disabled().contains(source@) {
                old(self).disabled()
            } else {
                old(self).disabled().push(source@)
            }),
            final(self).timeout() == old(self).timeout(),
    {
        if !self.is_source_disabled(source) {
            let ghost before = self.disabled();
            self.disabled_sources.push(source.to_owned());
            assert(self.disabled() =~= before.push(source@));
        }
    }

    /// Whether the named source is disabled.
    pub fn is_source_disabled(&self, source_name: &str) -> (r: bool)
        ensures
            r == self.disabled().contains(source_name@),
    {
        let mut i: usize = 0;
        while i < self.disabled_sources.len()
            invariant
                i <= self.disabled_sources@.len(),
                forall|k: int| 0 <= k < i ==> self.disabled_sources@[k]@ != source_name@,
            decreases self.disabled_sources.len() - i,
        {
            if str_eq(self.disabled_sources[i].as_str(), source_name) {
                assert(self.disabled()[i as int] == source_name@);
                return true;
            }
            i = i + 1;
        }
        proof {
            if self.disabled().contains(source_name@) {
                let k = choose|k: int| 0 <= k < self.disabled().len() && self.disabled()[k] == source_name@;
                assert(self.disabled_sources@[k]@ == source_name@);
            }
        }
        false
    }

    /// The priority under which the named source is loaded, or `None` where it is
    /// disabled or unknown.
    pub fn load_priority(&self, source_name: &str) -> (r: Option<SourcePriority>)
        ensures
            r == (if self.disabled().contains(source_name@) {
                None
            } else {
                source_priority_spec(source_name@)
            }),
    {
        if self.is_source_disabled(source_name) {
            None
        } else {
            source_priority(source_name)
        }
    }

    /// Whether the local configuration file may be loaded.
    pub fn check_local_enabled(&self) -> (r: Result<(), String>)
        ensures
            self.disabled().contains("local"@) ==> r is Err && r->Err_0@ == "Local source is disabled"@,
            !self.disabled().contains("local"@) ==> r is Ok,
    {
        if self.is_source_disabled("local") {
            Err("Local source is disabled".to_owned())
        } else {
            Ok(())
        }
    }

    /// Whether cloud-init may be loaded.
    pub fn check_cloud_init_enabled(&self) -> (r: Result<(), String>)
        ensures
            self.disabled().contains("cloud-init"@) ==> r is Err && r->Err_0@ == "Cloud-init source is disabled"@,
            !self.disabled().contains("cloud-init"@) ==> r is Ok,
    {
        if self.is_source_disabled("cloud-init") {
            Err("Cloud-init source is disabled".to_owned())
        } else {
            Ok(())
        }
    }

    /// The source to load for a detected vendor, or why there is none: no source
    /// serves the vendor, or its source is disabled.
    pub fn vendor_source(&self, vendor: CloudVendor) -> (r: Result<String, String>)
        ensures
            match vendor_source_spec(vendor) {
                None => r is Err && r->Err_0@ == vendor_unserved_message(vendor),
                Some((name, label)) => if self.disabled().contains(name) {
                    r is Err && r->Err_0@ == label + " source is disabled"@
                } else {
                    r is Ok && r->Ok_0@ == name
                },
            },
    {
        let (name, label) = match vendor {
            CloudVendor::EC2 => ("ec2", "EC2"),
            CloudVendor::Azure => ("azure", "Azure"),
            CloudVendor::GCP => ("gcp", "GCP"),
            CloudVendor::DigitalOcean => ("digitalocean", "DigitalOcean"),
            CloudVendor::OpenStack => ("openstack", "OpenStack"),
            CloudVendor::SmartOS => ("smartos", "SmartOS"),
            CloudVendor::VMware => {
                return Err("VMware source not yet implemented".to_owned());
            },
            CloudVendor::Oracle => {
                return Err("Oracle Cloud source not yet implemented".to_owned());
            },
            CloudVendor::Unknown => {
                return Err("Could not detect cloud vendor".to_owned());
            },
        };
        if self.is_source_disabled(name) {
            let mut m = chars_of(label);
            crate::text::append_chars(&mut m, &chars_of(" source is disabled"));
            Err(crate::text::string_from_chars(&m))
        } else {
            Ok(name.to_owned())
        }
    }
}

/// The Azure instance metadata source.
#[derive(Debug)]
pub struct AzureSource {
    metadata_url: String,
    api_version: String,
    timeout_seconds: u64,
}

impl AzureSource {
    pub closed spec fn url(&self) -> Seq<char> {
        self.metadata_url@
    }

    pub closed spec fn version(&self) -> Seq<char> {
        self.api_version@
    }

    pub closed spec fn timeout(&self) -> u64 {
        self.timeout_seconds
    }

    /// The source at the link-local metadata address, API version 2021-01-01, with a
    /// timeout of 5 seconds.
    pub fn new() -> (r: AzureSource)
        ensures
            r.url() == "http://169.254.169.254"@,
            r.version() == "2021-01-01"@,
            r.timeout() == 5,
    {
        AzureSource {
            metadata_url: "http://169.254.169.254".to_owned(),
            api_version: "2021-01-01".to_owned(),
            timeout_seconds: 5,
        }
    }

    /// Sets the timeout for metadata requests.
    pub fn set_timeout(&mut self, seconds: u64)
        ensures
            final(self).timeout() == seconds,
            final(self).url() == old(self).url(),
            final(self).version() == old(self).version(),
    {
        self.timeout_seconds = seconds;
    }

    /// Sets the API version.
    pub fn set_api_version(&mut self, version: String)
        ensures
            final(self).version() == version@,
            final(self).url() == old(self).url(),
            final(self).timeout() == old(self).timeout(),
    {
        self.api_version = version;
    }

    pub fn metadata_url(&self) -> (r: &String)
        ensures
            r@ == self.url(),
    {
        &self.metadata_url
    }

    pub fn api_version(&self) -> (r: &String)
        ensures
            r@ == self.version(),
    {
        &self.api_version
    }

    pub fn timeout_seconds(&self) -> (r: u64)
        ensures
            r == self.timeout(),
    {
        self.timeout_seconds
    }
}

/// The cloud-init source: metadata service, config drives and NoCloud seed.
#[derive(Debug)]
pub struct CloudInitSource {
    metadata_url: String,
    timeout_seconds: u64,
    config_drive_paths: Vec<String>,
    nocloud_path: String,
}

impl CloudInitSource {
    pub closed spec fn url(&self) -> Seq<char> {
        self.metadata_url@
    }

    pub closed spec fn timeout(&self) -> u64 {
        self.timeout_seconds
    }

    pub closed spec fn drive_paths(&self) -> Seq<Seq<char>> {
        strings_view(self.config_drive_paths@)
    }

    pub closed spec fn nocloud(&self) -> Seq<char> {
        self.nocloud_path@
    }

    /// The source with the usual config drive mount points and NoCloud seed
    /// directory, and a timeout of 5 seconds.
    pub fn new() -> (r: CloudInitSource)
        ensures
            r.url() == "http://169.254.169.254"@,
            r.timeout() == 5,
            r.drive_paths() == seq!["/mnt/config-2"@, "/mnt/config"@, "/media/config-2"@, "/media/config"@],
            r.nocloud() == "/var/lib/cloud/seed/nocloud"@,
    {
        let paths = vec![
            "/mnt/config-2".to_owned(),
            "/mnt/config".to_owned(),
            "/media/config-2".to_owned(),
            "/media/config".to_owned(),
        ];
        let r = CloudInitSource {
            metadata_url: "http://169.254.169.254".to_owned(),
            timeout_seconds: 5,
            config_drive_paths: paths,
            nocloud_path: "/var/lib/cloud/seed/nocloud".to_owned(),
        };
        assert(r.drive_paths() =~= seq!["/mnt/config-2"@, "/mnt/config"@, "/media/config-2"@, "/media/config"@]);
        r
    }

    /// Sets the timeout for metadata requests.
    pub fn set_timeout(&mut self, seconds: u64)
        ensures
            final(self).timeout() == seconds,
            final(self).url() == old(self).url(),
            final(self).drive_paths() == old(self).drive_paths(),
            final(self).nocloud() == old(self).nocloud(),
    {
        self.timeout_seconds = seconds;
    }

    /// Adds a config drive mount point to check, unless it is there already.
    pub fn add_config_drive_path(&mut self, path: String)
        ensures
            final(self).drive_paths() == (if old(self).drive_paths().contains(path@) {
                old(self).drive_paths()
            } else {
                old(self).drive_paths().push(path@)
            }),
            final(self).url() == old(self).url(),
            final(self).timeout() == old(self).timeout(),
            final(self).nocloud() == old(self).nocloud(),
    {
        let mut i: usize = 0;
        while i < self.config_drive_paths.len()
            invariant
                i <= self.config_drive_paths@.len(),
                forall|k: int| 0 <= k < i ==> self.config_drive_paths@[k]@ != path@,
            decreases self.config_drive_paths.len() - i,
        {
            if str_eq(self.config_drive_paths[i].as_str(), path.as_str()) {
                assert(self.drive_paths()[i as int] == path@);
                return;
            }
            i = i + 1;
        }
        proof {
            if self.drive_paths().contains(path@) {
                let k = choose|k: int| 0 <= k < self.drive_paths().len() && self.drive_paths()[k] == path@;
                assert(self.config_drive_paths@[k]@ == path@);
            }
        }
        let ghost before = self.drive_paths();
        self.config_drive_paths.push(path);
        assert(self.drive_paths() =~= before.push(self.config_drive_paths@.last()@));
    }

    /// Sets the NoCloud seed directory.
    pub fn set_nocloud_path(&mut self, path: String)
        ensures
            final(self).nocloud() == path@,
            final(self).url() == old(self).url(),
            final(self).timeout() == old(self).timeout(),
            final(self).drive_paths() == old(self).drive_paths(),
    {
        self.nocloud_path = path;
    }

    pub fn metadata_url(&self) -> (r: &String)
        ensures
            r@ == self.url(),
    {
        &self.metadata_url
    }

    pub fn timeout_seconds(&self) -> (r: u64)
        ensures
            r == self.timeout(),
    {
        self.timeout_seconds
    }

    pub fn config_drive_paths(&self) -> (r: &Vec<String>)
        ensures
            strings_view(r@) == self.drive_paths(),
    {
        &self.config_drive_paths
    }

    pub fn nocloud_path(&self) -> (r: &String)
        ensures
            r@ == self.nocloud(),
    {
        &self.nocloud_path
    }
}

/// The DigitalOcean metadata source.
#[derive(Debug)]
pub struct DigitalOceanSource {
    metadata_url: String,
    timeout_seconds: u64,
    config_drive_path: String,
}

impl DigitalOceanSource {
    pub closed spec fn url(&self) -> Seq<char> {
        self.metadata_url@
    }

    pub closed spec fn timeout(&self) -> u64 {
        self.timeout_seconds
    }

    pub closed spec fn drive_path(&self) -> Seq<char> {
        self.config_drive_path@
    }

    /// The source at the link-local metadata address, with its config drive at
    /// /mnt/config-2 and a timeout of 5 seconds.
    pub fn new() -> (r: DigitalOceanSource)
        ensures
            r.url() == "http://169.254.169.254"@,
            r.timeout() == 5,
            r.drive_path() == "/mnt/config-2"@,
    {
        DigitalOceanSource {
            metadata_url: "http://169.254.169.254".to_owned(),
            timeout_seconds: 5,
            config_drive_path: "/mnt/config-2".to_owned(),
        }
    }

    /// Sets the timeout for metadata requests.
    pub fn set_timeout(&mut self, seconds: u64)
        ensures
            final(self).timeout() == seconds,
            final(self).url() == old(self).url(),
            final(self).drive_path() == old(self).drive_path(),
    {
        self.timeout_seconds = seconds;
    }

    /// Sets the config drive mount point.
    pub fn set_config_drive_path(&mut self, path: String)
        ensures
            final(self).drive_path() == path@,
            final(self).url() == old(self).url(),
            final(self).timeout() == old(self).timeout(),
    {
        self.config_drive_path = path;
    }

    pub fn metadata_url(&self) -> (r: &String)
        ensures
            r@ == self.url(),
    {
        &self.metadata_url
    }

    pub fn timeout_seconds(&self) -> (r: u64)
        ensures
            r == self.timeout(),
    {
        self.timeout_seconds
    }

    pub fn config_drive_path(&self) -> (r: &String)
        ensures
            r@ == self.drive_path(),
    {
        &self.config_drive_path
    }
}

/// The EC2 instance metadata source.
#[derive(Debug)]
pub struct EC2Source {
    metadata_url: String,
    timeout_seconds: u64,
}

impl EC2Source {
    pub closed spec fn url(&self) -> Seq<char> {
        self.metadata_url@
    }

    pub closed spec fn timeout(&self) -> u64 {
        self.timeout_seconds
    }

    /// The source at the link-local metadata address, with a timeout of 5 seconds.
    pub fn new() -> (r: EC2Source)
        ensures
            r.url() == "http://169.254.169.254"@,
            r.timeout() == 5,
    {
        EC2Source { metadata_url: "http://169.254.169.254".to_owned(), timeout_seconds: 5 }
    }

    /// Sets the timeout for metadata requests.
    pub fn set_timeout(&mut self, seconds: u64)
        ensures
            final(self).timeout() == seconds,
            final(self).url() == old(self).url(),
    {
        self.timeout_seconds = seconds;
    }

    pub fn metadata_url(&self) -> (r: &String)
        ensures
            r@ == self.url(),
    {
        &self.metadata_url
    }

    pub fn timeout_seconds(&self) -> (r: u64)
        ensures
            r == self.timeout(),
    {
        self.timeout_seconds
    }
}

/// The Google Cloud metadata source.
#[derive(Debug)]
pub struct GCPSource {
    metadata_url: String,
    timeout_seconds: u64,
}

impl GCPSource {
    pub closed spec fn url(&self) -> Seq<char> {
        self.metadata_url@
    }

    pub closed spec fn timeout(&self) -> u64 {
        self.timeout_seconds
    }

    /// The source at the metadata server's name, with a timeout of 5 seconds.
    pub fn new() -> (r: GCPSource)
        ensures
            r.url() == "http://metadata.google.internal"@,
            r.timeout() == 5,
    {
        GCPSource { metadata_url: "http://metadata.google.internal".to_owned(), timeout_seconds: 5 }
    }

    /// Sets the timeout for metadata requests.
    pub fn set_timeout(&mut self, seconds: u64)
        ensures
            final(self).timeout() == seconds,
            final(self).url() == old(self).url(),
    {
        self.timeout_seconds = seconds;
    }

    pub fn metadata_url(&self) -> (r: &String)
        ensures
            r@ == self.url(),
    {
        &self.metadata_url
    }

    pub fn timeout_seconds(&self) -> (r: u64)
        ensures
            r == self.timeout(),
    {
        self.timeout_seconds
    }
}

/// The source that reads local configuration files.
#[derive(Debug)]
pub struct LocalSource {}

impl LocalSource {
    /// A local source.
    pub fn new() -> (r: LocalSource) {
        LocalSource {  }
    }
}

/// The OpenStack metadata source.
#[derive(Debug)]
pub struct OpenStackSource {
    metadata_url: String,
    timeout_seconds: u64,
    config_drive_path: String,
}

impl OpenStackSource {
    pub closed spec fn url(&self) -> Seq<char> {
        self.metadata_url@
    }

    pub closed spec fn timeout(&self) -> u64 {
        self.timeout_seconds
    }

    pub closed spec fn drive_path(&self) -> Seq<char> {
        self.config_drive_path@
    }

    /// The source at the link-local metadata address, with its config drive at
    /// /mnt/config-2 and a timeout of 5 seconds.
    pub fn new() -> (r: OpenStackSource)
        ensures
            r.url() == "http://169.254.169.254"@,
            r.timeout() == 5,
            r.drive_path() == "/mnt/config-2"@,
    {
        OpenStackSource {
            metadata_url: "http://169.254.169.254".to_owned(),
            timeout_seconds: 5,
            config_drive_path: "/mnt/config-2".to_owned(),
        }
    }

    /// Sets the timeout for metadata requests.
    pub fn set_timeout(&mut self, seconds: u64)
        ensures
            final(self).timeout() == seconds,
            final(self).url() == old(self).url(),
            final(self).drive_path() == old(self).drive_path(),
    {
        self.timeout_seconds = seconds;
    }

    /// Sets the config drive mount point.
    pub fn set_config_drive_path(&mut self, path: String)
        ensures
            final(self).drive_path() == path@,
            final(self).url() == old(self).url(),
            final(self).timeout() == old(self).timeout(),
    {
        self.config_drive_path = path;
    }

    pub fn metadata_url(&self) -> (r: &String)
        ensures
            r@ == self.url(),
    {
        &self.metadata_url
    }

    pub fn timeout_seconds(&self) -> (r: u64)
        ensures
            r == self.timeout(),
    {
        self.timeout_seconds
    }

    pub fn config_drive_path(&self) -> (r: &String)
        ensures
            r@ == self.drive_path(),
    {
        &self.config_drive_path
    }
}

/// Asks std's `Path::exists` whether something exists at `path`. The answer
/// depends on the file system at the time of the call, so nothing is stated of it.
#[verifier::external_body]
fn path_exists(path: &str) -> bool {
    std::path::Path::new(path).exists()
}

/// The `mdata-get` command to use: the one in /usr/sbin where it exists, else the
/// one under /native, else the one found on the search path.
pub open spec fn mdata_get_choice(in_usr_sbin: bool, in_native: bool) -> Seq<char> {
    if in_usr_sbin {
        "/usr/sbin/mdata-get"@
    } else if in_native {
        "/native/usr/sbin/mdata-get"@
    } else {
        "mdata-get"@
    }
}

/// The SmartOS metadata source, which runs `mdata-get`.
#[derive(Debug)]
pub struct SmartOSSource {
    mdata_get_path: String,
    timeout_seconds: u64,
}

impl SmartOSSource {
    pub closed spec fn command(&self) -> Seq<char> {
        self.mdata_get_path@
    }

    pub closed spec fn timeout(&self) -> u64 {
        self.timeout_seconds
    }

    /// A source that runs the `mdata-get` chosen from where the command exists, with
    /// a timeout of 5 seconds.
    pub fn with_locations(in_usr_sbin: bool, in_native: bool) -> (r: SmartOSSource)
        ensures
            r.command() == mdata_get_choice(in_usr_sbin, in_native),
            r.timeout() == 5,
    {
        let path = if in_usr_sbin {
            "/usr/sbin/mdata-get"
        } else if in_native {
            "/native/usr/sbin/mdata-get"
        } else {
            "mdata-get"
        };
        SmartOSSource { mdata_get_path: path.to_owned(), timeout_seconds: 5 }
    }

    /// A source that runs the `mdata-get` found on this machine, with a timeout of
    /// 5 seconds.
    pub fn new() -> (r: SmartOSSource)
        ensures
            exists|a: bool, b: bool| r.command() == mdata_get_choice(a, b),
            r.timeout() == 5,
    {
        let in_usr_sbin = path_exists("/usr/sbin/mdata-get");
        let in_native = path_exists("/native/usr/sbin/mdata-get");
        Self::with_locations(in_usr_sbin, in_native)
    }

    /// Sets the `mdata-get` command to run.
    pub fn set_mdata_get_path(&mut self, path: String)
        ensures
            final(self).command() == path@,
            final(self).timeout() == old(self).timeout(),
    {
        self.mdata_get_path = path;
    }

    /// Sets the timeout for metadata requests.
    pub fn set_timeout(&mut self, seconds: u64)
        ensures
            final(self).timeout() == seconds,
            final(self).command() == old(self).command(),
    {
        self.timeout_seconds = seconds;
    }

    pub fn mdata_get_path(&self) -> (r: &String)
        ensures
            r@ == self.command(),
    {
        &self.mdata_get_path
    }

    pub fn timeout_seconds(&self) -> (r: u64)
        ensures
            r == self.timeout(),
    {
        self.timeout_seconds
    }
}

} // verus!

verus! {

/// The sources that detection probes, in the order it probes them, with the
/// priority each is found under: the local file and SmartOS first (no network),
/// then cloud-init, then the cloud vendors.
pub open spec fn probe_sources() -> Seq<(Seq<char>, SourcePriority)> {
    seq![
        ("local"@, SourcePriority::LocalFile),
        ("smartos"@, SourcePriority::SmartOS),
        ("cloud-init"@, SourcePriority::CloudInit),
        ("ec2"@, SourcePriority::EC2),
        ("azure"@, SourcePriority::Azure),
        ("gcp"@, SourcePriority::GCP),
        ("digitalocean"@, SourcePriority::DigitalOcean),
        ("openstack"@, SourcePriority::OpenStack),
    ]
}

/// Of the first `n` probed sources, those that answered and are not disabled,
/// in probe order, each with its priority's number.
pub open spec fn found_sources(disabled: Seq<Seq<char>>, answered: Seq<bool>, n: nat) -> Seq<(Seq<char>, u32)>
    decreases n,
{
    if n == 0 {
        Seq::empty()
    } else {
        let i = n - 1;
        let (name, p) = probe_sources()[i];
        found_sources(disabled, answered, (n - 1) as nat) + if answered[i] && !disabled.contains(name) {
            seq![(name, priority_number(p))]
        } else {
            Seq::empty()
        }
    }
}

pub open spec fn named_numbers_view(v: Seq<(String, u32)>) -> Seq<(Seq<char>, u32)> {
    Seq::new(v.len(), |i: int| (v[i].0@, v[i].1))
}

impl SourceManager {
    /// The sources that detection probes, in order, as `probe_sources` says.
    pub fn detection_order() -> (r: Vec<(String, SourcePriority)>)
        ensures
            r@.len() == probe_sources().len(),
            forall|i: int| 0 <= i < r@.len() ==> (#[trigger] r@[i]).0@ == probe_sources()[i].0 && r@[i].1
                == probe_sources()[i].1,
    {
        let r = vec![
            ("local".to_owned(), SourcePriority::LocalFile),
            ("smartos".to_owned(), SourcePriority::SmartOS),
            ("cloud-init".to_owned(), SourcePriority::CloudInit),
            ("ec2".to_owned(), SourcePriority::EC2),
            ("azure".to_owned(), SourcePriority::Azure),
            ("gcp".to_owned(), SourcePriority::GCP),
            ("digitalocean".to_owned(), SourcePriority::DigitalOcean),
            ("openstack".to_owned(), SourcePriority::OpenStack),
        ];
        r
    }

    /// The sources detected, given what each probe answered (`answered[i]` for
    /// the i-th source of `detection_order`): those that answered and are not
    /// disabled, in probe order, with their priorities.
    pub fn detected_sources(&self, answered: &Vec<bool>) -> (r: Vec<(String, u32)>)
        requires
            answered@.len() == probe_sources().len(),
        ensures
            named_numbers_view(r@) == found_sources(self.disabled(), answered@, probe_sources().len()),
    {
        let order = Self::detection_order();
        let mut r: Vec<(String, u32)> = Vec::new();
        let mut i: usize = 0;
        assert(named_numbers_view(r@) =~= found_sources(self.disabled(), answered@, 0));
        while i < order.len()
            invariant
                i <= order@.len(),
                order@.len() == probe_sources().len(),
                answered@.len() == probe_sources().len(),
                forall|k: int| 0 <= k < order@.len() ==> (#[trigger] order@[k]).0@ == probe_sources()[k].0 && order@[k].1
                    == probe_sources()[k].1,
                named_numbers_view(r@) == found_sources(self.disabled(), answered@, i as nat),
            decreases order.len() - i,
        {
            let ghost before = named_numbers_view(r@);
            assert(order@[i as int].0@ == probe_sources()[i as int].0);
            if answered[i] && !self.is_source_disabled(&order[i].0) {
                let n = order[i].1.value();
                r.push((order[i].0.clone(), n));
                assert(named_numbers_view(r@) =~= before.push((probe_sources()[i as int].0, n)));
            }
            assert(named_numbers_view(r@) =~= found_sources(self.disabled(), answered@, (i + 1) as nat));
            i = i + 1;
        }
        r
    }
}

} // verus!
