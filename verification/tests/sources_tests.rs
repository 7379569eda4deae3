use sysconfig::prov_config::CloudVendor;
use sysconfig::sources::{
    source_priority, vendor_from_dmi, vendor_from_smbios, AzureSource, CloudInitSource, DigitalOceanSource, EC2Source,
    GCPSource, LocalSource, OpenStackSource, SmartOSSource, SourceManager, SourcePriority,
};

#[test]
fn test_azure_source_creation() {
    let source = AzureSource::new();
    assert_eq!(source.metadata_url(), "http://169.254.169.254");
    assert_eq!(source.api_version(), "2021-01-01");
    assert_eq!(source.timeout_seconds(), 5);
}

#[test]
fn azure_test_set_timeout() {
    let mut source = AzureSource::new();
    source.set_timeout(10);
    assert_eq!(source.timeout_seconds(), 10);
}

#[test]
fn test_set_api_version() {
    let mut source = AzureSource::new();
    source.set_api_version("2022-01-01".to_string());
    assert_eq!(source.api_version(), "2022-01-01");
}

#[test]
fn test_cloudinit_source_creation() {
    let source = CloudInitSource::new();
    assert_eq!(source.metadata_url(), "http://169.254.169.254");
    assert_eq!(source.timeout_seconds(), 5);
    assert!(!source.config_drive_paths().is_empty());
}

#[test]
fn cloud_init_test_set_timeout() {
    let mut source = CloudInitSource::new();
    source.set_timeout(10);
    assert_eq!(source.timeout_seconds(), 10);
}

#[test]
fn test_add_config_drive_path() {
    let mut source = CloudInitSource::new();
    let new_path = "/custom/mount".to_string();
    source.add_config_drive_path(new_path.clone());
    assert!(source.config_drive_paths().contains(&new_path));
}

#[test]
fn test_add_config_drive_path_keeps_one_copy() {
    let mut source = CloudInitSource::new();
    let before = source.config_drive_paths().len();
    source.add_config_drive_path("/mnt/config-2".to_string());
    assert_eq!(source.config_drive_paths().len(), before);
}

#[test]
fn test_set_nocloud_path() {
    let mut source = CloudInitSource::new();
    let new_path = "/custom/nocloud".to_string();
    source.set_nocloud_path(new_path.clone());
    assert_eq!(source.nocloud_path(), &new_path);
}

#[test]
fn test_digitalocean_source_creation() {
    let source = DigitalOceanSource::new();
    assert_eq!(source.metadata_url(), "http://169.254.169.254");
    assert_eq!(source.timeout_seconds(), 5);
    assert_eq!(source.config_drive_path(), "/mnt/config-2");
}

#[test]
fn digitalocean_test_set_timeout() {
    let mut source = DigitalOceanSource::new();
    source.set_timeout(10);
    assert_eq!(source.timeout_seconds(), 10);
}

#[test]
fn digitalocean_test_set_config_drive_path() {
    let mut source = DigitalOceanSource::new();
    let new_path = "/tmp/config".to_string();
    source.set_config_drive_path(new_path.clone());
    assert_eq!(source.config_drive_path(), &new_path);
}

#[test]
fn test_ec2_source_creation() {
    let source = EC2Source::new();
    assert_eq!(source.metadata_url(), "http://169.254.169.254");
    assert_eq!(source.timeout_seconds(), 5);
}

#[test]
fn ec2_test_set_timeout() {
    let mut source = EC2Source::new();
    source.set_timeout(10);
    assert_eq!(source.timeout_seconds(), 10);
}

#[test]
fn test_gcp_source_creation() {
    let source = GCPSource::new();
    assert_eq!(source.metadata_url(), "http://metadata.google.internal");
    assert_eq!(source.timeout_seconds(), 5);
}

#[test]
fn gcp_test_set_timeout() {
    let mut source = GCPSource::new();
    source.set_timeout(10);
    assert_eq!(source.timeout_seconds(), 10);
}

#[test]
fn test_openstack_source_creation() {
    let source = OpenStackSource::new();
    assert_eq!(source.metadata_url(), "http://169.254.169.254");
    assert_eq!(source.timeout_seconds(), 5);
    assert_eq!(source.config_drive_path(), "/mnt/config-2");
}

#[test]
fn openstack_test_set_timeout() {
    let mut source = OpenStackSource::new();
    source.set_timeout(10);
    assert_eq!(source.timeout_seconds(), 10);
}

#[test]
fn openstack_test_set_config_drive_path() {
    let mut source = OpenStackSource::new();
    let new_path = "/tmp/config".to_string();
    source.set_config_drive_path(new_path.clone());
    assert_eq!(source.config_drive_path(), &new_path);
}

#[test]
fn test_smartos_source_creation() {
    let source = SmartOSSource::new();
    assert_eq!(source.timeout_seconds(), 5);
}

#[test]
fn test_set_mdata_get_path() {
    let mut source = SmartOSSource::new();
    source.set_mdata_get_path("/custom/path/mdata-get".to_string());
    assert_eq!(source.mdata_get_path(), "/custom/path/mdata-get");
}

#[test]
fn smartos_test_set_timeout() {
    let mut source = SmartOSSource::new();
    source.set_timeout(10);
    assert_eq!(source.timeout_seconds(), 10);
}

#[test]
fn test_smartos_mdata_get_choice() {
    assert_eq!(SmartOSSource::with_locations(true, true).mdata_get_path(), "/usr/sbin/mdata-get");
    assert_eq!(SmartOSSource::with_locations(false, true).mdata_get_path(), "/native/usr/sbin/mdata-get");
    assert_eq!(SmartOSSource::with_locations(false, false).mdata_get_path(), "mdata-get");
}

#[test]
fn test_local_source_creation() {
    let _source = LocalSource::new();
}

#[test]
fn test_source_manager_creation() {
    let manager = SourceManager::with_disabled(vec!["ec2".to_string()]);
    assert!(manager.is_source_disabled("ec2"));
    assert!(!manager.is_source_disabled("azure"));
}

#[test]
fn test_disabled_source() {
    let manager = SourceManager::with_disabled(vec!["local".to_string()]);
    let result = manager.check_local_enabled();
    assert!(result.is_err());
    assert!(result.unwrap_err().contains("disabled"));
}

#[test]
fn test_source_manager_settings() {
    let mut manager = SourceManager::new();
    assert_eq!(manager.timeout_seconds(), 5);
    manager.set_timeout(7);
    assert_eq!(manager.timeout_seconds(), 7);
    manager.set_network_timeout(9);
    assert_eq!(manager.timeout_seconds(), 9);
    manager.disable_source("gcp");
    manager.disable_source("gcp");
    assert!(manager.is_source_disabled("gcp"));
    assert!(manager.check_cloud_init_enabled().is_ok());
    manager.disable_source("cloud-init");
    assert_eq!(manager.check_cloud_init_enabled().unwrap_err(), "Cloud-init source is disabled");
}

#[test]
fn test_source_priorities() {
    assert_eq!(SourcePriority::LocalFile.value(), 1);
    assert_eq!(SourcePriority::CloudInit.value(), 10);
    assert_eq!(SourcePriority::EC2.value(), 20);
    assert_eq!(SourcePriority::SmartOS.value(), 30);
    assert_eq!(source_priority("openstack"), Some(SourcePriority::OpenStack));
    assert_eq!(source_priority("nowhere"), None);
    let manager = SourceManager::with_disabled(vec!["azure".to_string()]);
    assert_eq!(manager.load_priority("azure"), None);
    assert_eq!(manager.load_priority("gcp"), Some(SourcePriority::GCP));
}

#[test]
fn test_vendor_source_choice() {
    let manager = SourceManager::with_disabled(vec!["ec2".to_string()]);
    assert_eq!(manager.vendor_source(CloudVendor::EC2).unwrap_err(), "EC2 source is disabled");
    assert_eq!(manager.vendor_source(CloudVendor::Azure).unwrap(), "azure");
    assert_eq!(manager.vendor_source(CloudVendor::VMware).unwrap_err(), "VMware source not yet implemented");
    assert_eq!(manager.vendor_source(CloudVendor::Oracle).unwrap_err(), "Oracle Cloud source not yet implemented");
    assert_eq!(manager.vendor_source(CloudVendor::Unknown).unwrap_err(), "Could not detect cloud vendor");
}

#[test]
fn test_vendor_from_dmi() {
    assert_eq!(vendor_from_dmi(Some("Amazon EC2\n"), None), Some(CloudVendor::EC2));
    assert_eq!(vendor_from_dmi(Some("  Microsoft Corporation "), None), Some(CloudVendor::Azure));
    assert_eq!(vendor_from_dmi(Some("Google"), None), Some(CloudVendor::GCP));
    assert_eq!(vendor_from_dmi(Some("QEMU"), Some("OpenStack Nova")), Some(CloudVendor::OpenStack));
    assert_eq!(vendor_from_dmi(None, Some("Droplet")), Some(CloudVendor::DigitalOcean));
    assert_eq!(vendor_from_dmi(Some("QEMU"), Some("Standard PC")), None);
    assert_eq!(vendor_from_dmi(None, None), None);
}

#[test]
fn test_vendor_from_smbios() {
    assert_eq!(vendor_from_smbios("Manufacturer: Joyent\n"), Some(CloudVendor::SmartOS));
    assert_eq!(vendor_from_smbios("Product: SmartDC HVM"), Some(CloudVendor::SmartOS));
    assert_eq!(vendor_from_smbios("Amazon EC2"), Some(CloudVendor::EC2));
    assert_eq!(vendor_from_smbios("DigitalOcean Droplet"), Some(CloudVendor::DigitalOcean));
    assert_eq!(vendor_from_smbios("Google Compute Engine"), Some(CloudVendor::GCP));
    assert_eq!(vendor_from_smbios("Bochs"), None);
}

#[test]
fn test_cloud_vendor_names() {
    assert_eq!(CloudVendor::EC2.to_string(), "Amazon EC2");
    assert_eq!(CloudVendor::GCP.to_string(), "Google Cloud Platform");
    assert_eq!(CloudVendor::Unknown.to_string(), "Unknown");
}

#[test]
fn detection_keeps_probe_order_and_drops_disabled_sources() {
    let m = sysconfig::sources::SourceManager::with_disabled(vec!["ec2".to_string()]);
    let order: Vec<String> = sysconfig::sources::SourceManager::detection_order().into_iter().map(|(n, _)| n).collect();
    assert_eq!(order, vec!["local", "smartos", "cloud-init", "ec2", "azure", "gcp", "digitalocean", "openstack"]);
    let answered = vec![true, false, true, true, false, true, false, false];
    assert_eq!(
        m.detected_sources(&answered),
        vec![("local".to_string(), 1), ("cloud-init".to_string(), 10), ("gcp".to_string(), 22)]
    );
    let none = sysconfig::sources::SourceManager::new();
    assert_eq!(none.detected_sources(&vec![false; 8]), vec![]);
    let all = none.detected_sources(&vec![true; 8]);
    assert_eq!(all.len(), 8);
    assert_eq!(all[1], ("smartos".to_string(), 30));
}
