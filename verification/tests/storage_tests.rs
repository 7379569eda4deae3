use sysconfig::json_text::json_to_text;
use sysconfig::provisioning::{TaskChange, TaskChangeType};
use sysconfig::storage::{
    freebsd_storage_plan, linux_storage_plan, storage_failure, zpool_create_args, DatasetKind, DatasetSpec,
    FilesystemSpec, FsKind, MountSpec, PoolKind, PoolSpec, StorageSpec, StorageStep, Vdev, VdevKind,
};

fn strs(v: &[&str]) -> Vec<String> {
    v.iter().map(|s| s.to_string()).collect()
}

fn zfs_pool(name: &str, devices: &[&str], topology: Option<Vec<Vdev>>, props: &[(&str, &str)]) -> PoolSpec {
    PoolSpec {
        name: name.to_string(),
        kind: PoolKind::Zfs,
        devices: strs(devices),
        topology,
        properties: props.iter().map(|(k, v)| (k.to_string(), v.to_string())).collect(),
    }
}

fn empty_spec() -> StorageSpec {
    StorageSpec { pools: vec![], datasets: vec![], filesystems: vec![], mounts: vec![] }
}

fn value_text(c: &TaskChange) -> String {
    json_to_text(c.new_value.as_ref().unwrap())
}

fn argv(s: &StorageStep) -> Vec<&str> {
    s.argv.iter().map(|a| a.as_str()).collect()
}

#[test]
fn zpool_args_follow_the_vdev_layout() {
    let topology = vec![
        Vdev { kind: VdevKind::Mirror, devices: strs(&["da0", "da1"]) },
        Vdev { kind: VdevKind::Raidz2, devices: strs(&["da2", "da3", "da4"]) },
        Vdev { kind: VdevKind::Stripe, devices: strs(&["da5"]) },
    ];
    let pool = zfs_pool("tank", &["ignored"], Some(topology), &[]);
    assert_eq!(
        zpool_create_args(&pool),
        strs(&["/sbin/zpool", "create", "tank", "mirror", "da0", "da1", "raidz2", "da2", "da3", "da4", "da5"])
    );
}

#[test]
fn zpool_args_use_the_devices_without_a_layout() {
    let pool = zfs_pool("data", &["ada1", "ada2"], None, &[]);
    assert_eq!(zpool_create_args(&pool), strs(&["/sbin/zpool", "create", "data", "ada1", "ada2"]));
}

#[test]
fn raidz_and_raidz3_keywords() {
    let topology = vec![
        Vdev { kind: VdevKind::Raidz, devices: strs(&["a", "b"]) },
        Vdev { kind: VdevKind::Raidz3, devices: strs(&["c"]) },
    ];
    let pool = zfs_pool("p", &[], Some(topology), &[]);
    assert_eq!(zpool_create_args(&pool), strs(&["/sbin/zpool", "create", "p", "raidz", "a", "b", "raidz3", "c"]));
}

#[test]
fn freebsd_new_pool_is_created_and_its_properties_set() {
    let mut s = empty_spec();
    s.pools.push(zfs_pool("tank", &["da0"], None, &[("compression", "lz4"), ("atime", "off")]));
    let (steps, changes) = freebsd_storage_plan(&s, false, &vec![false]);
    assert_eq!(steps.len(), 3);
    assert_eq!(argv(&steps[0]), vec!["/sbin/zpool", "create", "tank", "da0"]);
    assert_eq!(steps[0].failure, "failed to create ZFS pool tank");
    assert_eq!(steps[0].spawn_failure, "failed to execute zpool create");
    assert_eq!(argv(&steps[1]), vec!["/sbin/zpool", "set", "compression=lz4", "tank"]);
    assert_eq!(steps[1].failure, "failed to set property compression=lz4 on pool tank");
    assert_eq!(steps[1].spawn_failure, "failed to set pool property");
    assert_eq!(argv(&steps[2]), vec!["/sbin/zpool", "set", "atime=off", "tank"]);
    assert_eq!(changes.len(), 1);
    assert_eq!(changes[0].change_type, TaskChangeType::Create);
    assert_eq!(changes[0].path, "zpool:tank");
    assert_eq!(
        value_text(&changes[0]),
        r#"{"devices":["da0"],"properties":{"atime":"off","compression":"lz4"},"topology":null}"#
    );
}

#[test]
fn freebsd_existing_pool_is_updated_not_created() {
    let mut s = empty_spec();
    s.pools.push(zfs_pool("tank", &["da0"], None, &[("atime", "off")]));
    let (steps, changes) = freebsd_storage_plan(&s, false, &vec![true]);
    assert_eq!(steps.len(), 1);
    assert_eq!(argv(&steps[0]), vec!["/sbin/zpool", "set", "atime=off", "tank"]);
    assert_eq!(changes[0].change_type, TaskChangeType::Update);
}

#[test]
fn freebsd_pool_without_devices_is_not_created() {
    let mut s = empty_spec();
    s.pools.push(zfs_pool("tank", &[], None, &[]));
    let (steps, changes) = freebsd_storage_plan(&s, false, &vec![false]);
    assert!(steps.is_empty());
    assert_eq!(changes.len(), 1);
}

#[test]
fn freebsd_dry_run_runs_nothing_and_reports_creations() {
    let mut s = empty_spec();
    s.pools.push(zfs_pool("tank", &["da0"], None, &[("atime", "off")]));
    s.datasets.push(DatasetSpec { name: "tank/home".to_string(), kind: DatasetKind::Filesystem, properties: vec![] });
    s.filesystems.push(FilesystemSpec { device: "/dev/ada1".to_string(), fstype: FsKind::Ufs, options: vec![] });
    s.mounts.push(MountSpec { source: "/dev/ada1".to_string(), target: "/data".to_string(), options: vec![] });
    let (steps, changes) = freebsd_storage_plan(&s, true, &vec![true]);
    assert!(steps.is_empty());
    assert_eq!(changes.len(), 4);
    assert!(changes.iter().all(|c| c.change_type == TaskChangeType::Create));
    let paths: Vec<&str> = changes.iter().map(|c| c.path.as_str()).collect();
    assert_eq!(paths, vec!["zpool:tank", "zfs-dataset:tank/home", "ufs:/dev/ada1", "mount:/data"]);
}

#[test]
fn freebsd_volume_dataset_uses_dash_v() {
    let mut s = empty_spec();
    s.datasets.push(DatasetSpec {
        name: "tank/vol".to_string(),
        kind: DatasetKind::Volume("10G".to_string()),
        properties: vec![("volblocksize".to_string(), "16k".to_string())],
    });
    let (steps, changes) = freebsd_storage_plan(&s, false, &vec![]);
    assert_eq!(argv(&steps[0]), vec!["/sbin/zfs", "create", "-V", "10G", "tank/vol"]);
    assert_eq!(steps[0].failure, "failed to create ZFS dataset tank/vol");
    assert_eq!(argv(&steps[1]), vec!["/sbin/zfs", "set", "volblocksize=16k", "tank/vol"]);
    assert_eq!(steps[1].failure, "failed to set property volblocksize=16k on dataset tank/vol");
    assert_eq!(changes[0].path, "zfs-dataset:tank/vol");
    assert_eq!(
        value_text(&changes[0]),
        r#"{"name":"tank/vol","properties":{"volblocksize":"16k"},"type":{"volume":{"size":"10G"}}}"#
    );
}

#[test]
fn freebsd_filesystem_dataset_has_no_flags() {
    let mut s = empty_spec();
    s.datasets.push(DatasetSpec { name: "tank/home".to_string(), kind: DatasetKind::Filesystem, properties: vec![] });
    let (steps, changes) = freebsd_storage_plan(&s, false, &vec![]);
    assert_eq!(steps.len(), 1);
    assert_eq!(argv(&steps[0]), vec!["/sbin/zfs", "create", "tank/home"]);
    assert_eq!(value_text(&changes[0]), r#"{"name":"tank/home","properties":{},"type":"filesystem"}"#);
}

#[test]
fn freebsd_ufs_gets_newfs_and_other_types_are_skipped() {
    let mut s = empty_spec();
    s.filesystems.push(FilesystemSpec { device: "/dev/ada1".to_string(), fstype: FsKind::Ufs, options: strs(&["noatime"]) });
    s.filesystems.push(FilesystemSpec { device: "/dev/ada2".to_string(), fstype: FsKind::Ext4, options: vec![] });
    s.filesystems.push(FilesystemSpec { device: "tank".to_string(), fstype: FsKind::Zfs, options: vec![] });
    let (steps, changes) = freebsd_storage_plan(&s, false, &vec![]);
    assert_eq!(steps.len(), 1);
    assert_eq!(argv(&steps[0]), vec!["/sbin/newfs", "/dev/ada1"]);
    assert_eq!(steps[0].failure, "failed to create UFS filesystem on /dev/ada1");
    assert_eq!(changes.len(), 1);
    assert_eq!(value_text(&changes[0]), r#"{"device":"/dev/ada1","fstype":"ufs","options":["noatime"]}"#);
}

#[test]
fn mount_makes_its_point_then_mounts_with_joined_options() {
    let mut s = empty_spec();
    s.mounts.push(MountSpec { source: "tank/home".to_string(), target: "/home".to_string(), options: strs(&["ro", "noatime"]) });
    let (steps, changes) = freebsd_storage_plan(&s, false, &vec![]);
    assert_eq!(steps.len(), 2);
    assert!(steps[0].make_dir);
    assert_eq!(argv(&steps[0]), vec!["/home"]);
    assert_eq!(steps[0].failure, "failed to create mount point /home");
    assert!(!steps[1].make_dir);
    assert_eq!(argv(&steps[1]), vec!["/sbin/mount", "-o", "ro,noatime", "tank/home", "/home"]);
    assert_eq!(steps[1].failure, "failed to mount tank/home at /home");
    assert_eq!(steps[1].spawn_failure, "failed to mount filesystem");
    assert_eq!(value_text(&changes[0]), r#"{"options":["ro","noatime"],"source":"tank/home","target":"/home"}"#);
}

#[test]
fn linux_filesystems_use_their_mkfs_and_all_are_reported() {
    let mut s = empty_spec();
    s.filesystems.push(FilesystemSpec { device: "/dev/sdb".to_string(), fstype: FsKind::Ext4, options: vec![] });
    s.filesystems.push(FilesystemSpec { device: "/dev/sdc".to_string(), fstype: FsKind::Xfs, options: vec![] });
    s.filesystems.push(FilesystemSpec { device: "/dev/sdd".to_string(), fstype: FsKind::Btrfs, options: vec![] });
    s.filesystems.push(FilesystemSpec { device: "/dev/sde".to_string(), fstype: FsKind::Ufs, options: vec![] });
    let (steps, changes) = linux_storage_plan(&s, false);
    assert_eq!(steps.len(), 3);
    assert_eq!(argv(&steps[0]), vec!["/sbin/mkfs.ext4", "/dev/sdb"]);
    assert_eq!(steps[0].failure, "failed to create ext4 filesystem on /dev/sdb");
    assert_eq!(argv(&steps[1]), vec!["/sbin/mkfs.xfs", "/dev/sdc"]);
    assert_eq!(steps[1].spawn_failure, "failed to create XFS filesystem");
    assert_eq!(argv(&steps[2]), vec!["/sbin/mkfs.btrfs", "/dev/sdd"]);
    assert_eq!(changes.len(), 4);
    assert_eq!(changes[3].path, "filesystem:/dev/sde");
    assert_eq!(value_text(&changes[3]), r#"{"device":"/dev/sde","fstype":"ufs","options":[]}"#);
}

#[test]
fn linux_lvm_pool_gets_vgcreate_and_zfs_pools_are_left_alone() {
    let mut s = empty_spec();
    s.pools.push(PoolSpec {
        name: "vg0".to_string(),
        kind: PoolKind::Lvm,
        devices: strs(&["/dev/sdb", "/dev/sdc"]),
        topology: None,
        properties: vec![],
    });
    s.pools.push(zfs_pool("tank", &["/dev/sdd"], None, &[]));
    s.mounts.push(MountSpec { source: "/dev/vg0/lv".to_string(), target: "/srv".to_string(), options: vec![] });
    let (steps, changes) = linux_storage_plan(&s, false);
    assert_eq!(steps.len(), 3);
    assert_eq!(argv(&steps[0]), vec!["/sbin/vgcreate", "vg0", "/dev/sdb", "/dev/sdc"]);
    assert_eq!(steps[0].failure, "failed to create LVM volume group vg0");
    assert_eq!(argv(&steps[2]), vec!["/bin/mount", "/dev/vg0/lv", "/srv"]);
    assert_eq!(changes.len(), 2);
    assert_eq!(changes[0].path, "lvm-vg:vg0");
    assert_eq!(value_text(&changes[0]), r#"{"devices":["/dev/sdb","/dev/sdc"],"name":"vg0","properties":{}}"#);
    assert_eq!(changes[1].path, "mount:/srv");
}

#[test]
fn linux_dry_run_runs_nothing() {
    let mut s = empty_spec();
    s.filesystems.push(FilesystemSpec { device: "/dev/sdb".to_string(), fstype: FsKind::Ext4, options: vec![] });
    s.mounts.push(MountSpec { source: "/dev/sdb".to_string(), target: "/data".to_string(), options: vec![] });
    let (steps, changes) = linux_storage_plan(&s, true);
    assert!(steps.is_empty());
    assert_eq!(changes.len(), 2);
}

#[test]
fn pool_topology_in_change_record() {
    let topology = vec![Vdev { kind: VdevKind::Mirror, devices: strs(&["da0", "da1"]) }];
    let mut s = empty_spec();
    s.pools.push(zfs_pool("tank", &[], Some(topology), &[]));
    let (steps, changes) = freebsd_storage_plan(&s, false, &vec![false]);
    assert_eq!(argv(&steps[0]), vec!["/sbin/zpool", "create", "tank", "mirror", "da0", "da1"]);
    assert_eq!(
        value_text(&changes[0]),
        r#"{"devices":[],"properties":{},"topology":{"data":[{"devices":["da0","da1"],"vdev_type":"mirror"}]}}"#
    );
}

#[test]
fn storage_failure_joins_message_and_detail() {
    assert_eq!(storage_failure("failed to create ZFS pool tank", "no such device"), "failed to create ZFS pool tank: no such device");
}

#[test]
fn dry_run_reports_as_if_no_pool_existed() {
    let mut s = empty_spec();
    s.pools.push(zfs_pool("tank", &["da0"], None, &[("atime", "off")]));
    s.pools.push(zfs_pool("data", &["da1"], None, &[]));
    s.mounts.push(MountSpec { source: "tank/a".to_string(), target: "/a".to_string(), options: vec![] });
    let (_, dry) = freebsd_storage_plan(&s, true, &vec![true, false]);
    let (_, fresh) = freebsd_storage_plan(&s, false, &vec![false, false]);
    assert_eq!(dry.len(), fresh.len());
    for (a, b) in dry.iter().zip(fresh.iter()) {
        assert_eq!(a.change_type, b.change_type);
        assert_eq!(a.path, b.path);
        assert_eq!(value_text(a), value_text(b));
    }
}
