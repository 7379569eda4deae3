//! Storage configuration of the base plugins: which commands create the ZFS
//! pools and datasets, UFS file systems, ext4, XFS and Btrfs file systems, LVM
//! volume groups and mounts that a configuration asks for, and the changes
//! reported for them. Running the commands is left to the caller, which runs
//! them in order and stops at the first that fails.
use vstd::prelude::*;
use crate::files::{one_member, single, two_members, ChangeV};
use crate::json::{entries_view, items_view, lemma_array_view, lemma_object_view, members_insert, obj_insert, Json, JsonV};
use crate::kdl_parser::strings_view;
use crate::provisioning::{TaskChange, TaskChangeType};
use crate::tasks::{change_view, changes_view, strings_json, strings_to_json};
use crate::text::{append_chars, chars_of, string_from_chars};

verus! {

/// How the devices of a ZFS vdev are arranged.
#[derive(Debug, Clone, Copy, PartialEq, Eq, Structural)]
pub enum VdevKind {
    Stripe,
    Mirror,
    Raidz,
    Raidz2,
    Raidz3,
}

/// A ZFS vdev: its arrangement and its devices.
#[derive(Debug)]
pub struct Vdev {
    pub kind: VdevKind,
    pub devices: Vec<String>,
}

/// The kind of a storage pool.
#[derive(Debug, Clone, Copy, PartialEq, Eq, Structural)]
pub enum PoolKind {
    Zfs,
    Lvm,
    Other,
}

/// A storage pool: a ZFS pool or an LVM volume group.
#[derive(Debug)]
pub struct PoolSpec {
    pub name: String,
    pub kind: PoolKind,
    /// The devices, where no vdev layout is given.
    pub devices: Vec<String>,
    /// The data vdevs of a ZFS pool, where given.
    pub topology: Option<Vec<Vdev>>,
    /// Properties to set, in the order they are set.
    pub properties: Vec<(String, String)>,
}

/// The kind of a ZFS dataset: a file system, or a volume of the given size.
#[derive(Debug)]
pub enum DatasetKind {
    Filesystem,
    Volume(String),
}

/// A ZFS dataset.
#[derive(Debug)]
pub struct DatasetSpec {
    pub name: String,
    pub kind: DatasetKind,
    /// Properties to set, in the order they are set.
    pub properties: Vec<(String, String)>,
}

/// A file system type; any other type is named by its lowercase name.
#[derive(Debug)]
pub enum FsKind {
    Zfs,
    Ufs,
    Ext4,
    Xfs,
    Btrfs,
    Other(String),
}

/// A file system to create on a device.
#[derive(Debug)]
pub struct FilesystemSpec {
    pub device: String,
    pub fstype: FsKind,
    pub options: Vec<String>,
}

/// A mount of `source` at `target`.
#[derive(Debug)]
pub struct MountSpec {
    pub source: String,
    pub target: String,
    pub options: Vec<String>,
}

/// A storage configuration.
#[derive(Debug)]
pub struct StorageSpec {
    pub pools: Vec<PoolSpec>,
    pub datasets: Vec<DatasetSpec>,
    pub filesystems: Vec<FilesystemSpec>,
    pub mounts: Vec<MountSpec>,
}

/// One step of applying a storage configuration: making the directory
/// `argv[0]`, or running the command `argv`. `spawn_failure` begins the message
/// where the command cannot be started, `failure` where the step fails.
#[derive(Debug)]
pub struct StorageStep {
    pub make_dir: bool,
    pub argv: Vec<String>,
    pub spawn_failure: String,
    pub failure: String,
}

/// The model of a step.
pub type StepV = (bool, Seq<Seq<char>>, Seq<char>, Seq<char>);

pub open spec fn step_view(s: StorageStep) -> StepV {
    (s.make_dir, strings_view(s.argv@), s.spawn_failure@, s.failure@)
}

pub open spec fn steps_view(v: Seq<StorageStep>) -> Seq<StepV> {
    Seq::new(v.len(), |i: int| step_view(v[i]))
}

/// The message of a failed step: its beginning, a colon, and what went wrong.
pub open spec fn failure_text(failure: Seq<char>, detail: Seq<char>) -> Seq<char> {
    failure + ": "@ + detail
}

/// The message of a failed step, as `failure_text` says.
pub fn storage_failure(failure: &str, detail: &str) -> (r: String)
    ensures
        r@ == failure_text(failure@, detail@),
{
    let mut m = chars_of(failure);
    append_chars(&mut m, &chars_of(": "));
    append_chars(&mut m, &chars_of(detail));
    string_from_chars(&m)
}

/// The `zpool create` keyword of a vdev arrangement; a stripe has none.
pub open spec fn vdev_keyword(k: VdevKind) -> Seq<Seq<char>> {
    match k {
        VdevKind::Stripe => Seq::empty(),
        VdevKind::Mirror => seq!["mirror"@],
        VdevKind::Raidz => seq!["raidz"@],
        VdevKind::Raidz2 => seq!["raidz2"@],
        VdevKind::Raidz3 => seq!["raidz3"@],
    }
}

/// The `zpool create` arguments of the vdevs, in order.
pub open spec fn vdevs_args(vs: Seq<Vdev>) -> Seq<Seq<char>>
    decreases vs.len(),
{
    if vs.len() == 0 {
        Seq::empty()
    } else {
        vdevs_args(vs.drop_last()) + vdev_keyword(vs.last().kind) + strings_view(vs.last().devices@)
    }
}

/// The command that creates a ZFS pool: its vdevs where a layout is given, else
/// its devices.
pub open spec fn zpool_create_argv(p: PoolSpec) -> Seq<Seq<char>> {
    seq!["/sbin/zpool"@, "create"@, p.name@] + match p.topology {
        Some(t) => vdevs_args(t@),
        None => strings_view(p.devices@),
    }
}

fn push_strings(out: &mut Vec<String>, v: &Vec<String>)
    ensures
        strings_view(final(out)@) == strings_view(old(out)@) + strings_view(v@),
{
    let ghost o = strings_view(out@);
    let mut i: usize = 0;
    while i < v.len()
        invariant
            i <= v@.len(),
            strings_view(out@) == o + strings_view(v@).subrange(0, i as int),
        decreases v.len() - i,
    {
        let ghost before = strings_view(out@);
        out.push(v[i].clone());
        assert(strings_view(out@) =~= before.push(v@[i as int]@));
        assert(strings_view(v@).subrange(0, i as int + 1) =~= strings_view(v@).subrange(0, i as int).push(v@[i as int]@));
        i = i + 1;
    }
    assert(strings_view(v@).subrange(0, v@.len() as int) =~= strings_view(v@));
}

pub(crate) fn push_word(out: &mut Vec<String>, w: &str)
    ensures
        strings_view(final(out)@) == strings_view(old(out)@).push(w@),
{
    let ghost before = strings_view(out@);
    out.push(w.to_owned());
    assert(strings_view(out@) =~= before.push(w@));
}

/// The command that creates a ZFS pool, as `zpool_create_argv` says.
pub fn zpool_create_args(pool: &PoolSpec) -> (r: Vec<String>)
    ensures
        strings_view(r@) == zpool_create_argv(*pool),
{
    let mut out: Vec<String> = Vec::new();
    push_word(&mut out, "/sbin/zpool");
    push_word(&mut out, "create");
    let ghost before = strings_view(out@);
    out.push(pool.name.clone());
    assert(strings_view(out@) =~= before.push(pool.name@));
    assert(strings_view(out@) =~= seq!["/sbin/zpool"@, "create"@, pool.name@]);
    match &pool.topology {
        Some(t) => {
            let ghost head = strings_view(out@);
            let mut i: usize = 0;
            assert(vdevs_args(t@.subrange(0, 0)) =~= Seq::<Seq<char>>::empty());
            assert(strings_view(out@) =~= head + vdevs_args(t@.subrange(0, 0)));
            while i < t.len()
                invariant
                    i <= t@.len(),
                    strings_view(out@) == head + vdevs_args(t@.subrange(0, i as int)),
                decreases t.len() - i,
            {
                proof {
                    assert(t@.subrange(0, i as int + 1).drop_last() =~= t@.subrange(0, i as int));
                }
                let ghost mid = strings_view(out@);
                match t[i].kind {
                    VdevKind::Stripe => {},
                    VdevKind::Mirror => push_word(&mut out, "mirror"),
                    VdevKind::Raidz => push_word(&mut out, "raidz"),
                    VdevKind::Raidz2 => push_word(&mut out, "raidz2"),
                    VdevKind::Raidz3 => push_word(&mut out, "raidz3"),
                }
                assert(strings_view(out@) =~= mid + vdev_keyword(t@[i as int].kind));
                push_strings(&mut out, &t[i].devices);
                assert(strings_view(out@) =~= head + vdevs_args(t@.subrange(0, i as int + 1)));
                i = i + 1;
            }
            assert(t@.subrange(0, t@.len() as int) =~= t@);
        },
        None => {
            push_strings(&mut out, &pool.devices);
        },
    }
    out
}

} // verus!

verus! {

/// A step that runs a command.
pub open spec fn run_step(argv: Seq<Seq<char>>, spawn: Seq<char>, failure: Seq<char>) -> StepV {
    (false, argv, spawn, failure)
}

/// A property assignment as `zpool set` and `zfs set` take it.
pub open spec fn assignment(p: (String, String)) -> Seq<char> {
    p.0@ + "="@ + p.1@
}

/// The steps that set the properties of the pool or dataset `name` (`what` is
/// `pool` or `dataset`), in order.
pub open spec fn prop_steps(props: Seq<(String, String)>, program: Seq<char>, what: Seq<char>, name: Seq<char>) -> Seq<StepV>
    decreases props.len(),
{
    if props.len() == 0 {
        Seq::empty()
    } else {
        prop_steps(props.drop_last(), program, what, name) + seq![
            run_step(
                seq![program, "set"@, assignment(props.last()), name],
                "failed to set "@ + what + " property"@,
                "failed to set property "@ + assignment(props.last()) + " on "@ + what + " "@ + name,
            ),
        ]
    }
}

/// The members of the properties object: each property in turn, a later one
/// replacing an earlier one of the same name, keys in order.
pub open spec fn props_members(props: Seq<(String, String)>) -> Seq<(Seq<char>, JsonV)>
    decreases props.len(),
{
    if props.len() == 0 {
        Seq::empty()
    } else {
        obj_insert(props_members(props.drop_last()), props.last().0@, JsonV::Str(props.last().1@))
    }
}

pub open spec fn props_json(props: Seq<(String, String)>) -> JsonV {
    JsonV::Object(props_members(props))
}

/// The name of a vdev arrangement in a change record.
pub open spec fn vdev_kind_name(k: VdevKind) -> Seq<char> {
    match k {
        VdevKind::Stripe => "stripe"@,
        VdevKind::Mirror => "mirror"@,
        VdevKind::Raidz => "raidz"@,
        VdevKind::Raidz2 => "raidz2"@,
        VdevKind::Raidz3 => "raidz3"@,
    }
}

pub open spec fn vdev_json(v: Vdev) -> JsonV {
    JsonV::Object(seq![("devices"@, strings_json(strings_view(v.devices@))), ("vdev_type"@, JsonV::Str(vdev_kind_name(v.kind)))])
}

/// The vdev layout in a change record: its data vdevs, or null where none is given.
pub open spec fn topology_json(t: Option<Vec<Vdev>>) -> JsonV {
    match t {
        Some(v) => JsonV::Object(seq![("data"@, JsonV::Array(Seq::new(v@.len(), |i: int| vdev_json(v@[i]))))]),
        None => JsonV::Null,
    }
}

/// A dataset kind in a change record.
pub open spec fn dataset_kind_json(k: DatasetKind) -> JsonV {
    match k {
        DatasetKind::Filesystem => JsonV::Str("filesystem"@),
        DatasetKind::Volume(size) => JsonV::Object(seq![("volume"@, single("size"@, JsonV::Str(size@)))]),
    }
}

/// A file system in a change record.
pub open spec fn fs_json(device: Seq<char>, fstype: Seq<char>, options: Seq<Seq<char>>) -> JsonV {
    JsonV::Object(seq![("device"@, JsonV::Str(device)), ("fstype"@, JsonV::Str(fstype)), ("options"@, strings_json(options))])
}

/// A created object in a change record.
pub open spec fn created(path: Seq<char>, value: JsonV) -> ChangeV {
    (TaskChangeType::Create, path, None, Some(value), false)
}

/// FreeBSD, one pool: unless in a dry run, a ZFS pool that does not exist and
/// has devices or a layout is created, and its properties are set.
pub open spec fn bsd_pool_steps(p: PoolSpec, exists: bool, dry_run: bool) -> Seq<StepV> {
    if p.kind != PoolKind::Zfs || dry_run {
        Seq::empty()
    } else {
        (if !exists && (p.devices@.len() > 0 || p.topology is Some) {
            seq![run_step(zpool_create_argv(p), "failed to execute zpool create"@, "failed to create ZFS pool "@ + p.name@)]
        } else {
            Seq::empty()
        }) + prop_steps(p.properties@, "/sbin/zpool"@, "pool"@, p.name@)
    }
}

/// FreeBSD, one pool: a ZFS pool is reported, updated where it exists (never in
/// a dry run), else created.
pub open spec fn bsd_pool_changes(p: PoolSpec, exists: bool, dry_run: bool) -> Seq<ChangeV> {
    if p.kind != PoolKind::Zfs {
        Seq::empty()
    } else {
        seq![
            (
                if !dry_run && exists {
                    TaskChangeType::Update
                } else {
                    TaskChangeType::Create
                },
                "zpool:"@ + p.name@,
                None,
                Some(
                    JsonV::Object(
                        seq![
                            ("devices"@, strings_json(strings_view(p.devices@))),
                            ("properties"@, props_json(p.properties@)),
                            ("topology"@, topology_json(p.topology)),
                        ],
                    ),
                ),
                false,
            ),
        ]
    }
}

/// The command that creates a ZFS dataset: `-V` and the size for a volume.
pub open spec fn dataset_create_argv(d: DatasetSpec) -> Seq<Seq<char>> {
    seq!["/sbin/zfs"@, "create"@] + match d.kind {
        DatasetKind::Filesystem => Seq::<Seq<char>>::empty(),
        DatasetKind::Volume(size) => seq!["-V"@, size@],
    } + seq![d.name@]
}

/// FreeBSD, one dataset: unless in a dry run, it is created and its properties set.
pub open spec fn bsd_dataset_steps(d: DatasetSpec, dry_run: bool) -> Seq<StepV> {
    if dry_run {
        Seq::empty()
    } else {
        seq![run_step(dataset_create_argv(d), "failed to create ZFS dataset"@, "failed to create ZFS dataset "@ + d.name@)]
            + prop_steps(d.properties@, "/sbin/zfs"@, "dataset"@, d.name@)
    }
}

pub open spec fn bsd_dataset_change(d: DatasetSpec) -> ChangeV {
    created(
        "zfs-dataset:"@ + d.name@,
        JsonV::Object(
            seq![
                ("name"@, JsonV::Str(d.name@)),
                ("properties"@, props_json(d.properties@)),
                ("type"@, dataset_kind_json(d.kind)),
            ],
        ),
    )
}

/// FreeBSD, one file system: UFS is created with `newfs` (not in a dry run);
/// ZFS is left to the datasets, and any other type is skipped.
pub open spec fn bsd_fs_steps(f: FilesystemSpec, dry_run: bool) -> Seq<StepV> {
    match f.fstype {
        FsKind::Ufs => if dry_run {
            Seq::empty()
        } else {
            seq![run_step(seq!["/sbin/newfs"@, f.device@], "failed to create UFS filesystem"@, "failed to create UFS filesystem on "@ + f.device@)]
        },
        _ => Seq::empty(),
    }
}

pub open spec fn bsd_fs_changes(f: FilesystemSpec) -> Seq<ChangeV> {
    match f.fstype {
        FsKind::Ufs => seq![created("ufs:"@ + f.device@, fs_json(f.device@, "ufs"@, strings_view(f.options@)))],
        _ => Seq::empty(),
    }
}

/// Texts joined with commas.
pub open spec fn comma_joined(v: Seq<Seq<char>>) -> Seq<char>
    decreases v.len(),
{
    if v.len() == 0 {
        Seq::empty()
    } else if v.len() == 1 {
        v[0]
    } else {
        comma_joined(v.drop_last()) + ","@ + v.last()
    }
}

/// The mount command: `-o` and the options where there are any, then source
/// and target.
pub open spec fn mount_argv(m: MountSpec, program: Seq<char>) -> Seq<Seq<char>> {
    seq![program] + (if m.options@.len() > 0 {
        seq!["-o"@, comma_joined(strings_view(m.options@))]
    } else {
        Seq::empty()
    }) + seq![m.source@, m.target@]
}

/// One mount: unless in a dry run, its mount point is made and it is mounted.
pub open spec fn mount_steps(m: MountSpec, program: Seq<char>, dry_run: bool) -> Seq<StepV> {
    if dry_run {
        Seq::empty()
    } else {
        seq![
            (true, seq![m.target@], "failed to create mount point "@ + m.target@, "failed to create mount point "@ + m.target@),
            run_step(mount_argv(m, program), "failed to mount filesystem"@, "failed to mount "@ + m.source@ + " at "@ + m.target@),
        ]
    }
}

pub open spec fn mount_change(m: MountSpec) -> ChangeV {
    created(
        "mount:"@ + m.target@,
        JsonV::Object(
            seq![
                ("options"@, strings_json(strings_view(m.options@))),
                ("source"@, JsonV::Str(m.source@)),
                ("target"@, JsonV::Str(m.target@)),
            ],
        ),
    )
}

/// The name of a file system type in a change record, as its lowercase name.
pub open spec fn fs_type_name(k: FsKind) -> Seq<char> {
    match k {
        FsKind::Zfs => "zfs"@,
        FsKind::Ufs => "ufs"@,
        FsKind::Ext4 => "ext4"@,
        FsKind::Xfs => "xfs"@,
        FsKind::Btrfs => "btrfs"@,
        FsKind::Other(n) => n@,
    }
}

/// Linux, one file system: ext4, XFS and Btrfs are created with their `mkfs`
/// (not in a dry run); no other type has a step.
pub open spec fn linux_fs_steps(f: FilesystemSpec, dry_run: bool) -> Seq<StepV> {
    let mk = |program: Seq<char>, label: Seq<char>|
        if dry_run {
            Seq::<StepV>::empty()
        } else {
            seq![
                run_step(
                    seq![program, f.device@],
                    "failed to create "@ + label + " filesystem"@,
                    "failed to create "@ + label + " filesystem on "@ + f.device@,
                ),
            ]
        };
    match f.fstype {
        FsKind::Ext4 => mk("/sbin/mkfs.ext4"@, "ext4"@),
        FsKind::Xfs => mk("/sbin/mkfs.xfs"@, "XFS"@),
        FsKind::Btrfs => mk("/sbin/mkfs.btrfs"@, "Btrfs"@),
        _ => Seq::empty(),
    }
}

/// Linux, one file system: every one is reported, those without a step included.
pub open spec fn linux_fs_change(f: FilesystemSpec) -> ChangeV {
    created("filesystem:"@ + f.device@, fs_json(f.device@, fs_type_name(f.fstype), strings_view(f.options@)))
}

/// Linux, one pool: an LVM volume group is created with `vgcreate` (not in a
/// dry run); other pools are left alone.
pub open spec fn linux_pool_steps(p: PoolSpec, dry_run: bool) -> Seq<StepV> {
    if p.kind != PoolKind::Lvm || dry_run {
        Seq::empty()
    } else {
        seq![
            run_step(
                seq!["/sbin/vgcreate"@, p.name@] + strings_view(p.devices@),
                "failed to create LVM volume group"@,
                "failed to create LVM volume group "@ + p.name@,
            ),
        ]
    }
}

pub open spec fn linux_pool_changes(p: PoolSpec) -> Seq<ChangeV> {
    if p.kind != PoolKind::Lvm {
        Seq::empty()
    } else {
        seq![
            created(
                "lvm-vg:"@ + p.name@,
                JsonV::Object(
                    seq![
                        ("devices"@, strings_json(strings_view(p.devices@))),
                        ("name"@, JsonV::Str(p.name@)),
                        ("properties"@, props_json(p.properties@)),
                    ],
                ),
            ),
        ]
    }
}

} // verus!

verus! {

pub open spec fn bsd_pools_steps(ps: Seq<PoolSpec>, ex: Seq<bool>, dry_run: bool) -> Seq<StepV>
    decreases ps.len(),
{
    if ps.len() == 0 {
        Seq::empty()
    } else {
        bsd_pools_steps(ps.drop_last(), ex, dry_run) + bsd_pool_steps(ps.last(), ex[ps.len() - 1], dry_run)
    }
}

pub open spec fn bsd_pools_changes(ps: Seq<PoolSpec>, ex: Seq<bool>, dry_run: bool) -> Seq<ChangeV>
    decreases ps.len(),
{
    if ps.len() == 0 {
        Seq::empty()
    } else {
        bsd_pools_changes(ps.drop_last(), ex, dry_run) + bsd_pool_changes(ps.last(), ex[ps.len() - 1], dry_run)
    }
}

pub open spec fn bsd_datasets_steps(ds: Seq<DatasetSpec>, dry_run: bool) -> Seq<StepV>
    decreases ds.len(),
{
    if ds.len() == 0 {
        Seq::empty()
    } else {
        bsd_datasets_steps(ds.drop_last(), dry_run) + bsd_dataset_steps(ds.last(), dry_run)
    }
}

pub open spec fn bsd_datasets_changes(ds: Seq<DatasetSpec>) -> Seq<ChangeV>
    decreases ds.len(),
{
    if ds.len() == 0 {
        Seq::empty()
    } else {
        bsd_datasets_changes(ds.drop_last()).push(bsd_dataset_change(ds.last()))
    }
}

pub open spec fn bsd_fss_steps(fs: Seq<FilesystemSpec>, dry_run: bool) -> Seq<StepV>
    decreases fs.len(),
{
    if fs.len() == 0 {
        Seq::empty()
    } else {
        bsd_fss_steps(fs.drop_last(), dry_run) + bsd_fs_steps(fs.last(), dry_run)
    }
}

pub open spec fn bsd_fss_changes(fs: Seq<FilesystemSpec>) -> Seq<ChangeV>
    decreases fs.len(),
{
    if fs.len() == 0 {
        Seq::empty()
    } else {
        bsd_fss_changes(fs.drop_last()) + bsd_fs_changes(fs.last())
    }
}

pub open spec fn mounts_steps(ms: Seq<MountSpec>, program: Seq<char>, dry_run: bool) -> Seq<StepV>
    decreases ms.len(),
{
    if ms.len() == 0 {
        Seq::empty()
    } else {
        mounts_steps(ms.drop_last(), program, dry_run) + mount_steps(ms.last(), program, dry_run)
    }
}

pub open spec fn mounts_changes(ms: Seq<MountSpec>) -> Seq<ChangeV>
    decreases ms.len(),
{
    if ms.len() == 0 {
        Seq::empty()
    } else {
        mounts_changes(ms.drop_last()).push(mount_change(ms.last()))
    }
}

pub open spec fn linux_fss_steps(fs: Seq<FilesystemSpec>, dry_run: bool) -> Seq<StepV>
    decreases fs.len(),
{
    if fs.len() == 0 {
        Seq::empty()
    } else {
        linux_fss_steps(fs.drop_last(), dry_run) + linux_fs_steps(fs.last(), dry_run)
    }
}

pub open spec fn linux_fss_changes(fs: Seq<FilesystemSpec>) -> Seq<ChangeV>
    decreases fs.len(),
{
    if fs.len() == 0 {
        Seq::empty()
    } else {
        linux_fss_changes(fs.drop_last()).push(linux_fs_change(fs.last()))
    }
}

pub open spec fn linux_pools_steps(ps: Seq<PoolSpec>, dry_run: bool) -> Seq<StepV>
    decreases ps.len(),
{
    if ps.len() == 0 {
        Seq::empty()
    } else {
        linux_pools_steps(ps.drop_last(), dry_run) + linux_pool_steps(ps.last(), dry_run)
    }
}

pub open spec fn linux_pools_changes(ps: Seq<PoolSpec>) -> Seq<ChangeV>
    decreases ps.len(),
{
    if ps.len() == 0 {
        Seq::empty()
    } else {
        linux_pools_changes(ps.drop_last()) + linux_pool_changes(ps.last())
    }
}

/// FreeBSD: the steps for the pools, then the datasets, the file systems and
/// the mounts; `pool_exists` tells, pool by pool, whether it exists already.
pub open spec fn freebsd_storage_commands(s: StorageSpec, dry_run: bool, pool_exists: Seq<bool>) -> Seq<StepV> {
    bsd_pools_steps(s.pools@, pool_exists, dry_run) + bsd_datasets_steps(s.datasets@, dry_run) + bsd_fss_steps(
        s.filesystems@,
        dry_run,
    ) + mounts_steps(s.mounts@, "/sbin/mount"@, dry_run)
}

/// FreeBSD: the changes reported, in the same order.
pub open spec fn freebsd_storage_changes(s: StorageSpec, dry_run: bool, pool_exists: Seq<bool>) -> Seq<ChangeV> {
    bsd_pools_changes(s.pools@, pool_exists, dry_run) + bsd_datasets_changes(s.datasets@) + bsd_fss_changes(
        s.filesystems@,
    ) + mounts_changes(s.mounts@)
}

/// Linux: the steps for the file systems, then the volume groups and the mounts.
pub open spec fn linux_storage_commands(s: StorageSpec, dry_run: bool) -> Seq<StepV> {
    linux_fss_steps(s.filesystems@, dry_run) + linux_pools_steps(s.pools@, dry_run) + mounts_steps(
        s.mounts@,
        "/bin/mount"@,
        dry_run,
    )
}

/// Linux: the changes reported, in the same order.
pub open spec fn linux_storage_changes(s: StorageSpec) -> Seq<ChangeV> {
    linux_fss_changes(s.filesystems@) + linux_pools_changes(s.pools@) + mounts_changes(s.mounts@)
}

} // verus!

verus! {

pub(crate) fn cat(a: &str, b: &str) -> (r: String)
    ensures
        r@ == a@ + b@,
{
    let mut m = chars_of(a);
    append_chars(&mut m, &chars_of(b));
    string_from_chars(&m)
}

pub(crate) fn run(argv: Vec<String>, spawn_failure: String, failure: String) -> (r: StorageStep)
    ensures
        step_view(r) == run_step(strings_view(argv@), spawn_failure@, failure@),
{
    StorageStep { make_dir: false, argv, spawn_failure, failure }
}

pub(crate) fn add_step(steps: &mut Vec<StorageStep>, s: StorageStep)
    ensures
        steps_view(final(steps)@) == steps_view(old(steps)@).push(step_view(s)),
{
    let ghost before = steps_view(steps@);
    let ghost sv = step_view(s);
    steps.push(s);
    assert(steps_view(steps@) =~= before.push(sv));
}

pub(crate) fn add_change(changes: &mut Vec<TaskChange>, c: TaskChange)
    ensures
        changes_view(final(changes)@) == changes_view(old(changes)@).push(change_view(c)),
{
    let ghost before = changes_view(changes@);
    let ghost cv = change_view(c);
    changes.push(c);
    assert(changes_view(changes@) =~= before.push(cv));
}

fn created_change(path: String, value: Json) -> (r: TaskChange)
    ensures
        change_view(r) == created(path@, value@),
{
    TaskChange { change_type: TaskChangeType::Create, path, old_value: None, new_value: Some(value), verbose: false }
}

fn three_members(k1: &str, v1: Json, k2: &str, v2: Json, k3: &str, v3: Json) -> (r: Json)
    ensures
        r@ == JsonV::Object(seq![(k1@, v1@), (k2@, v2@), (k3@, v3@)]),
{
    let mut m: Vec<(String, Json)> = Vec::new();
    m.push((k1.to_owned(), v1));
    m.push((k2.to_owned(), v2));
    m.push((k3.to_owned(), v3));
    proof {
        lemma_object_view(m);
        assert(entries_view(m@) =~= seq![(k1@, v1@), (k2@, v2@), (k3@, v3@)]);
    }
    Json::Object(m)
}

/// Appends the steps that set `props` on the pool or dataset `name`.
fn push_prop_steps(steps: &mut Vec<StorageStep>, props: &Vec<(String, String)>, program: &str, what: &str, name: &String)
    ensures
        steps_view(final(steps)@) == steps_view(old(steps)@) + prop_steps(props@, program@, what@, name@),
{
    let ghost s0 = steps_view(steps@);
    let mut i: usize = 0;
    assert(prop_steps(props@.subrange(0, 0), program@, what@, name@) =~= Seq::<StepV>::empty());
    assert(steps_view(steps@) =~= s0 + prop_steps(props@.subrange(0, 0), program@, what@, name@));
    while i < props.len()
        invariant
            i <= props@.len(),
            steps_view(steps@) == s0 + prop_steps(props@.subrange(0, i as int), program@, what@, name@),
        decreases props.len() - i,
    {
        proof {
            assert(props@.subrange(0, i as int + 1).drop_last() =~= props@.subrange(0, i as int));
        }
        let asg = cat(&cat(&props[i].0, "="), &props[i].1);
        let argv = vec![program.to_owned(), "set".to_owned(), asg.clone(), name.clone()];
        assert(strings_view(argv@) =~= seq![program@, "set"@, assignment(props@[i as int]), name@]);
        let spawn = cat(&cat("failed to set ", what), " property");
        let failure = cat(&cat(&cat(&cat(&cat("failed to set property ", &asg), " on "), what), " "), name);
        let ghost before = steps_view(steps@);
        add_step(steps, run(argv, spawn, failure));
        assert(steps_view(steps@) =~= s0 + prop_steps(props@.subrange(0, i as int + 1), program@, what@, name@));
        i = i + 1;
    }
    assert(props@.subrange(0, props@.len() as int) =~= props@);
}

/// The properties object of a pool or dataset.
pub(crate) fn props_to_json(props: &Vec<(String, String)>) -> (r: Json)
    ensures
        r@ == props_json(props@),
{
    let mut m: Vec<(String, Json)> = Vec::new();
    let mut i: usize = 0;
    assert(entries_view(m@) =~= props_members(props@.subrange(0, 0)));
    while i < props.len()
        invariant
            i <= props@.len(),
            entries_view(m@) == props_members(props@.subrange(0, i as int)),
        decreases props.len() - i,
    {
        proof {
            assert(props@.subrange(0, i as int + 1).drop_last() =~= props@.subrange(0, i as int));
        }
        members_insert(&mut m, &chars_of(&props[i].0), Json::Str(props[i].1.clone()));
        i = i + 1;
    }
    assert(props@.subrange(0, props@.len() as int) =~= props@);
    proof {
        lemma_object_view(m);
    }
    Json::Object(m)
}

fn vdev_kind_text(k: VdevKind) -> (r: String)
    ensures
        r@ == vdev_kind_name(k),
{
    match k {
        VdevKind::Stripe => "stripe".to_owned(),
        VdevKind::Mirror => "mirror".to_owned(),
        VdevKind::Raidz => "raidz".to_owned(),
        VdevKind::Raidz2 => "raidz2".to_owned(),
        VdevKind::Raidz3 => "raidz3".to_owned(),
    }
}

fn topology_to_json(t: &Option<Vec<Vdev>>) -> (r: Json)
    ensures
        r@ == topology_json(*t),
{
    match t {
        None => Json::Null,
        Some(v) => {
            let mut items: Vec<Json> = Vec::new();
            let mut i: usize = 0;
            while i < v.len()
                invariant
                    i <= v@.len(),
                    items_view(items@) =~= Seq::new(i as nat, |k: int| vdev_json(v@[k])),
                decreases v.len() - i,
            {
                let ghost before = items_view(items@);
                let x = two_members("devices", strings_to_json(&v[i].devices), "vdev_type", Json::Str(vdev_kind_text(v[i].kind)));
                items.push(x);
                assert(items_view(items@) =~= before.push(x@));
                i = i + 1;
            }
            proof {
                lemma_array_view(items);
            }
            one_member("data", Json::Array(items))
        },
    }
}

} // verus!

verus! {

fn dataset_kind_to_json(k: &DatasetKind) -> (r: Json)
    ensures
        r@ == dataset_kind_json(*k),
{
    match k {
        DatasetKind::Filesystem => Json::Str("filesystem".to_owned()),
        DatasetKind::Volume(size) => one_member("volume", one_member("size", Json::Str(size.clone()))),
    }
}

fn fs_to_json(device: &String, fstype: String, options: &Vec<String>) -> (r: Json)
    ensures
        r@ == fs_json(device@, fstype@, strings_view(options@)),
{
    three_members("device", Json::Str(device.clone()), "fstype", Json::Str(fstype), "options", strings_to_json(options))
}

/// FreeBSD, one pool: appends its steps and its change.
fn bsd_pool_plan(p: &PoolSpec, exists: bool, dry_run: bool, steps: &mut Vec<StorageStep>, changes: &mut Vec<TaskChange>)
    ensures
        steps_view(final(steps)@) == steps_view(old(steps)@) + bsd_pool_steps(*p, exists, dry_run),
        changes_view(final(changes)@) == changes_view(old(changes)@) + bsd_pool_changes(*p, exists, dry_run),
{
    let is_zfs = match p.kind {
        PoolKind::Zfs => true,
        _ => false,
    };
    if !is_zfs {
        assert(steps_view(steps@) =~= steps_view(steps@) + Seq::<StepV>::empty());
        assert(changes_view(changes@) =~= changes_view(changes@) + Seq::<ChangeV>::empty());
        return;
    }
    let ghost s0 = steps_view(steps@);
    if dry_run {
        assert(steps_view(steps@) =~= s0 + Seq::<StepV>::empty());
    } else {
        let wants = !exists && (p.devices.len() > 0 || p.topology.is_some());
        if wants {
            let argv = zpool_create_args(p);
            add_step(steps, run(argv, "failed to execute zpool create".to_owned(), cat("failed to create ZFS pool ", &p.name)));
        }
        let ghost s1 = steps_view(steps@);
        push_prop_steps(steps, &p.properties, "/sbin/zpool", "pool", &p.name);
        assert(steps_view(steps@) =~= s0 + bsd_pool_steps(*p, exists, dry_run));
    }
    let value = three_members(
        "devices",
        strings_to_json(&p.devices),
        "properties",
        props_to_json(&p.properties),
        "topology",
        topology_to_json(&p.topology),
    );
    let c = TaskChange {
        change_type: if !dry_run && exists {
            TaskChangeType::Update
        } else {
            TaskChangeType::Create
        },
        path: cat("zpool:", &p.name),
        old_value: None,
        new_value: Some(value),
        verbose: false,
    };
    let ghost c0 = changes_view(changes@);
    add_change(changes, c);
    assert(changes_view(changes@) =~= c0 + bsd_pool_changes(*p, exists, dry_run));
}

fn dataset_create_args(d: &DatasetSpec) -> (r: Vec<String>)
    ensures
        strings_view(r@) == dataset_create_argv(*d),
{
    let mut out: Vec<String> = Vec::new();
    push_word(&mut out, "/sbin/zfs");
    push_word(&mut out, "create");
    match &d.kind {
        DatasetKind::Filesystem => {},
        DatasetKind::Volume(size) => {
            push_word(&mut out, "-V");
            push_word(&mut out, size);
        },
    }
    push_word(&mut out, &d.name);
    assert(strings_view(out@) =~= dataset_create_argv(*d));
    out
}

/// FreeBSD, one dataset: appends its steps and its change.
fn bsd_dataset_plan(d: &DatasetSpec, dry_run: bool, steps: &mut Vec<StorageStep>, changes: &mut Vec<TaskChange>)
    ensures
        steps_view(final(steps)@) == steps_view(old(steps)@) + bsd_dataset_steps(*d, dry_run),
        changes_view(final(changes)@) == changes_view(old(changes)@).push(bsd_dataset_change(*d)),
{
    let ghost s0 = steps_view(steps@);
    if dry_run {
        assert(steps_view(steps@) =~= s0 + Seq::<StepV>::empty());
    } else {
        let argv = dataset_create_args(d);
        add_step(steps, run(argv, "failed to create ZFS dataset".to_owned(), cat("failed to create ZFS dataset ", &d.name)));
        push_prop_steps(steps, &d.properties, "/sbin/zfs", "dataset", &d.name);
        assert(steps_view(steps@) =~= s0 + bsd_dataset_steps(*d, dry_run));
    }
    let value = three_members(
        "name",
        Json::Str(d.name.clone()),
        "properties",
        props_to_json(&d.properties),
        "type",
        dataset_kind_to_json(&d.kind),
    );
    add_change(changes, created_change(cat("zfs-dataset:", &d.name), value));
}

/// FreeBSD, one file system: appends its steps and its change.
fn bsd_fs_plan(f: &FilesystemSpec, dry_run: bool, steps: &mut Vec<StorageStep>, changes: &mut Vec<TaskChange>)
    ensures
        steps_view(final(steps)@) == steps_view(old(steps)@) + bsd_fs_steps(*f, dry_run),
        changes_view(final(changes)@) == changes_view(old(changes)@) + bsd_fs_changes(*f),
{
    let ghost s0 = steps_view(steps@);
    let ghost c0 = changes_view(changes@);
    match &f.fstype {
        FsKind::Ufs => {
            if !dry_run {
                let argv = vec!["/sbin/newfs".to_owned(), f.device.clone()];
                assert(strings_view(argv@) =~= seq!["/sbin/newfs"@, f.device@]);
                add_step(steps, run(argv, "failed to create UFS filesystem".to_owned(), cat("failed to create UFS filesystem on ", &f.device)));
            }
            add_change(changes, created_change(cat("ufs:", &f.device), fs_to_json(&f.device, "ufs".to_owned(), &f.options)));
        },
        _ => {},
    }
    assert(steps_view(steps@) =~= s0 + bsd_fs_steps(*f, dry_run));
    assert(changes_view(changes@) =~= c0 + bsd_fs_changes(*f));
}

/// The options joined with commas.
fn comma_join(v: &Vec<String>) -> (r: String)
    ensures
        r@ == comma_joined(strings_view(v@)),
{
    let mut out: Vec<char> = Vec::new();
    let mut i: usize = 0;
    assert(strings_view(v@).subrange(0, 0) =~= Seq::<Seq<char>>::empty());
    while i < v.len()
        invariant
            i <= v@.len(),
            out@ == comma_joined(strings_view(v@).subrange(0, i as int)),
        decreases v.len() - i,
    {
        let ghost sv = strings_view(v@);
        proof {
            assert(sv.subrange(0, i as int + 1).drop_last() =~= sv.subrange(0, i as int));
        }
        if i > 0 {
            out.push(',');
        }
        append_chars(&mut out, &chars_of(&v[i]));
        proof {
            if i == 0 {
                assert(out@ =~= sv.subrange(0, 1)[0]);
            } else {
                reveal_strlit(",");
                assert(out@ =~= comma_joined(sv.subrange(0, i as int)) + ","@ + sv[i as int]);
            }
        }
        i = i + 1;
    }
    assert(strings_view(v@).subrange(0, v@.len() as int) =~= strings_view(v@));
    string_from_chars(&out)
}

/// The mount command of `m`, as `mount_argv` says.
fn mount_args(m: &MountSpec, program: &str) -> (r: Vec<String>)
    ensures
        strings_view(r@) == mount_argv(*m, program@),
{
    let mut out: Vec<String> = Vec::new();
    push_word(&mut out, program);
    if m.options.len() > 0 {
        push_word(&mut out, "-o");
        let joined = comma_join(&m.options);
        push_word(&mut out, &joined);
    }
    push_word(&mut out, &m.source);
    push_word(&mut out, &m.target);
    assert(strings_view(out@) =~= mount_argv(*m, program@));
    out
}

/// One mount: appends its steps and its change.
fn mount_plan(m: &MountSpec, program: &str, dry_run: bool, steps: &mut Vec<StorageStep>, changes: &mut Vec<TaskChange>)
    ensures
        steps_view(final(steps)@) == steps_view(old(steps)@) + mount_steps(*m, program@, dry_run),
        changes_view(final(changes)@) == changes_view(old(changes)@).push(mount_change(*m)),
{
    let ghost s0 = steps_view(steps@);
    if !dry_run {
        let dir_failure = cat("failed to create mount point ", &m.target);
        let dir = vec![m.target.clone()];
        assert(strings_view(dir@) =~= seq![m.target@]);
        add_step(steps, StorageStep { make_dir: true, argv: dir, spawn_failure: dir_failure.clone(), failure: dir_failure });
        let argv = mount_args(m, program);
        let failure = cat(&cat(&cat("failed to mount ", &m.source), " at "), &m.target);
        add_step(steps, run(argv, "failed to mount filesystem".to_owned(), failure));
    }
    assert(steps_view(steps@) =~= s0 + mount_steps(*m, program@, dry_run));
    let value = three_members(
        "options",
        strings_to_json(&m.options),
        "source",
        Json::Str(m.source.clone()),
        "target",
        Json::Str(m.target.clone()),
    );
    add_change(changes, created_change(cat("mount:", &m.target), value));
}

} // verus!

verus! {

fn fs_type_text(k: &FsKind) -> (r: String)
    ensures
        r@ == fs_type_name(*k),
{
    match k {
        FsKind::Zfs => "zfs".to_owned(),
        FsKind::Ufs => "ufs".to_owned(),
        FsKind::Ext4 => "ext4".to_owned(),
        FsKind::Xfs => "xfs".to_owned(),
        FsKind::Btrfs => "btrfs".to_owned(),
        FsKind::Other(n) => n.clone(),
    }
}

fn mkfs_step(program: &str, label: &str, device: &String) -> (r: StorageStep)
    ensures
        step_view(r) == run_step(
            seq![program@, device@],
            "failed to create "@ + label@ + " filesystem"@,
            "failed to create "@ + label@ + " filesystem on "@ + device@,
        ),
{
    let argv = vec![program.to_owned(), device.clone()];
    assert(strings_view(argv@) =~= seq![program@, device@]);
    let spawn = cat(&cat("failed to create ", label), " filesystem");
    let failure = cat(&cat(&cat("failed to create ", label), " filesystem on "), device);
    run(argv, spawn, failure)
}

/// Linux, one file system: appends its steps and its change.
fn linux_fs_plan(f: &FilesystemSpec, dry_run: bool, steps: &mut Vec<StorageStep>, changes: &mut Vec<TaskChange>)
    ensures
        steps_view(final(steps)@) == steps_view(old(steps)@) + linux_fs_steps(*f, dry_run),
        changes_view(final(changes)@) == changes_view(old(changes)@).push(linux_fs_change(*f)),
{
    let ghost s0 = steps_view(steps@);
    if !dry_run {
        match &f.fstype {
            FsKind::Ext4 => add_step(steps, mkfs_step("/sbin/mkfs.ext4", "ext4", &f.device)),
            FsKind::Xfs => add_step(steps, mkfs_step("/sbin/mkfs.xfs", "XFS", &f.device)),
            FsKind::Btrfs => add_step(steps, mkfs_step("/sbin/mkfs.btrfs", "Btrfs", &f.device)),
            _ => {},
        }
    }
    assert(steps_view(steps@) =~= s0 + linux_fs_steps(*f, dry_run));
    let value = fs_to_json(&f.device, fs_type_text(&f.fstype), &f.options);
    add_change(changes, created_change(cat("filesystem:", &f.device), value));
}

/// Linux, one pool: appends its steps and its change.
fn linux_pool_plan(p: &PoolSpec, dry_run: bool, steps: &mut Vec<StorageStep>, changes: &mut Vec<TaskChange>)
    ensures
        steps_view(final(steps)@) == steps_view(old(steps)@) + linux_pool_steps(*p, dry_run),
        changes_view(final(changes)@) == changes_view(old(changes)@) + linux_pool_changes(*p),
{
    let ghost s0 = steps_view(steps@);
    let ghost c0 = changes_view(changes@);
    let is_lvm = match p.kind {
        PoolKind::Lvm => true,
        _ => false,
    };
    if is_lvm {
        if !dry_run {
            let mut argv: Vec<String> = Vec::new();
            assert(strings_view(argv@) =~= Seq::<Seq<char>>::empty());
            push_word(&mut argv, "/sbin/vgcreate");
            push_word(&mut argv, &p.name);
            push_strings(&mut argv, &p.devices);
            assert(strings_view(argv@) =~= seq!["/sbin/vgcreate"@, p.name@] + strings_view(p.devices@));
            add_step(steps, run(argv, "failed to create LVM volume group".to_owned(), cat("failed to create LVM volume group ", &p.name)));
        }
        let value = three_members(
            "devices",
            strings_to_json(&p.devices),
            "name",
            Json::Str(p.name.clone()),
            "properties",
            props_to_json(&p.properties),
        );
        add_change(changes, created_change(cat("lvm-vg:", &p.name), value));
    }
    assert(steps_view(steps@) =~= s0 + linux_pool_steps(*p, dry_run));
    assert(changes_view(changes@) =~= c0 + linux_pool_changes(*p));
}

} // verus!

verus! {

fn bsd_pools_plan(ps: &Vec<PoolSpec>, ex: &Vec<bool>, dry_run: bool, steps: &mut Vec<StorageStep>, changes: &mut Vec<TaskChange>)
    requires
        ex@.len() == ps@.len(),
    ensures
        steps_view(final(steps)@) == steps_view(old(steps)@) + bsd_pools_steps(ps@, ex@, dry_run),
        changes_view(final(changes)@) == changes_view(old(changes)@) + bsd_pools_changes(ps@, ex@, dry_run),
{
    let ghost s0 = steps_view(steps@);
    let ghost c0 = changes_view(changes@);
    let mut i: usize = 0;
    assert(steps_view(steps@) =~= s0 + bsd_pools_steps(ps@.subrange(0, 0), ex@, dry_run));
    assert(changes_view(changes@) =~= c0 + bsd_pools_changes(ps@.subrange(0, 0), ex@, dry_run));
    while i < ps.len()
        invariant
            i <= ps@.len(),
            ex@.len() == ps@.len(),
            steps_view(steps@) == s0 + bsd_pools_steps(ps@.subrange(0, i as int), ex@, dry_run),
            changes_view(changes@) == c0 + bsd_pools_changes(ps@.subrange(0, i as int), ex@, dry_run),
        decreases ps.len() - i,
    {
        proof {
            assert(ps@.subrange(0, i as int + 1).drop_last() =~= ps@.subrange(0, i as int));
        }
        bsd_pool_plan(&ps[i], ex[i], dry_run, steps, changes);
        assert(steps_view(steps@) =~= s0 + bsd_pools_steps(ps@.subrange(0, i as int + 1), ex@, dry_run));
        assert(changes_view(changes@) =~= c0 + bsd_pools_changes(ps@.subrange(0, i as int + 1), ex@, dry_run));
        i = i + 1;
    }
    assert(ps@.subrange(0, ps@.len() as int) =~= ps@);
}

fn bsd_datasets_plan(ds: &Vec<DatasetSpec>, dry_run: bool, steps: &mut Vec<StorageStep>, changes: &mut Vec<TaskChange>)
    ensures
        steps_view(final(steps)@) == steps_view(old(steps)@) + bsd_datasets_steps(ds@, dry_run),
        changes_view(final(changes)@) == changes_view(old(changes)@) + bsd_datasets_changes(ds@),
{
    let ghost s0 = steps_view(steps@);
    let ghost c0 = changes_view(changes@);
    let mut i: usize = 0;
    assert(steps_view(steps@) =~= s0 + bsd_datasets_steps(ds@.subrange(0, 0), dry_run));
    assert(changes_view(changes@) =~= c0 + bsd_datasets_changes(ds@.subrange(0, 0)));
    while i < ds.len()
        invariant
            i <= ds@.len(),
            steps_view(steps@) == s0 + bsd_datasets_steps(ds@.subrange(0, i as int), dry_run),
            changes_view(changes@) == c0 + bsd_datasets_changes(ds@.subrange(0, i as int)),
        decreases ds.len() - i,
    {
        proof {
            assert(ds@.subrange(0, i as int + 1).drop_last() =~= ds@.subrange(0, i as int));
        }
        bsd_dataset_plan(&ds[i], dry_run, steps, changes);
        assert(steps_view(steps@) =~= s0 + bsd_datasets_steps(ds@.subrange(0, i as int + 1), dry_run));
        assert(changes_view(changes@) =~= c0 + bsd_datasets_changes(ds@.subrange(0, i as int + 1)));
        i = i + 1;
    }
    assert(ds@.subrange(0, ds@.len() as int) =~= ds@);
}

fn bsd_fss_plan(fs: &Vec<FilesystemSpec>, dry_run: bool, steps: &mut Vec<StorageStep>, changes: &mut Vec<TaskChange>)
    ensures
        steps_view(final(steps)@) == steps_view(old(steps)@) + bsd_fss_steps(fs@, dry_run),
        changes_view(final(changes)@) == changes_view(old(changes)@) + bsd_fss_changes(fs@),
{
    let ghost s0 = steps_view(steps@);
    let ghost c0 = changes_view(changes@);
    let mut i: usize = 0;
    assert(steps_view(steps@) =~= s0 + bsd_fss_steps(fs@.subrange(0, 0), dry_run));
    assert(changes_view(changes@) =~= c0 + bsd_fss_changes(fs@.subrange(0, 0)));
    while i < fs.len()
        invariant
            i <= fs@.len(),
            steps_view(steps@) == s0 + bsd_fss_steps(fs@.subrange(0, i as int), dry_run),
            changes_view(changes@) == c0 + bsd_fss_changes(fs@.subrange(0, i as int)),
        decreases fs.len() - i,
    {
        proof {
            assert(fs@.subrange(0, i as int + 1).drop_last() =~= fs@.subrange(0, i as int));
        }
        bsd_fs_plan(&fs[i], dry_run, steps, changes);
        assert(steps_view(steps@) =~= s0 + bsd_fss_steps(fs@.subrange(0, i as int + 1), dry_run));
        assert(changes_view(changes@) =~= c0 + bsd_fss_changes(fs@.subrange(0, i as int + 1)));
        i = i + 1;
    }
    assert(fs@.subrange(0, fs@.len() as int) =~= fs@);
}

fn mounts_plan(ms: &Vec<MountSpec>, program: &str, dry_run: bool, steps: &mut Vec<StorageStep>, changes: &mut Vec<TaskChange>)
    ensures
        steps_view(final(steps)@) == steps_view(old(steps)@) + mounts_steps(ms@, program@, dry_run),
        changes_view(final(changes)@) == changes_view(old(changes)@) + mounts_changes(ms@),
{
    let ghost s0 = steps_view(steps@);
    let ghost c0 = changes_view(changes@);
    let mut i: usize = 0;
    assert(steps_view(steps@) =~= s0 + mounts_steps(ms@.subrange(0, 0), program@, dry_run));
    assert(changes_view(changes@) =~= c0 + mounts_changes(ms@.subrange(0, 0)));
    while i < ms.len()
        invariant
            i <= ms@.len(),
            steps_view(steps@) == s0 + mounts_steps(ms@.subrange(0, i as int), program@, dry_run),
            changes_view(changes@) == c0 + mounts_changes(ms@.subrange(0, i as int)),
        decreases ms.len() - i,
    {
        proof {
            assert(ms@.subrange(0, i as int + 1).drop_last() =~= ms@.subrange(0, i as int));
        }
        mount_plan(&ms[i], program, dry_run, steps, changes);
        assert(steps_view(steps@) =~= s0 + mounts_steps(ms@.subrange(0, i as int + 1), program@, dry_run));
        assert(changes_view(changes@) =~= c0 + mounts_changes(ms@.subrange(0, i as int + 1)));
        i = i + 1;
    }
    assert(ms@.subrange(0, ms@.len() as int) =~= ms@);
}

fn linux_fss_plan(fs: &Vec<FilesystemSpec>, dry_run: bool, steps: &mut Vec<StorageStep>, changes: &mut Vec<TaskChange>)
    ensures
        steps_view(final(steps)@) == steps_view(old(steps)@) + linux_fss_steps(fs@, dry_run),
        changes_view(final(changes)@) == changes_view(old(changes)@) + linux_fss_changes(fs@),
{
    let ghost s0 = steps_view(steps@);
    let ghost c0 = changes_view(changes@);
    let mut i: usize = 0;
    assert(steps_view(steps@) =~= s0 + linux_fss_steps(fs@.subrange(0, 0), dry_run));
    assert(changes_view(changes@) =~= c0 + linux_fss_changes(fs@.subrange(0, 0)));
    while i < fs.len()
        invariant
            i <= fs@.len(),
            steps_view(steps@) == s0 + linux_fss_steps(fs@.subrange(0, i as int), dry_run),
            changes_view(changes@) == c0 + linux_fss_changes(fs@.subrange(0, i as int)),
        decreases fs.len() - i,
    {
        proof {
            assert(fs@.subrange(0, i as int + 1).drop_last() =~= fs@.subrange(0, i as int));
        }
        linux_fs_plan(&fs[i], dry_run, steps, changes);
        assert(steps_view(steps@) =~= s0 + linux_fss_steps(fs@.subrange(0, i as int + 1), dry_run));
        assert(changes_view(changes@) =~= c0 + linux_fss_changes(fs@.subrange(0, i as int + 1)));
        i = i + 1;
    }
    assert(fs@.subrange(0, fs@.len() as int) =~= fs@);
}

fn linux_pools_plan(ps: &Vec<PoolSpec>, dry_run: bool, steps: &mut Vec<StorageStep>, changes: &mut Vec<TaskChange>)
    ensures
        steps_view(final(steps)@) == steps_view(old(steps)@) + linux_pools_steps(ps@, dry_run),
        changes_view(final(changes)@) == changes_view(old(changes)@) + linux_pools_changes(ps@),
{
    let ghost s0 = steps_view(steps@);
    let ghost c0 = changes_view(changes@);
    let mut i: usize = 0;
    assert(steps_view(steps@) =~= s0 + linux_pools_steps(ps@.subrange(0, 0), dry_run));
    assert(changes_view(changes@) =~= c0 + linux_pools_changes(ps@.subrange(0, 0)));
    while i < ps.len()
        invariant
            i <= ps@.len(),
            steps_view(steps@) == s0 + linux_pools_steps(ps@.subrange(0, i as int), dry_run),
            changes_view(changes@) == c0 + linux_pools_changes(ps@.subrange(0, i as int)),
        decreases ps.len() - i,
    {
        proof {
            assert(ps@.subrange(0, i as int + 1).drop_last() =~= ps@.subrange(0, i as int));
        }
        linux_pool_plan(&ps[i], dry_run, steps, changes);
        assert(steps_view(steps@) =~= s0 + linux_pools_steps(ps@.subrange(0, i as int + 1), dry_run));
        assert(changes_view(changes@) =~= c0 + linux_pools_changes(ps@.subrange(0, i as int + 1)));
        i = i + 1;
    }
    assert(ps@.subrange(0, ps@.len() as int) =~= ps@);
}

/// The steps that apply a storage configuration on FreeBSD, in the order they
/// are to run, and the changes reported for it. `pool_exists` tells, pool by
/// pool, whether the pool exists already; in a dry run no step is returned and
/// every pool is reported as created. The caller runs the steps in order and
/// stops at the first that fails, reporting `storage_failure` of its message.
pub fn freebsd_storage_plan(s: &StorageSpec, dry_run: bool, pool_exists: &Vec<bool>) -> (r: (Vec<StorageStep>, Vec<TaskChange>))
    requires
        pool_exists@.len() == s.pools@.len(),
    ensures
        steps_view(r.0@) == freebsd_storage_commands(*s, dry_run, pool_exists@),
        changes_view(r.1@) == freebsd_storage_changes(*s, dry_run, pool_exists@),
{
    let mut steps: Vec<StorageStep> = Vec::new();
    let mut changes: Vec<TaskChange> = Vec::new();
    assert(steps_view(steps@) =~= Seq::<StepV>::empty());
    assert(changes_view(changes@) =~= Seq::<ChangeV>::empty());
    bsd_pools_plan(&s.pools, pool_exists, dry_run, &mut steps, &mut changes);
    bsd_datasets_plan(&s.datasets, dry_run, &mut steps, &mut changes);
    bsd_fss_plan(&s.filesystems, dry_run, &mut steps, &mut changes);
    mounts_plan(&s.mounts, "/sbin/mount", dry_run, &mut steps, &mut changes);
    assert(steps_view(steps@) =~= freebsd_storage_commands(*s, dry_run, pool_exists@));
    assert(changes_view(changes@) =~= freebsd_storage_changes(*s, dry_run, pool_exists@));
    (steps, changes)
}

/// The steps that apply a storage configuration on Linux, in the order they
/// are to run, and the changes reported for it; in a dry run no step is
/// returned. The caller runs the steps as for `freebsd_storage_plan`.
pub fn linux_storage_plan(s: &StorageSpec, dry_run: bool) -> (r: (Vec<StorageStep>, Vec<TaskChange>))
    ensures
        steps_view(r.0@) == linux_storage_commands(*s, dry_run),
        changes_view(r.1@) == linux_storage_changes(*s),
{
    let mut steps: Vec<StorageStep> = Vec::new();
    let mut changes: Vec<TaskChange> = Vec::new();
    assert(steps_view(steps@) =~= Seq::<StepV>::empty());
    assert(changes_view(changes@) =~= Seq::<ChangeV>::empty());
    linux_fss_plan(&s.filesystems, dry_run, &mut steps, &mut changes);
    linux_pools_plan(&s.pools, dry_run, &mut steps, &mut changes);
    mounts_plan(&s.mounts, "/bin/mount", dry_run, &mut steps, &mut changes);
    assert(steps_view(steps@) =~= linux_storage_commands(*s, dry_run));
    assert(changes_view(changes@) =~= linux_storage_changes(*s));
    (steps, changes)
}

} // verus!

verus! {

proof fn lemma_dry_pools(ps: Seq<PoolSpec>, ex: Seq<bool>)
    ensures
        bsd_pools_steps(ps, ex, true) =~= Seq::<StepV>::empty(),
        linux_pools_steps(ps, true) =~= Seq::<StepV>::empty(),
        forall|i: int| 0 <= i < bsd_pools_changes(ps, ex, true).len() ==> (#[trigger] bsd_pools_changes(ps, ex, true)[i]).0 == TaskChangeType::Create,
    decreases ps.len(),
{
    if ps.len() > 0 {
        lemma_dry_pools(ps.drop_last(), ex);
        let a = bsd_pools_changes(ps.drop_last(), ex, true);
        let b = bsd_pool_changes(ps.last(), ex[ps.len() - 1], true);
        assert forall|i: int| 0 <= i < (a + b).len() implies (#[trigger] (a + b)[i]).0 == TaskChangeType::Create by {
            if i >= a.len() {
                assert((a + b)[i] == b[i - a.len()]);
            } else {
                assert((a + b)[i] == a[i]);
            }
        }
    }
}

proof fn lemma_dry_datasets(ds: Seq<DatasetSpec>)
    ensures
        bsd_datasets_steps(ds, true) =~= Seq::<StepV>::empty(),
        forall|i: int| 0 <= i < bsd_datasets_changes(ds).len() ==> (#[trigger] bsd_datasets_changes(ds)[i]).0 == TaskChangeType::Create,
    decreases ds.len(),
{
    if ds.len() > 0 {
        lemma_dry_datasets(ds.drop_last());
    }
}

proof fn lemma_dry_filesystems(fs: Seq<FilesystemSpec>)
    ensures
        bsd_fss_steps(fs, true) =~= Seq::<StepV>::empty(),
        linux_fss_steps(fs, true) =~= Seq::<StepV>::empty(),
        forall|i: int| 0 <= i < bsd_fss_changes(fs).len() ==> (#[trigger] bsd_fss_changes(fs)[i]).0 == TaskChangeType::Create,
    decreases fs.len(),
{
    if fs.len() > 0 {
        lemma_dry_filesystems(fs.drop_last());
        let a = bsd_fss_changes(fs.drop_last());
        let b = bsd_fs_changes(fs.last());
        assert forall|i: int| 0 <= i < (a + b).len() implies (#[trigger] (a + b)[i]).0 == TaskChangeType::Create by {
            if i >= a.len() {
                assert((a + b)[i] == b[i - a.len()]);
            } else {
                assert((a + b)[i] == a[i]);
            }
        }
    }
}

proof fn lemma_dry_mounts(ms: Seq<MountSpec>, program: Seq<char>)
    ensures
        mounts_steps(ms, program, true) =~= Seq::<StepV>::empty(),
        forall|i: int| 0 <= i < mounts_changes(ms).len() ==> (#[trigger] mounts_changes(ms)[i]).0 == TaskChangeType::Create,
    decreases ms.len(),
{
    if ms.len() > 0 {
        lemma_dry_mounts(ms.drop_last(), program);
    }
}

/// A dry run runs nothing: on FreeBSD and on Linux it has no step, whatever
/// the configuration and whichever pools exist.
pub proof fn law_dry_run_runs_nothing(s: StorageSpec, pool_exists: Seq<bool>)
    ensures
        freebsd_storage_commands(s, true, pool_exists).len() == 0,
        linux_storage_commands(s, true).len() == 0,
{
    lemma_dry_pools(s.pools@, pool_exists);
    lemma_dry_datasets(s.datasets@);
    lemma_dry_filesystems(s.filesystems@);
    lemma_dry_mounts(s.mounts@, "/sbin/mount"@);
    lemma_dry_mounts(s.mounts@, "/bin/mount"@);
}

/// A dry run on FreeBSD treats every pool as new: each change it reports is a
/// creation, whichever pools exist.
pub proof fn law_dry_run_reports_creations(s: StorageSpec, pool_exists: Seq<bool>)
    ensures
        forall|i: int|
            0 <= i < freebsd_storage_changes(s, true, pool_exists).len() ==> (#[trigger] freebsd_storage_changes(
                s,
                true,
                pool_exists,
            )[i]).0 == TaskChangeType::Create,
{
    lemma_dry_pools(s.pools@, pool_exists);
    lemma_dry_datasets(s.datasets@);
    lemma_dry_filesystems(s.filesystems@);
    lemma_dry_mounts(s.mounts@, "/sbin/mount"@);
    let a = bsd_pools_changes(s.pools@, pool_exists, true);
    let b = bsd_datasets_changes(s.datasets@);
    let c = bsd_fss_changes(s.filesystems@);
    let d = mounts_changes(s.mounts@);
    assert forall|i: int| 0 <= i < (a + b + c + d).len() implies (#[trigger] (a + b + c + d)[i]).0 == TaskChangeType::Create by {
        if i < a.len() {
            assert((a + b + c + d)[i] == a[i]);
        } else if i < a.len() + b.len() {
            assert((a + b + c + d)[i] == b[i - a.len()]);
        } else if i < a.len() + b.len() + c.len() {
            assert((a + b + c + d)[i] == c[i - a.len() - b.len()]);
        } else {
            assert((a + b + c + d)[i] == d[i - a.len() - b.len() - c.len()]);
        }
    }
}

proof fn lemma_dry_pools_as_new(ps: Seq<PoolSpec>, ex: Seq<bool>, none: Seq<bool>)
    requires
        forall|i: int| 0 <= i < none.len() ==> !(#[trigger] none[i]),
        none.len() == ps.len(),
    ensures
        bsd_pools_changes(ps, ex, true) == bsd_pools_changes(ps, none, false),
    decreases ps.len(),
{
    if ps.len() > 0 {
        lemma_dry_pools_as_new(ps.drop_last(), ex, none.drop_last());
        assert(bsd_pools_changes(ps.drop_last(), none.drop_last(), false) == bsd_pools_changes(ps.drop_last(), none, false))
            by {
            lemma_pools_changes_prefix(ps.drop_last(), none.drop_last(), none);
        }
        assert(!none[ps.len() - 1]);
    }
}

proof fn lemma_pools_changes_prefix(ps: Seq<PoolSpec>, a: Seq<bool>, b: Seq<bool>)
    requires
        a.len() >= ps.len(),
        b.len() >= ps.len(),
        forall|i: int| 0 <= i < ps.len() ==> a[i] == b[i],
    ensures
        bsd_pools_changes(ps, a, false) == bsd_pools_changes(ps, b, false),
    decreases ps.len(),
{
    if ps.len() > 0 {
        lemma_pools_changes_prefix(ps.drop_last(), a, b);
    }
}

/// A dry run on FreeBSD reports what a run would report on a machine where no
/// pool exists yet: it treats every pool as new, whichever pools exist.
pub proof fn law_dry_run_reports_as_if_no_pool_existed(s: StorageSpec, pool_exists: Seq<bool>)
    ensures
        freebsd_storage_changes(s, true, pool_exists) == freebsd_storage_changes(
            s,
            false,
            Seq::new(s.pools@.len(), |i: int| false),
        ),
{
    let none = Seq::new(s.pools@.len(), |i: int| false);
    lemma_dry_pools_as_new(s.pools@, pool_exists, none);
}

} // verus!
