# sysconfig

A system configuration service and its provisioning tool, with the logic
verified by Verus.

- `src/` is the verified library: the JSON state model and its path
  operations, the state manager's revisions, hashing and diffs, the revision
  files kept on disk, the service's plugin registry and state locks, the KDL
  configuration parser and loader, the provisioning configuration and its
  merging by priority, the parsers of the cloud metadata formats (EC2, GCP,
  Azure, DigitalOcean, OpenStack, cloud-init, SmartOS), address and mask
  helpers, reading JSON and YAML text into the library's JSON values, the
  per-file diff and apply steps of the file task, and the sanitising of
  desired network settings and the changes they ask for, a dry run of the
  file task over what was found on disk, how a base plugin answers a
  request to apply a state from its tasks' outcomes (and refuses state text
  that is not JSON), the storage steps of the FreeBSD and Linux base plugins
  (ZFS pools and datasets, UFS, ext4, XFS, Btrfs, LVM volume groups, mounts)
  with the changes they report, the FreeBSD pkg repository files, proxy
  setting and package request, the jail.conf block of a new jail and the
  steps of its nested configuration, the commands of the Linux containers, the order and filtering of source detection,
  and the decisions of the configuration watcher. Each
  public function states its result in its `ensures`; the laws that relate
  several functions are public proof functions whose names begin with `law_`.
- `tests/` holds the tests of the library.
- `app/` is the provisioning command-line tool around the library: argument
  handling, reading files and metadata services, running commands (the
  storage steps among them, in order, stopping at the first that fails), and
  the serde forms of the library's documents.

Calls into outside crates (kdl, sha2, uuid, chrono, base64, serde_json,
serde_yaml) stand
behind small trusted wrappers in `src/`, each with a doc comment saying what
its contract claims of the outside function.
