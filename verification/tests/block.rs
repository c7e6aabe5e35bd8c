use sysfs_block::block::{Block, BlockDeviceType};
use sysfs_block::class::SysClass;
use sysfs_block::error::Error;
use sysfs_block::fs::{FsDir, FsFile, SysFs};
use sysfs_block::scsi::ScsiDeviceType;

const ROOT: &str = "/sys/class/block";

fn dir(path: &str, names: &[&str]) -> FsDir {
    FsDir { path: path.to_string(), names: names.iter().map(|n| n.to_string()).collect() }
}

fn file(path: &str, text: &str) -> FsFile {
    FsFile { path: path.to_string(), text: text.to_string() }
}

/// A capture whose class root lists `names`, each with its own instance
/// directory, plus the given files and extra directories.
fn capture(names: &[&str], files: Vec<FsFile>, mut extra_dirs: Vec<FsDir>) -> SysFs {
    let mut dirs = vec![dir(ROOT, names)];
    for name in names {
        dirs.push(dir(&format!("{ROOT}/{name}"), &[]));
    }
    dirs.append(&mut extra_dirs);
    SysFs { files, denied: vec![], dirs }
}

fn sample_fs() -> SysFs {
    let mut fs = capture(
        &["sda2", "sdb1", "sda", "sda1", "sdb", "dm-0", "dm-1"],
        vec![
            file("/sys/class/block/sda1/partition", "1\n"),
            file("/sys/class/block/sda2/partition", "2\n"),
            file("/sys/class/block/sdb1/partition", "1\n"),
            file("/sys/class/block/sda/device/type", "0\n"),
            file("/sys/class/block/sda/size", "123\n"),
            file("/sys/class/block/sda/stat", "abc\n"),
            file("/sys/class/block/sda/queue/scheduler", "noop deadline [cfq]\n"),
            file("/sys/class/block/dm-0/queue/scheduler", "none\n"),
        ],
        vec![
            dir("/sys/class/block/sda/device", &[]),
            dir("/sys/class/block/dm-0/slaves", &["sda2"]),
            dir("/sys/class/block/dm-1/slaves", &[]),
        ],
    );
    fs.denied.push("/sys/class/block/sda/uevent".to_string());
    fs
}

#[test]
fn generic_class_functions_work_for_block() {
    let fs = sample_fs();
    let blocks: Vec<Block> = sysfs_block::class::all_instances(&fs).unwrap();
    assert_eq!(blocks.len(), 7);
    let sda: Block = sysfs_block::class::from_name(&fs, "sda").unwrap();
    assert_eq!(sda.path(), "/sys/class/block/sda");
    assert_eq!(sysfs_block::class::read_attr(&sda, &fs, "size").unwrap(), "123\n");
    assert_eq!(Block::class(), "block");
}

#[test]
fn all_lists_every_instance() {
    let fs = sample_fs();
    let blocks = Block::all(&fs).unwrap();
    let paths: Vec<&str> = blocks.iter().map(|b| b.path()).collect();
    assert_eq!(
        paths,
        vec![
            "/sys/class/block/sda2",
            "/sys/class/block/sdb1",
            "/sys/class/block/sda",
            "/sys/class/block/sda1",
            "/sys/class/block/sdb",
            "/sys/class/block/dm-0",
            "/sys/class/block/dm-1",
        ]
    );
}

#[test]
fn all_fails_without_class_root() {
    let fs = SysFs { files: vec![], denied: vec![], dirs: vec![] };
    assert!(matches!(Block::all(&fs), Err(Error::NotFound)));
}

#[test]
fn from_name_checks_existence() {
    let fs = sample_fs();
    let b = Block::from_name(&fs, "sda").unwrap();
    assert_eq!(b.path(), "/sys/class/block/sda");
    assert!(matches!(Block::from_name(&fs, "sdz"), Err(Error::NotFound)));
}

#[test]
fn parent_of_partition_is_the_disk() {
    let fs = sample_fs();
    let sda1 = Block::from_name(&fs, "sda1").unwrap();
    let parent = sda1.parent_device(&fs).unwrap();
    assert_eq!(parent.path(), "/sys/class/block/sda");
}

#[test]
fn parent_offset_follows_partition_digit_count() {
    let fs = capture(
        &["sda12"],
        vec![file("/sys/class/block/sda12/partition", "12\n")],
        vec![],
    );
    let b = Block::from_name(&fs, "sda12").unwrap();
    let parent = b.parent_device(&fs).unwrap();
    assert_eq!(parent.path(), "/sys/class/block/sda");
}

#[test]
fn no_partition_attribute_means_no_parent() {
    let fs = sample_fs();
    let sda = Block::from_name(&fs, "sda").unwrap();
    assert!(sda.parent_device(&fs).is_none());
}

#[test]
fn children_are_exactly_the_partitions_sorted() {
    let fs = sample_fs();
    let sda = Block::from_name(&fs, "sda").unwrap();
    let kids = sda.children(&fs).unwrap();
    let paths: Vec<&str> = kids.iter().map(|b| b.path()).collect();
    assert_eq!(paths, vec!["/sys/class/block/sda1", "/sys/class/block/sda2"]);

    let sdb = Block::from_name(&fs, "sdb").unwrap();
    let kids = sdb.children(&fs).unwrap();
    let paths: Vec<&str> = kids.iter().map(|b| b.path()).collect();
    assert_eq!(paths, vec!["/sys/class/block/sdb1"]);

    let sda1 = Block::from_name(&fs, "sda1").unwrap();
    assert!(sda1.children(&fs).unwrap().is_empty());
}

#[test]
fn children_fail_without_class_root() {
    let fs = sample_fs();
    let sda = Block::from_name(&fs, "sda").unwrap();
    let empty = SysFs { files: vec![], denied: vec![], dirs: vec![] };
    assert!(matches!(sda.children(&empty), Err(Error::NotFound)));
}

#[test]
fn has_device_reflects_the_marker_directory() {
    let fs = sample_fs();
    let sda = Block::from_name(&fs, "sda").unwrap();
    assert!(sda.has_device(&fs));
    let dm0 = Block::from_name(&fs, "dm-0").unwrap();
    assert!(!dm0.has_device(&fs));
}

#[test]
fn device_type_classifies_by_rule_order() {
    let mut fs = capture(
        &[
            "nvme0n1p1", "dm-0", "loop7", "md127", "nvme0n1", "ram0", "zram0", "sdd", "sdc",
            "sd1", "md", "weird",
        ],
        vec![
            file("/sys/class/block/nvme0n1p1/partition", "1\n"),
            file("/sys/class/block/sdd/device/type", "5\n"),
        ],
        vec![],
    );
    let ty = |fs: &SysFs, name: &str| Block::from_name(fs, name).unwrap().device_type(fs);
    assert_eq!(ty(&fs, "nvme0n1p1"), BlockDeviceType::Partition);
    assert_eq!(ty(&fs, "dm-0"), BlockDeviceType::DeviceMapper);
    assert_eq!(ty(&fs, "loop7"), BlockDeviceType::Loop);
    assert_eq!(ty(&fs, "md127"), BlockDeviceType::MultipleDevice);
    assert_eq!(ty(&fs, "nvme0n1"), BlockDeviceType::Nvme);
    assert_eq!(ty(&fs, "ram0"), BlockDeviceType::RamDisk);
    assert_eq!(ty(&fs, "zram0"), BlockDeviceType::CompressedRamDisk);
    assert_eq!(ty(&fs, "sdd"), BlockDeviceType::Scsi(ScsiDeviceType::ReadOnlyMemory));
    assert_eq!(ty(&fs, "sdc"), BlockDeviceType::StorageDevice);
    assert_eq!(ty(&fs, "sd1"), BlockDeviceType::Unknown);
    assert_eq!(ty(&fs, "md"), BlockDeviceType::Unknown);
    assert_eq!(ty(&fs, "weird"), BlockDeviceType::Unknown);

    fs.files.push(file("/sys/class/block/dm-0/partition", "1\n"));
    assert_eq!(ty(&fs, "dm-0"), BlockDeviceType::Partition);
}

#[test]
fn scsi_attribute_beats_the_sd_name_rule() {
    let fs = capture(
        &["sda"],
        vec![file("/sys/class/block/sda/device/type", "14\n")],
        vec![],
    );
    let sda = Block::from_name(&fs, "sda").unwrap();
    assert_eq!(
        sda.device_type(&fs),
        BlockDeviceType::Scsi(ScsiDeviceType::ReducedBlockCommandsDevice)
    );
}

#[test]
fn parse_file_reads_and_parses() {
    let fs = sample_fs();
    let sda = Block::from_name(&fs, "sda").unwrap();
    assert_eq!(sda.parse_file_u64(&fs, "size"), Ok(123));
    assert_eq!(sda.parse_file_u64(&fs, "stat"), Err(Error::Parse));
    assert_eq!(sda.parse_file_u64(&fs, "absent"), Err(Error::NotFound));
    assert_eq!(sda.parse_file_u64(&fs, "uevent"), Err(Error::PermissionDenied));
    assert_eq!(sda.parse_file_u8(&fs, "device/type"), Ok(0));
}

#[test]
fn read_file_surfaces_the_error_kind() {
    let fs = sample_fs();
    let sda = Block::from_name(&fs, "sda").unwrap();
    assert_eq!(sda.read_file(&fs, "size").unwrap(), "123\n");
    assert!(matches!(sda.read_file(&fs, "device"), Err(Error::Io)));
    assert!(matches!(sda.read_file(&fs, "missing"), Err(Error::NotFound)));
    assert!(matches!(sda.read_file(&fs, "uevent"), Err(Error::PermissionDenied)));
}

#[test]
fn slaves_distinguish_absent_and_empty() {
    let fs = sample_fs();
    let sda = Block::from_name(&fs, "sda").unwrap();
    assert!(sda.slaves(&fs).is_none());

    let dm1 = Block::from_name(&fs, "dm-1").unwrap();
    let listed = dm1.slaves(&fs).unwrap().unwrap();
    assert!(listed.is_empty());

    let dm0 = Block::from_name(&fs, "dm-0").unwrap();
    let listed = dm0.slaves(&fs).unwrap().unwrap();
    assert_eq!(listed, vec!["/sys/class/block/dm-0/slaves/sda2".to_string()]);
}

#[test]
fn queue_scheduler_structures_the_attribute() {
    let fs = sample_fs();
    let sda = Block::from_name(&fs, "sda").unwrap();
    let sched = sda.queue_scheduler(&fs).unwrap();
    assert_eq!(sched.active(), "cfq");
    assert_eq!(sched.active_index(), 2);

    let sdb = Block::from_name(&fs, "sdb").unwrap();
    assert!(matches!(sdb.queue_scheduler(&fs), Err(Error::NotFound)));
}
