use linux_object::boot_root::{
    determine_real_root, disk_name, efi_dev_from_root_cmdline, is_partition_candidate,
    keep_boot_medium, lookup_candidate, parse_root_cmdline, partition_name, record_boot_mounts,
    rescan_partitions, root_mount_candidates, udev_record, udev_record_name, BootMounts,
    InputTraits,
};
use linux_object::error::{FsError, LxError};
use linux_object::boot_nodes::{
    block_candidates, create_root_fs, resolve_mount_dir, resolve_or_create_dir, Disk, Inventory,
    MountDir, NodeKind,
};
use linux_object::flagged_fs::{check_write, gate, poll, wrap, Operation};
use linux_object::fstab::{
    fstab_root, mount_fstab, mount_fstab_deferred, option_flags, record_fstab_mount,
};
use linux_object::mount_state::{
    build_options_string, flags_read_only, parse_option_flag, MountState, MS_BIND, MS_NODEV,
    MS_NOEXEC, MS_NOSUID, MS_RDONLY, MS_REMOUNT,
};
use linux_object::mount_table::{normalize_mount_target, MountTable};
use linux_object::vfs::PollStatus;

fn names(v: &[&str]) -> Vec<String> {
    v.iter().map(|s| s.to_string()).collect()
}

#[test]
fn options_are_read_and_written() {
    assert!(parse_option_flag("noatime,ro", "ro"));
    assert!(parse_option_flag("ro=TRUE", "ro"));
    assert!(parse_option_flag("ro = 1", "ro"));
    assert!(!parse_option_flag("ro=0,rox", "ro"));
    assert!(flags_read_only(MS_RDONLY, ""));
    assert!(flags_read_only(0, "ro"));
    assert!(!flags_read_only(MS_NOSUID, "rw"));
    assert_eq!(build_options_string(0, ""), "rw");
    assert_eq!(
        build_options_string(MS_RDONLY | MS_NOSUID | MS_NODEV | MS_NOEXEC | MS_BIND, "size=1m"),
        "ro,nosuid,nodev,noexec,bind,size=1m"
    );
}

#[test]
fn targets_are_compared_without_a_closing_slash() {
    assert_eq!(normalize_mount_target("/mnt/"), "/mnt");
    assert_eq!(normalize_mount_target("/"), "/");
}

#[test]
fn the_table_lists_what_is_mounted() {
    let mut t = MountTable::new();
    t.register_mount("none", "/proc", "proc", "rw", MountState::new(false));
    t.register_mount("/dev/sda1", "/mnt", "vfat", "ro", MountState::new(true));
    assert_eq!(
        t.proc_mounts_content(),
        "none /proc proc rw 0 0\n/dev/sda1 /mnt vfat ro 0 0\n"
    );
    assert_eq!(t.remount_flags("/nowhere", MS_REMOUNT, ""), Err(LxError::EINVAL));
    assert_eq!(t.remount_flags("/mnt/", MS_REMOUNT, ""), Ok(()));
    assert!(!t.mounts[1].state.is_read_only());
    assert_eq!(t.move_mount_entry("/mnt", "/media"), Ok(()));
    assert_eq!(t.mounts[1].target, "/media");
    assert_eq!(t.move_mount_entry("/mnt", "/media"), Err(LxError::EINVAL));
    t.unregister_mount("/media");
    assert_eq!(t.mounts.len(), 1);
    t.reset_mount_table();
    assert_eq!(t.proc_mounts_content(), "");
}

#[test]
fn a_read_only_mount_takes_no_writes() {
    let ro = MountState::new(true);
    let mut rw = MountState::new(false);
    assert_eq!(check_write(&ro), Err(FsError::ReadOnly));
    assert_eq!(check_write(&rw), Ok(()));
    assert_eq!(gate(&ro, Operation::WriteAt), Err(FsError::ReadOnly));
    assert_eq!(gate(&ro, Operation::Unlink), Err(FsError::ReadOnly));
    assert_eq!(gate(&ro, Operation::ReadAt), Ok(()));
    assert_eq!(gate(&rw, Operation::WriteAt), Ok(()));
    assert!(wrap(Operation::Find) && !wrap(Operation::ReadAt));
    let s = PollStatus { read: true, write: true, error: false };
    assert_eq!(poll(&ro, Ok(s)), Ok(PollStatus { write: false, ..s }));
    assert_eq!(poll(&rw, Ok(s)), Ok(s));
    rw.set_read_only(true);
    assert!(rw.is_read_only());
}

#[test]
fn the_command_line_names_the_root() {
    assert_eq!(parse_root_cmdline("LOG=warn:ROOT=/dev/sda2").as_deref(), Some("/dev/sda2"));
    assert_eq!(parse_root_cmdline("root = /dev/vda1 :x").as_deref(), Some("/dev/vda1"));
    assert_eq!(parse_root_cmdline("ROOT=__ECLIPSE_ROOT"), None);
    assert_eq!(parse_root_cmdline("ROOT=:LOG=warn"), None);
    assert!(keep_boot_medium("a:rootkeep=1"));
    assert!(!keep_boot_medium("ROOTKEEP=0"));
    assert_eq!(efi_dev_from_root_cmdline("ROOT=/dev/sda2").as_deref(), Some("/dev/sda1"));
    assert_eq!(
        efi_dev_from_root_cmdline("ROOT=/dev/nvme0n1p5").as_deref(),
        Some("/dev/nvme0n1p1")
    );
    assert_eq!(efi_dev_from_root_cmdline("ROOT=/dev/sda"), None);
}

#[test]
fn partitions_are_tried_before_disks() {
    assert!(is_partition_candidate("sda1"));
    assert!(!is_partition_candidate("sda"));
    assert!(is_partition_candidate("sda2") && is_partition_candidate("vda10"));
    assert!(is_partition_candidate("nvme0n1p3") && is_partition_candidate("nvme10n1p12"));
    assert!(!is_partition_candidate("nvme0n1") && !is_partition_candidate("nvme10n12"));
    assert!(!is_partition_candidate("") && !is_partition_candidate("nvme0np3"));
    assert_eq!(root_mount_candidates(&names(&["nvme0n1", "nvme0n1p1", "sda"])), vec![1]);
    assert_eq!(root_mount_candidates(&names(&["nvme0n1", "sda"])), vec![0, 1]);
    assert_eq!(root_mount_candidates(&names(&["sda", "sda1", "sda2"])), vec![1, 2]);
    assert_eq!(root_mount_candidates(&names(&["sda", "sdb"])), vec![0, 1]);
    assert_eq!(lookup_candidate(&names(&["sda", "sda1"]), "/dev/sda1"), Some(1));
    assert_eq!(lookup_candidate(&names(&["sda"]), "/dev/sdz"), None);
}

#[test]
fn the_named_root_is_tried_first() {
    let devices = names(&["sda1", "sda2", "sda3"]);
    let order: Vec<usize> =
        determine_real_root("ROOT=/dev/sda3", Some("/dev/sda2"), &devices).iter().map(|a| a.index).collect();
    assert_eq!(order[0], 2);
    let again: Vec<usize> =
        determine_real_root("ROOT=/dev/gone", None, &devices).iter().map(|a| a.index).collect();
    assert_eq!(again, vec![0, 1, 2]);
}

#[test]
fn nodes_are_named_by_driver() {
    let d = names(&["nvme-pci", "ahci", "virtio-blk", "ahci", "nvme-pci"]);
    let got: Vec<String> = (0..5).map(|i| disk_name(&d, i)).collect();
    assert_eq!(got, names(&["nvme0n1", "sda", "vda", "sdb", "nvme1n1"]));
    assert_eq!(partition_name("sda", 12), "sda12");
    assert_eq!(partition_name("nvme0n1", 2), "nvme0n1p2");
    let r = rescan_partitions("sda", &[(2048, 100), (4096, 50)], 10);
    assert_eq!(r.remove.len(), 15);
    assert_eq!(r.remove[14], "sda15");
    assert_eq!(r.add.len(), 2);
    assert_eq!(
        (r.add[1].name.as_str(), r.add[1].index, r.add[1].start_block, r.add[1].block_count),
        ("sda2", 12, 4096, 50)
    );
}

#[test]
fn input_devices_are_described_for_the_seat() {
    let keyboard = InputTraits { key_esc: true, rel_x: false, rel_y: false, btn_left: false };
    assert_eq!(
        udev_record(keyboard),
        "I:1\nE:ID_INPUT=1\nE:ID_INPUT_KEYBOARD=1\nG:seat\nQ:seat\nV:1\n"
    );
    let mouse = InputTraits { key_esc: false, rel_x: true, rel_y: true, btn_left: true };
    assert_eq!(udev_record(mouse), "I:1\nE:ID_INPUT=1\nE:ID_INPUT_MOUSE=1\nG:seat\nQ:seat\nV:1\n");
    assert_eq!(udev_record_name(3), "c13:67");
}

#[test]
fn boot_mounts_that_came_about_are_listed() {
    let mut t = MountTable::new();
    let some = BootMounts { dev: true, tmp: false, run: false, apk: false, proc_: true, sys: false };
    record_boot_mounts(&mut t, "/dev/sda2", "btrfs", some);
    let targets: Vec<&str> = t.mounts.iter().map(|m| m.target.as_str()).collect();
    assert_eq!(targets[0], "/");
    assert!(targets.contains(&"/dev") && targets.contains(&"/proc"));
    assert!(!targets.contains(&"/tmp") && !targets.contains(&"/sys"));
}

#[test]
fn the_last_write_option_wins() {
    let flags = |s: &str| option_flags(&s.chars().collect::<Vec<char>>());
    assert_eq!(flags("ro,nosuid , nodev,noexec"), MS_RDONLY | MS_NOSUID | MS_NODEV | MS_NOEXEC);
    assert_eq!(flags("ro,rw"), 0);
    assert_eq!(flags("rw,ro"), MS_RDONLY);
    assert_eq!(flags("defaults"), 0);
}

#[test]
fn the_table_of_mounts_is_read_line_by_line() {
    let table = "# comment\n\n/dev/sda2 / btrfs defaults\n/dev/sdb1 /data vfat ro,nodev 0 0\n\
                 none none swap sw\n__ECLIPSE_EFI /boot/efi vfat\n__ECLIPSE_X /x vfat\n";
    let v = mount_fstab(table.as_bytes(), "ROOT=/dev/sda2");
    assert_eq!(v.len(), 2);
    assert_eq!(v[0].lookup, "dev/sdb1");
    assert_eq!((v[0].source.as_str(), v[0].target.as_str()), ("/dev/sdb1", "/data"));
    assert_eq!(v[0].flags, MS_RDONLY | MS_NODEV);
    assert_eq!((v[1].source.as_str(), v[1].target.as_str()), ("/dev/sda1", "/boot/efi"));
    assert_eq!(v[1].options, "defaults");
    assert!(mount_fstab(table.as_bytes(), "").iter().all(|m| m.target != "/boot/efi"));
    assert!(mount_fstab_deferred(None, "").is_empty());
    assert!(mount_fstab_deferred(Some(table.as_bytes()), "").len() > 0);
    assert!(mount_fstab(b"\xff\n/dev/sda3 /home btrfs\n", "").is_empty());
    let mut t = MountTable::new();
    record_fstab_mount(&mut t, &v[0], "vfat", MountState::new(true));
    assert_eq!(t.mounts[0].target, "/data");
    assert!(fstab_root(table.as_bytes()).is_some());
    assert!(fstab_root(b"\xff\n/dev/sda2 / btrfs\n").is_none());
    assert!(fstab_root(b"# nothing\n").is_none());
}

fn machine() -> Inventory {
    Inventory {
        vts: 2,
        display: true,
        inputs: vec![false, true],
        gpus: 0,
        uarts: 1,
        disks: vec![
            Disk { driver: "nvme-0".to_string(), parts: vec![(2048, 100)] },
            Disk { driver: "ahci".to_string(), parts: vec![] },
            Disk { driver: "ahci".to_string(), parts: vec![(1, 2), (3, 4)] },
        ],
    }
}

#[test]
fn the_boot_makes_the_nodes_of_the_machine() {
    let p = create_root_fs(&machine(), "LOG=info: rootkeep=1 ");
    assert!(!p.pivot);
    let paths: Vec<&str> = p.nodes.iter().map(|n| n.path.as_str()).collect();
    assert_eq!(
        paths,
        vec![
            "null", "zero", "random", "urandom", "shm", "tty", "tty0", "console", "tty1", "tty2",
            "ptmx", "pts", "fb0", "input", "input/mouse0", "input/mice", "input/event0",
            "input/event1", "dri", "dri/card0", "dri/renderD128", "ttyS0", "nvme0n1", "nvme0n1p1",
            "sda", "sdb", "sdb1", "sdb2",
        ]
    );
    assert!(p.nodes[0].needed && !p.nodes[4].needed);
    assert_eq!(
        p.nodes[27].kind,
        NodeKind::Partition { disk: 2, index: 34, start_block: 3, block_count: 4 }
    );
    let mut made = vec![true; p.nodes.len()];
    made[24] = false;
    assert_eq!(
        block_candidates(&p.nodes, &made),
        vec!["nvme0n1", "nvme0n1p1", "sdb", "sdb1", "sdb2"]
    );
}

#[test]
fn a_bare_machine_has_no_card() {
    let bare = Inventory {
        vts: 0,
        display: false,
        inputs: vec![],
        gpus: 0,
        uarts: 0,
        disks: vec![],
    };
    let p = create_root_fs(&bare, "");
    assert!(p.pivot);
    assert_eq!(p.nodes.len(), 10);
    assert!(create_root_fs(&Inventory { gpus: 1, ..bare }, "")
        .nodes
        .iter()
        .any(|n| n.kind == NodeKind::Card(128)));
}

#[test]
fn mount_directories_are_found_or_made() {
    assert_eq!(resolve_mount_dir("btrfs", true, false), MountDir::Backing);
    assert_eq!(resolve_mount_dir("btrfs", false, true), MountDir::Make);
    assert_eq!(resolve_mount_dir("rootfs", false, true), MountDir::Existing);
    assert_eq!(resolve_mount_dir("rootfs", true, false), MountDir::Make);
    assert_eq!(resolve_or_create_dir("/boot//efi/"), vec!["boot", "efi"]);
}
