use usb_probe::block::{
    attached_to, holders_in, read_from, sample, stats_at, unescape, Alias, Attributes, BlockNode,
    Held, HoldKind, Stack,
};
use usb_probe::model::{BlockDevice, BlockStats};

const STAT: &str = " 3591703   705544 130185220   508905  2117143  4999796 256260138 16075957        0   541417 16637854        0        0        0        0    86485    52992\n";

fn entry(name: &str) -> Attributes {
    Attributes {
        name: name.into(),
        sysfs_path: Some(format!("/sys/devices/test/block/{name}")),
        model: None,
        vendor: None,
        size_sectors: None,
        rotational: None,
        removable: None,
        stat: None,
        sampled_at_unix_ms: 1_000,
    }
}

#[test]
fn parses_a_real_stat_line_and_skips_virtual_devices() {
    let mut entries = vec![Attributes {
        size_sectors: Some(1_953_525_168),
        removable: Some(false),
        rotational: Some(true),
        model: Some("ST1000LM024 HN-M101MBB".into()),
        stat: Some(STAT.into()),
        ..entry("sdc")
    }];
    for name in ["loop0", "zram0", "dm-0"] {
        entries.push(entry(name));
    }

    let blocks = read_from(&entries);
    assert_eq!(blocks.len(), 1, "virtual devices must be skipped");
    let b = &blocks[0];
    assert_eq!(b.name, "sdc");
    assert_eq!(b.rotational, Some(true));
    assert_eq!(b.model.as_deref(), Some("ST1000LM024 HN-M101MBB"));
    // 1953525168 * 512 = 1.0 TB
    assert_eq!(b.size_bytes, Some(1_000_204_886_016));

    let s = b.stats.as_ref().unwrap();
    assert_eq!(s.sectors_read, 130_185_220);
    assert_eq!(s.sectors_written, 256_260_138);
    assert_eq!(s.ios_in_flight, 0);
    assert_eq!(s.total_read_bytes(), 130_185_220 * 512);
    assert!(b.throughput.is_none() && b.scsi.is_none() && b.scsi_delta.is_none());
}

#[test]
fn computes_throughput_between_two_samples() {
    let before = BlockStats {
        read_ios: 0,
        sectors_read: 1000,
        ms_reading: 0,
        write_ios: 0,
        sectors_written: 500,
        ms_writing: 0,
        ios_in_flight: 0,
        sampled_at_unix_ms: 1_000,
    };
    let after = BlockStats {
        sectors_read: 1000 + 200_000,
        sectors_written: 500 + 20_000,
        sampled_at_unix_ms: 2_000,
        ..before
    };
    let t = after.delta(&before).unwrap();
    assert_eq!(t.interval_ms, 1000);
    assert!((t.read_bps.micros as f64 / 1e6 - 102_400_000.0).abs() < 1.0);
    assert!((t.write_bps.micros as f64 / 1e6 - 10_240_000.0).abs() < 1.0);
    assert!((t.total_bps().micros as f64 / 1e6 - 112_640_000.0).abs() < 1.0);

    // Time not advancing must not divide by zero.
    assert!(after.delta(&after).is_none());
    // Counters resetting (device re-enumerated) must not underflow.
    assert!(before.delta(&after).is_none());
}

fn node(name: &str, slaves: &[&str], parent: Option<&str>) -> BlockNode {
    BlockNode {
        name: name.into(),
        slaves: slaves.iter().map(|s| s.to_string()).collect(),
        is_partition: parent.is_some(),
        parent: Some(format!(
            "/sys/devices/pci0000:00/usb2/2-1/host0/block{}",
            parent.map(|p| format!("/{p}")).unwrap_or_default()
        )),
    }
}

#[test]
fn a_partition_is_on_the_directory_it_stands_in() {
    let mut stack = Stack {
        mounts: Some("/dev/sda1 / ext4 rw 0 0\n/dev/odd1 /odd ext4 rw 0 0\n".into()),
        swaps: None,
        aliases: Vec::new(),
        nodes: vec![node("sda1", &[], Some("sda")), node("odd1", &[], Some(""))],
    };
    stack.nodes[1].parent = Some("/sys/devices/virtual/block".into());
    let held = holders_in(&stack);
    let disks: Vec<&str> = held.iter().map(|h| h.disk.as_str()).collect();
    assert_eq!(disks, vec!["odd1", "sda"]);
    stack.nodes[0].parent = Some("sda".into());
    assert_eq!(holders_in(&stack)[1].disk, "sda");
}

fn of<'a>(held: &'a [Held], disk: &str) -> &'a Held {
    held.iter().find(|h| h.disk == disk).unwrap()
}

#[test]
fn a_mounted_stack_resolves_down_to_the_physical_disk() {
    // sda holds a mounted partition; sdb is whole-disk LUKS under dm-0;
    // sdc holds swap; sdd is idle and must stay probeable.
    let stack = Stack {
        mounts: Some(
            "tmpfs /run tmpfs rw 0 0\n\
             /dev/sda1 / ext4 rw,relatime 0 0\n\
             /dev/mapper/backup /media/My\\040Backup ext4 rw 0 0\n\
             sysfs /sys sysfs rw 0 0\n"
                .into(),
        ),
        swaps: Some(
            "Filename\t\t\t\tType\t\tSize\t\tUsed\t\tPriority\n\
             /dev/sdc\tpartition\t8388604\t\t0\t\t-2\n"
                .into(),
        ),
        aliases: vec![Alias { node: "/dev/mapper/backup".into(), path: "/dev/dm-0".into() }],
        nodes: vec![
            node("sda", &[], None),
            node("sda1", &[], Some("sda")),
            node("sdb", &[], None),
            node("sdb1", &[], Some("sdb")),
            node("sdc", &[], None),
            node("sdd", &[], None),
            node("dm-0", &["sdb1"], None),
        ],
    };

    let held = holders_in(&stack);
    assert_eq!(
        held.iter().map(|h| h.disk.as_str()).collect::<Vec<_>>(),
        vec!["sda", "sdb", "sdc"],
        "sdd is idle and must not appear: {held:?}"
    );
    assert_eq!(of(&held, "sda").holds[0].describe(), "sda1 is mounted at /");
    // The whole point: nothing in "/dev/mapper/backup" says "sdb".
    assert_eq!(of(&held, "sdb").holds[0].via, "dm-0");
    assert_eq!(
        of(&held, "sdb").holds[0].kind,
        HoldKind::Mounted("/media/My Backup".into())
    );
    assert_eq!(of(&held, "sdc").holds[0].kind, HoldKind::Swap);
    assert_eq!(of(&held, "sdc").holds[0].describe(), "sdc is in use as swap");
}

#[test]
fn the_live_machine_reports_at_least_its_own_root_disk() {
    let stack = Stack {
        mounts: Some("proc /proc proc rw 0 0\n/dev/nvme0n1p2 / ext4 rw 0 0\n".into()),
        swaps: None,
        aliases: Vec::new(),
        nodes: vec![
            node("nvme0n1", &[], None),
            node("nvme0n1p2", &[], Some("nvme0n1")),
        ],
    };
    let held = holders_in(&stack);
    assert!(!held.is_empty(), "no mounted disk found on a running system");
    assert!(held
        .iter()
        .flat_map(|h| &h.holds)
        .any(|h| h.kind == HoldKind::Mounted("/".into())));
}

#[test]
fn attribution_is_by_path_containment() {
    let blocks = vec![BlockDevice {
        name: "sdc".into(),
        sysfs_path: "/sys/devices/pci0000:00/usb4/4-1/4-1:1.0/host1/block/sdc".into(),
        ..BlockDevice::default()
    }];
    assert_eq!(attached_to(&blocks, "/sys/devices/pci0000:00/usb4/4-1").len(), 1);
    // A sibling device must not claim it.
    assert!(attached_to(&blocks, "/sys/devices/pci0000:00/usb4/4-2").is_empty());
}

#[test]
fn a_short_stat_line_gives_no_counters() {
    assert!(stats_at("1 2 3 4 5 6 7 8", 1_000).is_none());
    let s = stats_at("1 2 3 4 5 6 7 8 9", 1_000).unwrap();
    assert_eq!((s.read_ios, s.sectors_read, s.ms_reading), (1, 3, 4));
    assert_eq!((s.write_ios, s.sectors_written, s.ms_writing), (5, 7, 8));
    assert_eq!(s.ios_in_flight, 9);
}

#[test]
fn a_sample_gives_a_drive_its_rate() {
    let at = |ms: u64, sectors: &str| {
        read_from(&vec![Attributes {
            stat: Some(format!("1 0 {sectors} 0 0 0 0 0 0")),
            sampled_at_unix_ms: ms,
            ..entry("sdb")
        }])
    };
    let second = sample(&at(1_000, "0"), at(3_000, "2000"));
    let t = second[0].throughput.unwrap();
    // 2000 sectors of 512 bytes in two seconds.
    assert_eq!(t.read_bps.micros, 512_000 * 1_000_000);
    assert_eq!(t.interval_ms, 2_000);
}

#[test]
fn mount_points_are_unescaped() {
    assert_eq!(unescape("/media/My\\040Backup"), "/media/My Backup");
    assert_eq!(unescape("/tab\\011here"), "/tab\there");
    assert_eq!(unescape("/plain"), "/plain");
}
