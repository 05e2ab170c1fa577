use installer::installer::probe::{BlkidInfo, BootMode, NetworkInfo, SmbiosStructure, NM_DEVICE_STATE_ACTIVATED};

#[test]
fn partition_tags_fill_only_what_is_missing() {
    let mut b = BlkidInfo { part_uuid: Some("direct".to_string()), ..BlkidInfo::default() };
    assert!(b.needs_partition_tags());
    assert!(!b.take_partition_tags(Some("p1".to_string()), None));
    assert_eq!(b.part_uuid.as_deref(), Some("direct"));
    assert_eq!(b.part_label, None);
    assert!(b.take_partition_tags(Some("p2".to_string()), Some("esp".to_string())));
    assert_eq!(b.part_uuid.as_deref(), Some("direct"));
    assert_eq!(b.part_label.as_deref(), Some("esp"));
    assert!(!b.needs_partition_tags());
    // once both are known, further partitions change nothing
    assert!(b.take_partition_tags(Some("p3".to_string()), Some("other".to_string())));
    assert_eq!(b.part_label.as_deref(), Some("esp"));
}

#[test]
fn only_activated_devices_give_a_link() {
    let mut n = NetworkInfo::default();
    assert!(!n.has_link);
    n.record_device("lo".to_string(), 10);
    n.record_device("eth0".to_string(), 30);
    assert!(!n.has_link);
    assert!(n.active_ifaces.is_empty());
    n.record_device("wlan0".to_string(), NM_DEVICE_STATE_ACTIVATED);
    n.record_device("eth1".to_string(), 100);
    assert!(n.has_link);
    assert_eq!(n.active_ifaces, vec!["wlan0".to_string(), "eth1".to_string()]);
}

#[test]
fn boot_mode_from_bios_characteristics() {
    assert_eq!(BootMode::decided_by(&SmbiosStructure::Other), None);
    assert_eq!(
        BootMode::decided_by(&SmbiosStructure::Bios { characteristics_ext2: Some(0x08) }),
        Some(BootMode::Uefi)
    );
    assert_eq!(
        BootMode::decided_by(&SmbiosStructure::Bios { characteristics_ext2: Some(0x0c) }),
        Some(BootMode::Uefi)
    );
    assert_eq!(
        BootMode::decided_by(&SmbiosStructure::Bios { characteristics_ext2: Some(0x07) }),
        Some(BootMode::Bios)
    );
    assert_eq!(
        BootMode::decided_by(&SmbiosStructure::Bios { characteristics_ext2: None }),
        Some(BootMode::Bios)
    );
    assert_eq!(BootMode::default(), BootMode::Uefi);
}
