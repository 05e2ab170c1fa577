use installer::installer::probe::{split_devnum_linux, BlkidInfo, DiskInfo, DiskTransportInfo, UdevDevice};

fn dev(name: &str, props: &[(&str, &str)]) -> UdevDevice {
    UdevDevice {
        sysname: name.to_string(),
        syspath: format!("/sys/devices/x/{name}"),
        devnode: Some(format!("/dev/{name}")),
        devtype: Some("disk".to_string()),
        parent_sysname: None,
        devnum: Some(0x803),
        properties: props.iter().map(|(k, v)| (k.to_string(), v.to_string())).collect(),
    }
}

#[test]
fn device_numbers_split_into_major_and_minor() {
    assert_eq!(split_devnum_linux(0x803), (8, 3));
    assert_eq!(split_devnum_linux(0x1231_0345), (259, 0x12345));
    assert_eq!(split_devnum_linux(0), (0, 0));
    assert_eq!(split_devnum_linux(u64::MAX), (0xffff_ffff, 0xffff_ffff));
}

#[test]
fn transport_names_ignore_case() {
    assert_eq!(DiskTransportInfo::from_name("NVMe"), DiskTransportInfo::Nvme);
    assert_eq!(DiskTransportInfo::from_name("ATA"), DiskTransportInfo::Sata);
    assert_eq!(DiskTransportInfo::from_name("sata"), DiskTransportInfo::Sata);
    assert_eq!(DiskTransportInfo::from_name("Virtio"), DiskTransportInfo::Virtio);
    assert_eq!(DiskTransportInfo::from_name("usb"), DiskTransportInfo::Usb);
    assert_eq!(DiskTransportInfo::from_name("SCSI"), DiskTransportInfo::Scsi);
    assert_eq!(DiskTransportInfo::from_name("NFSv3"), DiskTransportInfo::Nfs);
    assert_eq!(DiskTransportInfo::from_name("iscsi"), DiskTransportInfo::Iscsi);
    assert_eq!(DiskTransportInfo::from_name("FC"), DiskTransportInfo::FibreChannel);
    assert_eq!(DiskTransportInfo::from_name("FibreChannel"), DiskTransportInfo::FibreChannel);
    assert_eq!(
        DiskTransportInfo::from_name("Thunderbolt"),
        DiskTransportInfo::Unknown("thunderbolt".to_string())
    );
    assert_eq!(DiskTransportInfo::from_lowercase("NVMe"), DiskTransportInfo::Unknown("NVMe".to_string()));
}

#[test]
fn transport_prefers_bus_then_name_then_path() {
    let d = dev("nvme0n1", &[]);
    assert_eq!(DiskTransportInfo::derive_transport(&d, Some("usb"), None), Some(DiskTransportInfo::Usb));
    assert_eq!(DiskTransportInfo::derive_transport(&d, None, Some("pci-usb")), Some(DiskTransportInfo::Nvme));
    let v = dev("vda", &[]);
    assert_eq!(DiskTransportInfo::derive_transport(&v, None, None), Some(DiskTransportInfo::Virtio));
    let s = dev("sda", &[]);
    assert_eq!(
        DiskTransportInfo::derive_transport(&s, None, Some("pci-0000:00:14.0-usb-0:1:1.0-scsi-0:0:0:0")),
        Some(DiskTransportInfo::Usb)
    );
    assert_eq!(DiskTransportInfo::derive_transport(&s, None, Some("pci-0000:00:17.0-ata-1")), Some(DiskTransportInfo::Sata));
    assert_eq!(DiskTransportInfo::derive_transport(&s, None, Some("pci-0000:00:1f.2-nvme-1")), Some(DiskTransportInfo::Nvme));
    assert_eq!(DiskTransportInfo::derive_transport(&s, None, Some("virtio-pci-0000:00:05.0")), Some(DiskTransportInfo::Virtio));
    assert_eq!(DiskTransportInfo::derive_transport(&s, None, Some("platform-xyz")), None);
    assert_eq!(DiskTransportInfo::derive_transport(&s, None, None), None);
}

#[test]
fn disk_info_takes_udev_and_blkid_values() {
    let d = dev(
        "sda",
        &[
            ("ID_BUS", "ata"),
            ("ID_PATH", "pci-0000:00:17.0-ata-1"),
            ("ID_MODEL", "Plain"),
            ("ID_MODEL_FROM_DATABASE", "Fancy"),
            ("ID_SERIAL", "LONG-123"),
            ("ID_BUS", "usb"),
        ],
    );
    let blkid = BlkidInfo {
        fs_type: Some("ext4".to_string()),
        fs_uuid: Some("u-1".to_string()),
        part_uuid: None,
        part_label: None,
        label: Some("root".to_string()),
    };
    let info = DiskInfo::from_udev(d, blkid);
    assert_eq!(info.sysname, "sda");
    assert_eq!(info.devnode.as_deref(), Some("/dev/sda"));
    assert_eq!(info.syspath, "/sys/devices/x/sda");
    assert_eq!(info.major, Some(8));
    assert_eq!(info.minor, Some(3));
    assert_eq!(info.bus.as_deref(), Some("ata"));
    assert_eq!(info.transport, Some(DiskTransportInfo::Sata));
    assert_eq!(info.model.as_deref(), Some("Fancy"));
    assert_eq!(info.serial.as_deref(), Some("LONG-123"));
    assert_eq!(info.fs_type.as_deref(), Some("ext4"));
    assert_eq!(info.label.as_deref(), Some("root"));
    assert!(info.is_whole_disk);
    assert!(!info.is_partition);
    assert!(info.children.is_empty());
}

#[test]
fn disk_info_without_properties() {
    let mut d = dev("vdb1", &[("ID_SERIAL_SHORT", "S1"), ("ID_SERIAL", "LONG")]);
    d.devtype = Some("partition".to_string());
    d.devnum = None;
    let info = DiskInfo::from_udev(d, BlkidInfo::default());
    assert_eq!(info.bus, None);
    assert_eq!(info.model, None);
    assert_eq!(info.serial.as_deref(), Some("S1"));
    assert_eq!(info.major, None);
    assert_eq!(info.transport, Some(DiskTransportInfo::Virtio));
    assert!(info.is_partition);
    assert!(!info.is_whole_disk);
}
