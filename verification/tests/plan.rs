use installer::installer::intent::{InstallIntent, ProductProfile, UserIntent};
use installer::installer::plan::{
    BootloaderKind, DeploymentPathStrategy, EncryptionPlan, FsType, PartitionPlan, PartitionPurpose,
    PartitionTableKind, ResolvedInstallPlan, RootDiscovery,
};
use installer::installer::probe::{BootMode, DiskInfo, DiskTransportInfo};
use installer::installer::SCHEMA_VERSION;

#[test]
fn new_plan_carries_schema_version_and_defaults() {
    let plan = ResolvedInstallPlan::new();
    assert_eq!(plan.schema_version, SCHEMA_VERSION);
    assert_eq!(plan.schema_version, "1");
    assert_eq!(plan.plan_id, "");
    assert_eq!(plan.intent, InstallIntent::default());
    assert_eq!(plan.intent.product_profile, ProductProfile::ServerSecureUefi);
    assert_eq!(plan.probe.firmware.boot_mode, BootMode::Uefi);
    assert!(plan.probe.disks.devices.is_empty());
    assert!(!plan.probe.network.has_link);
    assert_eq!(plan.storage.partition_table, PartitionTableKind::Gpt);
    assert_eq!(plan.storage.root_discovery, RootDiscovery::Dps);
    assert_eq!(plan.storage.bootloader.kind, BootloaderKind::SystemdBoot);
    assert_eq!(plan.storage.encryption, EncryptionPlan::Unencrypted);
    assert!(!plan.storage.destructive_wipe);
    assert_eq!(plan.offline_seed.deployment_path_strategy, DeploymentPathStrategy::ResolveViaOstreeAdmin);
    assert_eq!(plan.deploy.root_mount_spec, None);
    assert!(!plan.validation.confirm_disk_wipe);
    let blank = ResolvedInstallPlan::default();
    assert_eq!(blank.schema_version, "");
    assert_eq!(ResolvedInstallPlan { schema_version: "1".to_string(), ..blank }, plan);
}

#[test]
fn defaults_of_parts() {
    let p = PartitionPlan::default();
    assert_eq!(p.purpose, PartitionPurpose::Root);
    assert_eq!(p.fs_type, None);
    assert_eq!(FsType::default(), FsType::Xfs);
    assert_eq!(UserIntent::default().username, "");
    assert!(!UserIntent::default().make_admin);
    assert_eq!(DiskTransportInfo::default(), DiskTransportInfo::Sata);
    let d = DiskInfo::default();
    assert_eq!(d.sysname, "");
    assert!(d.children.is_empty());
}
