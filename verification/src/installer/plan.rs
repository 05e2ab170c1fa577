//! The resolved plan: how the disk is laid out, how the image is deployed, what is
//! seeded offline, what runs at first boot and what is checked before wiping.
use vstd::prelude::*;
use crate::installer::intent::InstallIntent;
use crate::installer::probe::ProbeReport;
use crate::installer::SCHEMA_VERSION;

verus! {
/// The whole plan, resolved from the probe report and the user's intent.
#[derive(Debug, Clone, PartialEq, Eq)]
pub struct ResolvedInstallPlan {
    pub schema_version: String,
    pub plan_id: String,
    pub probe: ProbeReport,
    pub intent: InstallIntent,
    pub storage: StoragePlan,
    pub deploy: BootcDeployPlan,
    pub offline_seed: OfflineSeedPlan,
    pub first_boot: FirstBootPlan,
    pub validation: ValidationPlan,
}

impl ResolvedInstallPlan {
    /// Every part but the schema version is as `Default` makes it.
    pub open spec fn is_blank(self) -> bool {
        &&& self.plan_id@.len() == 0
        &&& self.probe.is_default()
        &&& self.intent.is_default()
        &&& self.storage.is_default()
        &&& self.deploy.is_default()
        &&& self.offline_seed.is_default()
        &&& self.first_boot.is_default()
        &&& self.validation.is_default()
    }

    /// An empty plan that carries the current schema version.
    pub fn new() -> (r: Self)
        ensures
            r.schema_version@ == SCHEMA_VERSION@,
            r.is_blank(),
    {
        ResolvedInstallPlan {
            schema_version: SCHEMA_VERSION.to_owned(),
            plan_id: String::new(),
            probe: ProbeReport::default(),
            intent: InstallIntent::default(),
            storage: StoragePlan::default(),
            deploy: BootcDeployPlan::default(),
            offline_seed: OfflineSeedPlan::default(),
            first_boot: FirstBootPlan::default(),
            validation: ValidationPlan::default(),
        }
    }
}

impl Default for ResolvedInstallPlan {
    fn default() -> (r: Self)
        ensures
            r.schema_version@.len() == 0,
            r.is_blank(),
    {
        ResolvedInstallPlan {
            schema_version: String::new(),
            plan_id: String::new(),
            probe: ProbeReport::default(),
            intent: InstallIntent::default(),
            storage: StoragePlan::default(),
            deploy: BootcDeployPlan::default(),
            offline_seed: OfflineSeedPlan::default(),
            first_boot: FirstBootPlan::default(),
            validation: ValidationPlan::default(),
        }
    }
}
#[derive(Debug, Clone, PartialEq, Eq)]
pub struct StoragePlan {
    pub disk: String,
    pub partition_table: PartitionTableKind,
    pub root_discovery: RootDiscovery,
    pub bootloader: BootloaderPlan,
    pub partitions: Vec<PartitionPlan>,
    pub encryption: EncryptionPlan,
    pub mount_plan: Vec<MountPlan>,
    pub destructive_wipe: bool,
}

impl StoragePlan {
    pub open spec fn is_default(self) -> bool {
        &&& self.disk@.len() == 0
        &&& self.partition_table == PartitionTableKind::Gpt
        &&& self.root_discovery == RootDiscovery::Dps
        &&& self.bootloader.is_default()
        &&& self.partitions@.len() == 0
        &&& self.encryption == EncryptionPlan::Unencrypted
        &&& self.mount_plan@.len() == 0
        &&& !self.destructive_wipe
    }
}

impl Default for StoragePlan {
    fn default() -> (r: Self)
        ensures
            r.is_default(),
    {
        StoragePlan {
            disk: String::new(),
            partition_table: PartitionTableKind::default(),
            root_discovery: RootDiscovery::default(),
            bootloader: BootloaderPlan::default(),
            partitions: Vec::new(),
            encryption: EncryptionPlan::default(),
            mount_plan: Vec::new(),
            destructive_wipe: false,
        }
    }
}

#[derive(Debug, Clone, PartialEq, Eq)]
pub struct BootloaderPlan {
    pub kind: BootloaderKind,
    /// partition logical name
    pub efi_partition: String,
    pub xbootldr_partition: Option<String>,
    pub install_bootloader: bool,
}

impl BootloaderPlan {
    pub open spec fn is_default(self) -> bool {
        &&& self.kind == BootloaderKind::SystemdBoot
        &&& self.efi_partition@.len() == 0
        &&& self.xbootldr_partition is None
        &&& !self.install_bootloader
    }
}

impl Default for BootloaderPlan {
    fn default() -> (r: Self)
        ensures
            r.is_default(),
    {
        BootloaderPlan {
            kind: BootloaderKind::default(),
            efi_partition: String::new(),
            xbootldr_partition: None,
            install_bootloader: false,
        }
    }
}

#[derive(Debug, Clone, PartialEq, Eq)]
pub struct PartitionPlan {
    pub name: String,
    pub purpose: PartitionPurpose,
    /// vfat, ext4, xfs, btrfs
    pub fs_type: Option<FsType>,
    /// None => grow remainder
    pub size_mib: Option<u64>,
    pub grow: bool,
    /// if encrypted
    pub luks_device_name: Option<String>,
    /// DPS / ESP / XBOOTLDR GUIDs
    pub type_guid_hint: Option<String>,
}

impl PartitionPlan {
    pub open spec fn is_default(self) -> bool {
        &&& self.name@.len() == 0
        &&& self.purpose == PartitionPurpose::Root
        &&& self.fs_type is None
        &&& self.size_mib is None
        &&& !self.grow
        &&& self.luks_device_name is None
        &&& self.type_guid_hint is None
    }
}

impl Default for PartitionPlan {
    fn default() -> (r: Self)
        ensures
            r.is_default(),
    {
        PartitionPlan {
            name: String::new(),
            purpose: PartitionPurpose::default(),
            fs_type: None,
            size_mib: None,
            grow: false,
            luks_device_name: None,
            type_guid_hint: None,
        }
    }
}

#[derive(Debug, Clone, PartialEq, Eq)]
pub struct MountPlan {
    /// UUID=... or /dev/mapper/...
    pub source: String,
    /// /target, /target/boot, /target/boot/efi
    pub target: String,
    pub fs_type: String,
    pub mount_options: Vec<String>,
}

impl MountPlan {
    pub open spec fn is_default(self) -> bool {
        &&& self.source@.len() == 0
        &&& self.target@.len() == 0
        &&& self.fs_type@.len() == 0
        &&& self.mount_options@.len() == 0
    }
}

impl Default for MountPlan {
    fn default() -> (r: Self)
        ensures
            r.is_default(),
    {
        MountPlan {
            source: String::new(),
            target: String::new(),
            fs_type: String::new(),
            mount_options: Vec::new(),
        }
    }
}

#[derive(Debug, Clone, PartialEq, Eq)]
pub struct BootcDeployPlan {
    pub source_imgref: String,
    pub target_imgref: String,
    pub stateroot: String,
    /// Some("UUID=...") or Some("") for DPS
    pub root_mount_spec: Option<String>,
    /// e.g. UUID=...
    pub boot_mount_spec: Option<String>,
    pub kernel_args: Vec<String>,
    pub run_finalize: bool,
}

impl BootcDeployPlan {
    pub open spec fn is_default(self) -> bool {
        &&& self.source_imgref@.len() == 0
        &&& self.target_imgref@.len() == 0
        &&& self.stateroot@.len() == 0
        &&& self.root_mount_spec is None
        &&& self.boot_mount_spec is None
        &&& self.kernel_args@.len() == 0
        &&& !self.run_finalize
    }
}

impl Default for BootcDeployPlan {
    fn default() -> (r: Self)
        ensures
            r.is_default(),
    {
        BootcDeployPlan {
            source_imgref: String::new(),
            target_imgref: String::new(),
            stateroot: String::new(),
            root_mount_spec: None,
            boot_mount_spec: None,
            kernel_args: Vec::new(),
            run_finalize: false,
        }
    }
}

#[derive(Debug, Clone, PartialEq, Eq)]
pub struct OfflineSeedPlan {
    pub deployment_path_strategy: DeploymentPathStrategy,
    pub write_hostname: bool,
    pub write_locale: bool,
    pub write_keymap: bool,
    pub write_timezone: bool,
    pub seed_answer_file: bool,
    /// e.g. /etc/myos/install-answer.json
    pub answer_file_path: String,
}

impl OfflineSeedPlan {
    pub open spec fn is_default(self) -> bool {
        &&& self.deployment_path_strategy == DeploymentPathStrategy::ResolveViaOstreeAdmin
        &&& !self.write_hostname
        &&& !self.write_locale
        &&& !self.write_keymap
        &&& !self.write_timezone
        &&& !self.seed_answer_file
        &&& self.answer_file_path@.len() == 0
    }
}

impl Default for OfflineSeedPlan {
    fn default() -> (r: Self)
        ensures
            r.is_default(),
    {
        OfflineSeedPlan {
            deployment_path_strategy: DeploymentPathStrategy::default(),
            write_hostname: false,
            write_locale: false,
            write_keymap: false,
            write_timezone: false,
            seed_answer_file: false,
            answer_file_path: String::new(),
        }
    }
}

#[derive(Debug, Clone, PartialEq, Eq)]
pub struct FirstBootPlan {
    /// e.g. myos-firstboot.service
    pub service_name: String,
    pub create_human_user: bool,
    pub consume_answer_file: bool,
    pub delete_answer_file_after_success: bool,
}

impl FirstBootPlan {
    pub open spec fn is_default(self) -> bool {
        &&& self.service_name@.len() == 0
        &&& !self.create_human_user
        &&& !self.consume_answer_file
        &&& !self.delete_answer_file_after_success
    }
}

impl Default for FirstBootPlan {
    fn default() -> (r: Self)
        ensures
            r.is_default(),
    {
        FirstBootPlan {
            service_name: String::new(),
            create_human_user: false,
            consume_answer_file: false,
            delete_answer_file_after_success: false,
        }
    }
}

#[derive(Debug, Clone, Copy, PartialEq, Eq)]
pub struct ValidationPlan {
    pub require_uefi: bool,
    pub require_secure_boot: bool,
    pub require_tpm2: bool,
    pub permit_fallback_to_unencrypted: bool,
    pub confirm_disk_wipe: bool,
}

impl ValidationPlan {
    pub open spec fn is_default(self) -> bool {
        &&& !self.require_uefi
        &&& !self.require_secure_boot
        &&& !self.require_tpm2
        &&& !self.permit_fallback_to_unencrypted
        &&& !self.confirm_disk_wipe
    }
}

impl Default for ValidationPlan {
    fn default() -> (r: Self)
        ensures
            r.is_default(),
    {
        ValidationPlan {
            require_uefi: false,
            require_secure_boot: false,
            require_tpm2: false,
            permit_fallback_to_unencrypted: false,
            confirm_disk_wipe: false,
        }
    }
}

#[derive(Debug, Clone, PartialEq, Eq)]
pub enum EncryptionPlan {
    /// No disk encryption.
    Unencrypted,
    Luks2Tpm2 {
        /// usually root or var
        encrypted_partition: String,
        /// e.g. [7]
        pcrs: Vec<u8>,
        pin: bool,
        recovery_key: bool,
        separate_boot_required: bool,
    },
}

impl Default for EncryptionPlan {
    fn default() -> (r: Self)
        ensures
            r == EncryptionPlan::Unencrypted,
    {
        EncryptionPlan::Unencrypted
    }
}

#[derive(Debug, Clone, Copy, PartialEq, Eq)]
pub enum PartitionTableKind {
    Gpt,
}

impl Default for PartitionTableKind {
    fn default() -> (r: Self)
        ensures
            r == PartitionTableKind::Gpt,
    {
        PartitionTableKind::Gpt
    }
}

#[derive(Debug, Clone, Copy, PartialEq, Eq)]
pub enum RootDiscovery {
    /// bootc gets root=UUID=...
    Uuid,
    /// omit root= and rely on Discoverable Partitions + BLI
    Dps,
}

impl Default for RootDiscovery {
    fn default() -> (r: Self)
        ensures
            r == RootDiscovery::Dps,
    {
        RootDiscovery::Dps
    }
}

#[derive(Debug, Clone, Copy, PartialEq, Eq)]
pub enum BootloaderKind {
    SystemdBoot,
    Grub,
}

impl Default for BootloaderKind {
    fn default() -> (r: Self)
        ensures
            r == BootloaderKind::SystemdBoot,
    {
        BootloaderKind::SystemdBoot
    }
}

#[derive(Debug, Clone, Copy, PartialEq, Eq)]
pub enum FsType {
    Vfat,
    Ext4,
    Xfs,
    Btrfs,
}

impl Default for FsType {
    fn default() -> (r: Self)
        ensures
            r == FsType::Xfs,
    {
        FsType::Xfs
    }
}

#[derive(Debug, Clone, Copy, PartialEq, Eq)]
pub enum PartitionPurpose {
    Esp,
    XBootldr,
    Boot,
    Root,
    Var,
    Home,
    Data,
}

impl Default for PartitionPurpose {
    fn default() -> (r: Self)
        ensures
            r == PartitionPurpose::Root,
    {
        PartitionPurpose::Root
    }
}

#[derive(Debug, Clone, Copy, PartialEq, Eq)]
pub enum DeploymentPathStrategy {
    ResolveViaOstreeAdmin,
}

impl Default for DeploymentPathStrategy {
    fn default() -> (r: Self)
        ensures
            r == DeploymentPathStrategy::ResolveViaOstreeAdmin,
    {
        DeploymentPathStrategy::ResolveViaOstreeAdmin
    }
}

} // verus!
