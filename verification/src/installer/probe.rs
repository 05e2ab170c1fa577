//! What the installer learns about the machine: firmware, security hardware, block
//! devices and network links.
use vstd::prelude::*;
use crate::installer::disk_tree::{
    attach_inv, built_from, childless, lemma_finish, is_last_index, kept_from, keeps_last, lemma_attach_init, lemma_attach_put_back,
    lemma_attach_step, pair_view, pairs_of, pairs_ok, pending_pair, parent_missing,
};
use crate::installer::forest::{
    distinct_roots, has_root,
    children_sorted, forest_all, forest_names, forest_under, has_child_named, last_record_of,
    lemma_forest_all_permutation, lemma_forest_names_permutation, lemma_forest_names_pointwise,
    lemma_forest_under_permutation, lemma_last_record_same, lemma_permutation_member,
    lemma_sorted_tree_unchanged, same_record, same_tree, sorted_by_name, sorted_tree, sorted_version, stable_perm, tree_all, tree_names, tree_under,
};
use crate::installer::names::{lemma_name_lt_le, name_le, name_lt, sysname_lt};
use crate::text::{has_prefix, has_substring, seq_contains, seq_has_prefix, str_equal};

verus! {

broadcast use vstd::seq_lib::group_to_multiset_ensures;

/// Everything the probes report about the machine.
#[derive(Debug, Clone, PartialEq, Eq)]
pub struct ProbeReport {
    pub firmware: FirmwareInfo,
    pub security: SecurityInfo,
    pub disks: DisksInfo,
    pub network: NetworkInfo,
}

#[derive(Debug, Clone, PartialEq, Eq)]
pub struct FirmwareInfo {
    /// Uefi or Bios.
    pub boot_mode: BootMode,
    pub secure_boot_enabled: bool,
    pub efi_system_partition_present: bool,
}

#[derive(Debug, Clone, PartialEq, Eq)]
pub struct SecurityInfo {
    pub tpm2_present: bool,
    /// e.g. /dev/tpmrm0
    pub tpm2_device: Option<String>,
    /// e.g. ["sha256"]
    pub tpm2_pcr_banks: Vec<String>,
}

/// The block devices, as a forest: partitions under their disks.
#[derive(Debug, Clone, PartialEq, Eq)]
pub struct DisksInfo {
    pub devices: Vec<DiskInfo>,
}

/// One block device. Paths are held as text.
#[derive(Debug, PartialEq, Eq)]
pub struct DiskInfo {
    /// e.g. "nvme0n1", "nvme0n1p1"
    pub sysname: String,
    /// e.g. /dev/nvme0n1
    pub devnode: Option<String>,
    /// e.g. /sys/devices/...
    pub syspath: String,
    /// "disk", "partition", ...
    pub devtype: Option<String>,
    pub parent_sysname: Option<String>,
    pub major: Option<u32>,
    pub minor: Option<u32>,
    /// ID_BUS
    pub bus: Option<String>,
    /// derived from the bus, the name or the ID_PATH
    pub transport: Option<DiskTransportInfo>,
    /// ID_PATH
    pub id_path: Option<String>,
    /// ID_MODEL_FROM_DATABASE / ID_MODEL
    pub model: Option<String>,
    /// ID_SERIAL_SHORT / ID_SERIAL
    pub serial: Option<String>,
    /// TYPE
    pub fs_type: Option<String>,
    /// UUID
    pub fs_uuid: Option<String>,
    /// PARTUUID when available
    pub part_uuid: Option<String>,
    /// PARTLABEL when available
    pub part_label: Option<String>,
    /// LABEL
    pub label: Option<String>,
    pub is_whole_disk: bool,
    pub is_partition: bool,
    pub children: Vec<DiskInfo>,
}

#[derive(Debug, Clone, PartialEq, Eq)]
pub enum DiskTransportInfo {
    Nvme,
    Sata,
    Virtio,
    Usb,
    Nfs,
    Scsi,
    Iscsi,
    FibreChannel,
    Unknown(String),
}

#[derive(Debug, Clone, PartialEq, Eq)]
pub struct NetworkInfo {
    pub has_link: bool,
    pub active_ifaces: Vec<String>,
}

#[derive(Debug, Clone, Copy, PartialEq, Eq)]
pub enum BootMode {
    Uefi,
    Bios,
}

impl Default for BootMode {
    fn default() -> (r: Self)
        ensures
            r == BootMode::Uefi,
    {
        BootMode::Uefi
    }
}

impl Default for DiskTransportInfo {
    fn default() -> (r: Self)
        ensures
            r == DiskTransportInfo::Sata,
    {
        DiskTransportInfo::Sata
    }
}

impl FirmwareInfo {
    pub open spec fn is_default(self) -> bool {
        self.boot_mode == BootMode::Uefi && !self.secure_boot_enabled
            && !self.efi_system_partition_present
    }
}

impl Default for FirmwareInfo {
    fn default() -> (r: Self)
        ensures
            r.is_default(),
    {
        FirmwareInfo {
            boot_mode: BootMode::default(),
            secure_boot_enabled: false,
            efi_system_partition_present: false,
        }
    }
}

impl SecurityInfo {
    pub open spec fn is_default(self) -> bool {
        !self.tpm2_present && self.tpm2_device is None && self.tpm2_pcr_banks@.len() == 0
    }
}

impl Default for SecurityInfo {
    fn default() -> (r: Self)
        ensures
            r.is_default(),
    {
        SecurityInfo { tpm2_present: false, tpm2_device: None, tpm2_pcr_banks: Vec::new() }
    }
}

impl DisksInfo {
    pub open spec fn is_default(self) -> bool {
        self.devices@.len() == 0
    }
}

impl Default for DisksInfo {
    fn default() -> (r: Self)
        ensures
            r.is_default(),
    {
        DisksInfo { devices: Vec::new() }
    }
}

impl NetworkInfo {
    pub open spec fn is_default(self) -> bool {
        !self.has_link && self.active_ifaces@.len() == 0
    }
}

impl Default for NetworkInfo {
    fn default() -> (r: Self)
        ensures
            r.is_default(),
    {
        NetworkInfo { has_link: false, active_ifaces: Vec::new() }
    }
}

impl ProbeReport {
    pub open spec fn is_default(self) -> bool {
        self.firmware.is_default() && self.security.is_default() && self.disks.is_default()
            && self.network.is_default()
    }
}

impl Default for ProbeReport {
    fn default() -> (r: Self)
        ensures
            r.is_default(),
    {
        ProbeReport {
            firmware: FirmwareInfo::default(),
            security: SecurityInfo::default(),
            disks: DisksInfo::default(),
            network: NetworkInfo::default(),
        }
    }
}

impl DiskInfo {
    pub open spec fn is_default(self) -> bool {
        &&& self.sysname@.len() == 0
        &&& self.devnode is None
        &&& self.syspath@.len() == 0
        &&& self.devtype is None
        &&& self.parent_sysname is None
        &&& self.major is None
        &&& self.minor is None
        &&& self.bus is None
        &&& self.transport is None
        &&& self.id_path is None
        &&& self.model is None
        &&& self.serial is None
        &&& self.fs_type is None
        &&& self.fs_uuid is None
        &&& self.part_uuid is None
        &&& self.part_label is None
        &&& self.label is None
        &&& !self.is_whole_disk
        &&& !self.is_partition
        &&& self.children@.len() == 0
    }
}

fn copy_text(o: &Option<String>) -> (r: Option<String>)
    ensures
        r == *o,
{
    match o {
        Some(s) => Some(s.clone()),
        None => None,
    }
}

fn copy_transport(o: &Option<DiskTransportInfo>) -> (r: Option<DiskTransportInfo>)
    ensures
        r == *o,
{
    match o {
        Some(DiskTransportInfo::Unknown(s)) => Some(DiskTransportInfo::Unknown(s.clone())),
        Some(DiskTransportInfo::Nvme) => Some(DiskTransportInfo::Nvme),
        Some(DiskTransportInfo::Sata) => Some(DiskTransportInfo::Sata),
        Some(DiskTransportInfo::Virtio) => Some(DiskTransportInfo::Virtio),
        Some(DiskTransportInfo::Usb) => Some(DiskTransportInfo::Usb),
        Some(DiskTransportInfo::Nfs) => Some(DiskTransportInfo::Nfs),
        Some(DiskTransportInfo::Scsi) => Some(DiskTransportInfo::Scsi),
        Some(DiskTransportInfo::Iscsi) => Some(DiskTransportInfo::Iscsi),
        Some(DiskTransportInfo::FibreChannel) => Some(DiskTransportInfo::FibreChannel),
        None => None,
    }
}

impl DiskInfo {
    /// A copy of the device and of everything below it.
    pub fn clone_tree(&self) -> (r: DiskInfo)
        ensures
            same_tree(r, *self),
        decreases self,
    {
        let mut children: Vec<DiskInfo> = Vec::new();
        let mut i: usize = 0;
        while i < self.children.len()
            invariant
                i <= self.children@.len(),
                children@.len() == i,
                forall|j: int| 0 <= j < i ==> same_tree(#[trigger] children@[j], self.children@[j]),
            decreases self.children@.len() - i,
        {
            proof {
                assert(decreases_to!(self => self.children));
                assert(decreases_to!(self.children => self.children@));
                assert(decreases_to!(self.children@ => self.children@[i as int]));
            }
            let c = self.children[i].clone_tree();
            children.push(c);
            i = i + 1;
        }
        DiskInfo {
            sysname: self.sysname.clone(),
            devnode: copy_text(&self.devnode),
            syspath: self.syspath.clone(),
            devtype: copy_text(&self.devtype),
            parent_sysname: copy_text(&self.parent_sysname),
            major: self.major,
            minor: self.minor,
            bus: copy_text(&self.bus),
            transport: copy_transport(&self.transport),
            id_path: copy_text(&self.id_path),
            model: copy_text(&self.model),
            serial: copy_text(&self.serial),
            fs_type: copy_text(&self.fs_type),
            fs_uuid: copy_text(&self.fs_uuid),
            part_uuid: copy_text(&self.part_uuid),
            part_label: copy_text(&self.part_label),
            label: copy_text(&self.label),
            is_whole_disk: self.is_whole_disk,
            is_partition: self.is_partition,
            children,
        }
    }
}

impl Clone for DiskInfo {
    fn clone(&self) -> (r: Self)
        ensures
            same_tree(r, *self),
    {
        self.clone_tree()
    }
}

impl Default for DiskInfo {
    fn default() -> (r: Self)
        ensures
            r.is_default(),
    {
        DiskInfo {
            sysname: String::new(),
            devnode: None,
            syspath: String::new(),
            devtype: None,
            parent_sysname: None,
            major: None,
            minor: None,
            bus: None,
            transport: None,
            id_path: None,
            model: None,
            serial: None,
            fs_type: None,
            fs_uuid: None,
            part_uuid: None,
            part_label: None,
            label: None,
            is_whole_disk: false,
            is_partition: false,
            children: Vec::new(),
        }
    }
}


/// A udev block device as the probe reads it: its names, paths, device number and
/// properties (key, value), as text.
pub struct UdevDevice {
    pub sysname: String,
    pub syspath: String,
    pub devnode: Option<String>,
    pub devtype: Option<String>,
    /// The sysname of the parent device, if the device has one.
    pub parent_sysname: Option<String>,
    pub devnum: Option<u64>,
    pub properties: Vec<(String, String)>,
}

/// What blkid found on a device node.
#[derive(Debug, Clone, PartialEq, Eq)]
pub struct BlkidInfo {
    pub fs_type: Option<String>,
    pub fs_uuid: Option<String>,
    pub part_uuid: Option<String>,
    pub part_label: Option<String>,
    pub label: Option<String>,
}

impl BlkidInfo {
    pub open spec fn is_default(self) -> bool {
        self.fs_type is None && self.fs_uuid is None && self.part_uuid is None
            && self.part_label is None && self.label is None
    }

    /// Whether the partition table still has to be asked for a PARTUUID or PARTLABEL.
    pub fn needs_partition_tags(&self) -> (r: bool)
        ensures
            r == (self.part_uuid is None || self.part_label is None),
    {
        self.part_uuid.is_none() || self.part_label.is_none()
    }

    /// Takes the tags of the next probed partition: each of PARTUUID and PARTLABEL that
    /// is still missing is taken from it. Returns whether both are now known, after
    /// which no further partition needs to be looked at.
    pub fn take_partition_tags(&mut self, uuid: Option<String>, name: Option<String>) -> (done: bool)
        ensures
            final(self).fs_type == old(self).fs_type,
            final(self).fs_uuid == old(self).fs_uuid,
            final(self).label == old(self).label,
            final(self).part_uuid == if old(self).part_uuid is None { uuid } else { old(self).part_uuid },
            final(self).part_label == if old(self).part_label is None { name } else { old(self).part_label },
            done == (final(self).part_uuid is Some && final(self).part_label is Some),
    {
        if self.part_uuid.is_none() {
            self.part_uuid = uuid;
        }
        if self.part_label.is_none() {
            self.part_label = name;
        }
        self.part_uuid.is_some() && self.part_label.is_some()
    }
}

impl Default for BlkidInfo {
    fn default() -> (r: Self)
        ensures
            r.is_default(),
    {
        BlkidInfo { fs_type: None, fs_uuid: None, part_uuid: None, part_label: None, label: None }
    }
}

/// Name for what `str::to_lowercase` returns: the Unicode lowercase mapping of the
/// characters.
pub uninterp spec fn unicode_lowercase(s: Seq<char>) -> Seq<char>;

/// Calls `str::to_lowercase`; claims only that the result is the Unicode lowercase
/// mapping of the input's characters, given the name `unicode_lowercase`.
#[verifier::external_body]
fn to_lowercase(s: &str) -> (r: String)
    ensures
        r@ == unicode_lowercase(s@),
{
    s.to_lowercase()
}

/// The transport a lowercase bus or transport name stands for.
pub open spec fn transport_named(lower: Seq<char>, t: DiskTransportInfo) -> bool {
    if lower == "nvme"@ {
        t == DiskTransportInfo::Nvme
    } else if lower == "ata"@ || lower == "sata"@ {
        t == DiskTransportInfo::Sata
    } else if lower == "virtio"@ {
        t == DiskTransportInfo::Virtio
    } else if lower == "usb"@ {
        t == DiskTransportInfo::Usb
    } else if lower == "scsi"@ {
        t == DiskTransportInfo::Scsi
    } else if lower == "nfs"@ || lower == "nfsv1"@ || lower == "nfsv2"@ || lower == "nfsv3"@ {
        t == DiskTransportInfo::Nfs
    } else if lower == "iscsi"@ {
        t == DiskTransportInfo::Iscsi
    } else if lower == "fibrechannel"@ || lower == "fc"@ {
        t == DiskTransportInfo::FibreChannel
    } else {
        t matches DiskTransportInfo::Unknown(u) && u@ == lower
    }
}

pub open spec fn opt_str_view(o: Option<&str>) -> Option<Seq<char>> {
    match o {
        Some(s) => Some(s@),
        None => None,
    }
}

pub open spec fn opt_string_view(o: Option<String>) -> Option<Seq<char>> {
    match o {
        Some(s) => Some(s@),
        None => None,
    }
}

/// The transport derived for a device: from its bus when it has one, else from its
/// name, else from its ID_PATH.
pub open spec fn transport_derived(
    sysname: Seq<char>,
    bus: Option<Seq<char>>,
    id_path: Option<Seq<char>>,
    r: Option<DiskTransportInfo>,
) -> bool {
    match bus {
        Some(b) => r matches Some(t) && transport_named(unicode_lowercase(b), t),
        None => if seq_has_prefix(sysname, "nvme"@) {
            r == Some(DiskTransportInfo::Nvme)
        } else if seq_has_prefix(sysname, "vd"@) {
            r == Some(DiskTransportInfo::Virtio)
        } else {
            match id_path {
                Some(p) => if seq_contains(p, "usb"@) {
                    r == Some(DiskTransportInfo::Usb)
                } else if seq_contains(p, "nvme"@) {
                    r == Some(DiskTransportInfo::Nvme)
                } else if seq_contains(p, "virtio"@) {
                    r == Some(DiskTransportInfo::Virtio)
                } else if seq_contains(p, "ata"@) || seq_contains(p, "sata"@) {
                    r == Some(DiskTransportInfo::Sata)
                } else {
                    r is None
                },
                None => r is None,
            }
        },
    }
}

impl DiskTransportInfo {
    /// The transport that an already lowercase name stands for; an unknown name is kept.
    pub fn from_lowercase(lower: &str) -> (t: Self)
        ensures
            transport_named(lower@, t),
    {
        if str_equal(lower, "nvme") {
            DiskTransportInfo::Nvme
        } else if str_equal(lower, "ata") || str_equal(lower, "sata") {
            DiskTransportInfo::Sata
        } else if str_equal(lower, "virtio") {
            DiskTransportInfo::Virtio
        } else if str_equal(lower, "usb") {
            DiskTransportInfo::Usb
        } else if str_equal(lower, "scsi") {
            DiskTransportInfo::Scsi
        } else if str_equal(lower, "nfs") || str_equal(lower, "nfsv1") || str_equal(lower, "nfsv2")
            || str_equal(lower, "nfsv3") {
            DiskTransportInfo::Nfs
        } else if str_equal(lower, "iscsi") {
            DiskTransportInfo::Iscsi
        } else if str_equal(lower, "fibrechannel") || str_equal(lower, "fc") {
            DiskTransportInfo::FibreChannel
        } else {
            DiskTransportInfo::Unknown(lower.to_owned())
        }
    }

    /// The transport a bus or transport name stands for, in any letter case.
    pub fn from_name(value: &str) -> (t: Self)
        ensures
            transport_named(unicode_lowercase(value@), t),
    {
        let lower = to_lowercase(value);
        Self::from_lowercase(lower.as_str())
    }

    /// The transport of a device: named by its bus when it has one, else guessed from
    /// its name ("nvme…", "vd…"), else from its ID_PATH.
    pub fn derive_transport(dev: &UdevDevice, bus: Option<&str>, id_path: Option<&str>) -> (r: Option<Self>)
        ensures
            transport_derived(dev.sysname@, opt_str_view(bus), opt_str_view(id_path), r),
    {
        if let Some(b) = bus {
            return Some(Self::from_name(b));
        }
        let sysname = dev.sysname.as_str();
        if has_prefix(sysname, "nvme") {
            return Some(DiskTransportInfo::Nvme);
        }
        if has_prefix(sysname, "vd") {
            return Some(DiskTransportInfo::Virtio);
        }
        if let Some(path) = id_path {
            if has_substring(path, "usb") {
                return Some(DiskTransportInfo::Usb);
            }
            if has_substring(path, "nvme") {
                return Some(DiskTransportInfo::Nvme);
            }
            if has_substring(path, "virtio") {
                return Some(DiskTransportInfo::Virtio);
            }
            if has_substring(path, "ata") || has_substring(path, "sata") {
                return Some(DiskTransportInfo::Sata);
            }
        }
        None
    }
}

/// The value of the first property called `key`.
pub open spec fn prop_value(props: Seq<(String, String)>, key: Seq<char>) -> Option<String>
    decreases props.len(),
{
    if props.len() == 0 {
        None
    } else if props[0].0@ == key {
        Some(props[0].1)
    } else {
        prop_value(props.drop_first(), key)
    }
}

/// The value of the device's property `key`.
fn prop(dev: &UdevDevice, key: &str) -> (r: Option<String>)
    ensures
        r == prop_value(dev.properties@, key@),
{
    let ghost ps = dev.properties@;
    let mut i: usize = 0;
    proof {
        assert(ps.skip(0) =~= ps);
    }
    while i < dev.properties.len()
        invariant
            ps == dev.properties@,
            i <= ps.len(),
            prop_value(ps, key@) == prop_value(ps.skip(i as int), key@),
        decreases ps.len() - i,
    {
        if str_equal(dev.properties[i].0.as_str(), key) {
            return Some(dev.properties[i].1.clone());
        }
        proof {
            assert(ps.skip(i as int).drop_first() =~= ps.skip(i + 1));
        }
        i = i + 1;
    }
    None
}

/// The major number in a Linux device number.
pub open spec fn devnum_major(devnum: u64) -> u32 {
    (((devnum >> 8u64) & 0xfffu64) | ((devnum >> 32u64) & 0xfffff000u64)) as u32
}

/// The minor number in a Linux device number.
pub open spec fn devnum_minor(devnum: u64) -> u32 {
    ((devnum & 0xffu64) | ((devnum >> 12u64) & 0xffffff00u64)) as u32
}

/// Splits a Linux device number into (major, minor).
pub fn split_devnum_linux(devnum: u64) -> (r: (u32, u32))
    ensures
        r.0 == devnum_major(devnum),
        r.1 == devnum_minor(devnum),
        r.0 == ((devnum >> 8u64) & 0xfffu64) | ((devnum >> 32u64) & 0xfffff000u64),
        r.1 == (devnum & 0xffu64) | ((devnum >> 12u64) & 0xffffff00u64),
{
    let major: u64 = ((devnum >> 8) & 0xfff) | ((devnum >> 32) & 0xfffff000);
    let minor: u64 = (devnum & 0xff) | ((devnum >> 12) & 0xffffff00);
    assert(major <= 0xffffffffu64) by (bit_vector)
        requires
            major == ((devnum >> 8u64) & 0xfffu64) | ((devnum >> 32u64) & 0xfffff000u64),
    ;
    assert(minor <= 0xffffffffu64) by (bit_vector)
        requires
            minor == (devnum & 0xffu64) | ((devnum >> 12u64) & 0xffffff00u64),
    ;
    (major as u32, minor as u32)
}

pub open spec fn or_else_value(first: Option<String>, second: Option<String>) -> Option<String> {
    match first {
        Some(v) => Some(v),
        None => second,
    }
}

/// `d` is the `DiskInfo` made from the udev device `dev` and what blkid found on it.
pub open spec fn udev_disk(dev: UdevDevice, blkid: BlkidInfo, d: DiskInfo) -> bool {
    let props = dev.properties@;
    &&& d.sysname == dev.sysname
    &&& d.syspath == dev.syspath
    &&& d.devnode == dev.devnode
    &&& d.devtype == dev.devtype
    &&& d.parent_sysname == dev.parent_sysname
    &&& d.major == (match dev.devnum { Some(n) => Some(devnum_major(n)), None => None })
    &&& d.minor == (match dev.devnum { Some(n) => Some(devnum_minor(n)), None => None })
    &&& d.bus == prop_value(props, "ID_BUS"@)
    &&& d.id_path == prop_value(props, "ID_PATH"@)
    &&& d.model == or_else_value(prop_value(props, "ID_MODEL_FROM_DATABASE"@), prop_value(props, "ID_MODEL"@))
    &&& d.serial == or_else_value(prop_value(props, "ID_SERIAL_SHORT"@), prop_value(props, "ID_SERIAL"@))
    &&& transport_derived(dev.sysname@, opt_string_view(d.bus), opt_string_view(d.id_path), d.transport)
    &&& d.is_partition == (dev.devtype matches Some(t) && t@ == "partition"@)
    &&& d.is_whole_disk == (dev.devtype matches Some(t) && t@ == "disk"@)
    &&& d.fs_type == blkid.fs_type
    &&& d.fs_uuid == blkid.fs_uuid
    &&& d.part_uuid == blkid.part_uuid
    &&& d.part_label == blkid.part_label
    &&& d.label == blkid.label
    &&& d.children@.len() == 0
}

fn as_opt_str(o: &Option<String>) -> (r: Option<&str>)
    ensures
        opt_str_view(r) == opt_string_view(*o),
{
    match o {
        Some(s) => Some(s.as_str()),
        None => None,
    }
}

fn devtype_is(devtype: &Option<String>, name: &str) -> (r: bool)
    ensures
        r == (*devtype matches Some(t) && t@ == name@),
{
    match devtype {
        Some(t) => str_equal(t.as_str(), name),
        None => false,
    }
}

impl DiskInfo {
    /// The device as the installer describes it: udev's names and properties, the
    /// derived transport, and what blkid found; no children yet.
    pub fn from_udev(dev: UdevDevice, blkid: BlkidInfo) -> (d: Self)
        ensures
            udev_disk(dev, blkid, d),
    {
        let ghost dev0 = dev;
        let major_minor = match dev.devnum {
            Some(n) => Some(split_devnum_linux(n)),
            None => None,
        };
        let bus = prop(&dev, "ID_BUS");
        let id_path = prop(&dev, "ID_PATH");
        let model = match prop(&dev, "ID_MODEL_FROM_DATABASE") {
            Some(v) => Some(v),
            None => prop(&dev, "ID_MODEL"),
        };
        let serial = match prop(&dev, "ID_SERIAL_SHORT") {
            Some(v) => Some(v),
            None => prop(&dev, "ID_SERIAL"),
        };
        let transport = DiskTransportInfo::derive_transport(&dev, as_opt_str(&bus), as_opt_str(&id_path));
        let is_partition = devtype_is(&dev.devtype, "partition");
        let is_whole_disk = devtype_is(&dev.devtype, "disk");
        let UdevDevice { sysname, syspath, devnode, devtype, parent_sysname, devnum: _, properties: _ } = dev;
        DiskInfo {
            sysname,
            devnode,
            syspath,
            devtype,
            parent_sysname,
            major: match major_minor {
                Some(mm) => Some(mm.0),
                None => None,
            },
            minor: match major_minor {
                Some(mm) => Some(mm.1),
                None => None,
            },
            bus,
            transport,
            id_path,
            model,
            serial,
            fs_type: blkid.fs_type,
            fs_uuid: blkid.fs_uuid,
            part_uuid: blkid.part_uuid,
            part_label: blkid.part_label,
            label: blkid.label,
            is_whole_disk,
            is_partition,
            children: Vec::new(),
        }
    }
}

/// `flat` holds one `DiskInfo`, made by `DiskInfo::from_udev`, for each device of
/// `devs` that has a device node, in order.
pub open spec fn udev_flat(devs: Seq<(UdevDevice, BlkidInfo)>, flat: Seq<DiskInfo>) -> bool
    decreases devs.len(),
{
    if devs.len() == 0 {
        flat.len() == 0
    } else {
        let last = devs[devs.len() - 1];
        let rest = devs.subrange(0, devs.len() - 1);
        if last.0.devnode is Some {
            &&& flat.len() > 0
            &&& udev_disk(last.0, last.1, flat[flat.len() - 1])
            &&& udev_flat(rest, flat.subrange(0, flat.len() - 1))
        } else {
            udev_flat(rest, flat)
        }
    }
}

pub proof fn lemma_udev_flat_childless(devs: Seq<(UdevDevice, BlkidInfo)>, flat: Seq<DiskInfo>)
    requires
        udev_flat(devs, flat),
    ensures
        childless(flat),
    decreases devs.len(),
{
    if devs.len() > 0 {
        let rest = devs.subrange(0, devs.len() - 1);
        if devs[devs.len() - 1].0.devnode is Some {
            let f = flat.subrange(0, flat.len() - 1);
            lemma_udev_flat_childless(rest, f);
            assert forall|k: int| 0 <= k < flat.len() implies (#[trigger] flat[k]).children@.len() == 0 by {
                if k < flat.len() - 1 {
                    assert(flat[k] == f[k]);
                }
            }
        } else {
            lemma_udev_flat_childless(rest, flat);
        }
    }
}

impl DisksInfo {
    /// The block devices as a forest: every device with a device node becomes a
    /// `DiskInfo`, and those are arranged by `build_tree`.
    pub fn from_devices(devices: Vec<(UdevDevice, BlkidInfo)>) -> (r: Self)
        ensures
            exists|flat: Seq<DiskInfo>|
                udev_flat(devices@, flat) && childless(flat) && #[trigger] built_from(flat, r.devices@),
    {
        let ghost devs = devices@;
        let mut rest = devices;
        let mut flat: Vec<DiskInfo> = Vec::new();
        let ghost mut i: int = 0;
        proof {
            assert(rest@ =~= devs.skip(0));
            assert(devs.subrange(0, 0) =~= Seq::<(UdevDevice, BlkidInfo)>::empty());
        }
        while rest.len() > 0
            invariant
                0 <= i <= devs.len(),
                rest@ == devs.skip(i),
                udev_flat(devs.subrange(0, i), flat@),
            decreases rest@.len(),
        {
            let (dev, blkid) = rest.remove(0);
            let ghost f0 = flat@;
            proof {
                assert((dev, blkid) == devs[i]);
                assert(rest@ =~= devs.skip(i + 1));
                assert(devs.subrange(0, i + 1).subrange(0, i) =~= devs.subrange(0, i));
                assert(devs.subrange(0, i + 1)[i] == devs[i]);
            }
            if dev.devnode.is_some() {
                let d = DiskInfo::from_udev(dev, blkid);
                flat.push(d);
                proof {
                    assert(flat@.subrange(0, flat@.len() - 1) =~= f0);
                }
            }
            proof {
                i = i + 1;
            }
        }
        proof {
            assert(devs.subrange(0, i) =~= devs);
            lemma_udev_flat_childless(devs, flat@);
        }
        let ghost fl = flat@;
        let devices = build_tree(flat);
        let r = DisksInfo { devices };
        proof {
            assert(udev_flat(devs, fl) && childless(fl) && built_from(fl, r.devices@));
        }
        r
    }
}

/// NetworkManager's state of a device that is activated.
pub const NM_DEVICE_STATE_ACTIVATED: u32 = 100;

impl NetworkInfo {
    /// The link flag agrees with the list of active interfaces.
    pub open spec fn link_consistent(self) -> bool {
        self.has_link == (self.active_ifaces@.len() > 0)
    }

    /// Takes one network device as NetworkManager reports it: an activated device's
    /// interface is active and gives a link.
    pub fn record_device(&mut self, iface: String, state: u32)
        ensures
            state == NM_DEVICE_STATE_ACTIVATED ==> final(self).active_ifaces@ == old(self).active_ifaces@.push(iface)
                && final(self).has_link,
            state != NM_DEVICE_STATE_ACTIVATED ==> *final(self) == *old(self),
            old(self).link_consistent() ==> final(self).link_consistent(),
    {
        if state == NM_DEVICE_STATE_ACTIVATED {
            self.active_ifaces.push(iface);
            self.has_link = true;
        }
    }
}

/// A fresh network report says "no link" and lists no interface, so the link flag
/// agrees with the list; `record_device` keeps it that way.
pub proof fn lemma_fresh_network_consistent(n: NetworkInfo)
    requires
        n.is_default(),
    ensures
        n.link_consistent(),
{
}

/// What an SMBIOS structure tells about the boot mode: a BIOS information structure
/// with its second characteristics-extension byte (when the table has one), or any
/// other structure.
#[derive(Debug, Clone, Copy, PartialEq, Eq)]
pub enum SmbiosStructure {
    Bios { characteristics_ext2: Option<u8> },
    Other,
}

impl BootMode {
    /// The boot mode a BIOS information structure shows: UEFI when the "UEFI is
    /// supported" bit (bit 3) of the second characteristics extension is set.
    pub open spec fn from_characteristics(ext2: Option<u8>) -> BootMode {
        match ext2 {
            Some(v) => if v & 0x08u8 != 0 { BootMode::Uefi } else { BootMode::Bios },
            None => BootMode::Bios,
        }
    }

    /// The boot mode that an SMBIOS structure settles, if it settles one: the first BIOS
    /// information structure does; other structures are passed over.
    pub fn decided_by(s: &SmbiosStructure) -> (r: Option<BootMode>)
        ensures
            match *s {
                SmbiosStructure::Bios { characteristics_ext2 } => r == Some(BootMode::from_characteristics(characteristics_ext2)),
                SmbiosStructure::Other => r is None,
            },
    {
        match s {
            SmbiosStructure::Bios { characteristics_ext2 } => match characteristics_ext2 {
                Some(v) => {
                    if *v & 0x08 != 0 {
                        Some(BootMode::Uefi)
                    } else {
                        Some(BootMode::Bios)
                    }
                },
                None => Some(BootMode::Bios),
            },
            SmbiosStructure::Other => None,
        }
    }
}

/// Stable sort of a list of devices by name, in `String::cmp` order.
fn sort_by_sysname(v: &mut Vec<DiskInfo>) -> (p: Ghost<Seq<int>>)
    ensures
        sorted_by_name(final(v)@),
        final(v)@.to_multiset() == old(v)@.to_multiset(),
        stable_perm(old(v)@, final(v)@, p@),
        forall|k: int| 0 <= k < p@.len() ==> #[trigger] final(v)@[k] == old(v)@[p@[k]],
{
    let mut rest: Vec<DiskInfo> = Vec::new();
    std::mem::swap(v, &mut rest);
    let ghost orig = rest@;
    let ghost mut i: int = 0;
    let ghost mut p: Seq<int> = Seq::empty();
    proof {
        assert(v@ =~= Seq::<DiskInfo>::empty());
        assert(v@.to_multiset() =~= vstd::multiset::Multiset::empty());
        assert(rest@ =~= orig.skip(0));
    }
    while rest.len() > 0
        invariant
            0 <= i <= orig.len(),
            rest@ == orig.skip(i),
            sorted_by_name(v@),
            v@.to_multiset().add(rest@.to_multiset()) == orig.to_multiset(),
            p.len() == v@.len(),
            v@.len() == i,
            forall|k: int| 0 <= k < p.len() ==> 0 <= #[trigger] p[k] < i,
            forall|k: int| 0 <= k < p.len() ==> #[trigger] v@[k] == orig[p[k]],
            forall|k1: int, k2: int| 0 <= k1 < k2 < p.len() ==> #[trigger] p[k1] != #[trigger] p[k2],
            forall|k1: int, k2: int|
                0 <= k1 < k2 < p.len() && (#[trigger] v@[k1]).sysname@ == (#[trigger] v@[k2]).sysname@ ==> p[k1] < p[k2],
        decreases rest.len(),
    {
        let ghost r0 = rest@;
        let x = rest.remove(0);
        proof {
            vstd::seq_lib::to_multiset_remove(r0, 0);
            assert(x == orig[i]);
            assert(rest@ =~= orig.skip(i + 1));
        }
        let mut pos: usize = 0;
        while pos < v.len() && !sysname_lt(&x.sysname, &v[pos].sysname)
            invariant
                pos <= v@.len(),
                forall|m: int| 0 <= m < pos ==> name_le((#[trigger] v@[m]).sysname@, x.sysname@),
            decreases v@.len() - pos,
        {
            pos = pos + 1;
        }
        let ghost v0 = v@;
        let ghost p0 = p;
        proof {
            vstd::seq_lib::to_multiset_insert(v0, pos as int, x);
            let w = v0.insert(pos as int, x);
            assert forall|a: int, b: int| 0 <= a < b < w.len() implies name_le(
                #[trigger] w[a].sysname@,
                #[trigger] w[b].sysname@,
            ) by {
                if b < pos {
                    assert(w[a] == v0[a] && w[b] == v0[b]);
                } else if b == pos {
                    assert(w[a] == v0[a]);
                } else if a < pos {
                    assert(w[a] == v0[a] && w[b] == v0[b - 1]);
                } else if a == pos {
                    assert(w[b] == v0[b - 1]);
                    assert(name_lt(x.sysname@, v0[pos as int].sysname@));
                    if b - 1 > pos {
                        assert(name_le(v0[pos as int].sysname@, v0[b - 1].sysname@));
                    }
                    lemma_name_lt_le(x.sysname@, v0[pos as int].sysname@, v0[b - 1].sysname@);
                } else {
                    assert(w[a] == v0[a - 1] && w[b] == v0[b - 1]);
                }
            }
            p = p0.insert(pos as int, i);
            // entries after the new one are strictly after it by name
            assert forall|b: int| pos < b < w.len() implies w[b].sysname@ != x.sysname@ by {
                assert(w[b] == v0[b - 1]);
                assert(name_lt(x.sysname@, v0[pos as int].sysname@));
                if b - 1 > pos {
                    assert(name_le(v0[pos as int].sysname@, v0[b - 1].sysname@));
                }
                lemma_name_lt_le(x.sysname@, v0[pos as int].sysname@, v0[b - 1].sysname@);
                crate::installer::names::lemma_bytes_lt_irreflexive(vstd::utf8::encode_utf8(x.sysname@));
            }
            assert forall|k1: int, k2: int|
                0 <= k1 < k2 < p.len() && (#[trigger] w[k1]).sysname@ == (#[trigger] w[k2]).sysname@ implies p[k1] < p[k2] by {
                if k2 < pos {
                    assert(w[k1] == v0[k1] && w[k2] == v0[k2]);
                } else if k2 == pos {
                    assert(p[k1] == p0[k1]);
                } else if k1 < pos {
                    assert(w[k1] == v0[k1] && w[k2] == v0[k2 - 1]);
                } else if k1 == pos {
                    assert(w[k2].sysname@ != x.sysname@);
                } else {
                    assert(w[k1] == v0[k1 - 1] && w[k2] == v0[k2 - 1]);
                }
            }
            assert forall|k1: int, k2: int| 0 <= k1 < k2 < p.len() implies #[trigger] p[k1] != #[trigger] p[k2] by {
                if k2 < pos {
                } else if k2 == pos {
                } else if k1 < pos {
                } else if k1 == pos {
                    assert(p0[k2 - 1] < i);
                } else {
                }
            }
            assert forall|k: int| 0 <= k < p.len() implies #[trigger] w[k] == orig[p[k]] by {
                if k < pos {
                    assert(w[k] == v0[k]);
                } else if k > pos {
                    assert(w[k] == v0[k - 1]);
                }
            }
        }
        v.insert(pos, x);
        proof {
            assert(v@ == v0.insert(pos as int, x));
            assert(rest@.to_multiset() == r0.to_multiset().remove(x));
            assert(r0.to_multiset().count(x) > 0) by {
                assert(r0.contains(r0[0]));
            }
            assert(v@.to_multiset().add(rest@.to_multiset()) =~= orig.to_multiset());
            i = i + 1;
        }
    }
    proof {
        assert(rest@.to_multiset().len() == 0);
        assert(rest@.to_multiset() =~= vstd::multiset::Multiset::empty());
        assert(i == orig.len());
    }
    Ghost(p)
}

/// Orders the children of every device by name, all the way down.
pub fn sort_children_recursive(nodes: &mut Vec<DiskInfo>)
    ensures
        final(nodes)@.len() == old(nodes)@.len(),
        forall|i: int|
            0 <= i < old(nodes)@.len() ==> sorted_version(old(nodes)@[i], #[trigger] final(nodes)@[i]),
    decreases old(nodes)@,
{
    let n = nodes.len();
    let mut i: usize = 0;
    while i < n
        invariant
            n == nodes@.len(),
            n == old(nodes)@.len(),
            forall|m: int| 0 <= m < i ==> sorted_version(old(nodes)@[m], #[trigger] nodes@[m]),
            forall|m: int| i <= m < n ==> #[trigger] nodes@[m] == old(nodes)@[m],
        decreases n - i,
    {
        let ghost before = nodes@;
        let mut node = nodes.remove(i);
        let ghost old_node = node;
        let mut kids: Vec<DiskInfo> = Vec::new();
        std::mem::swap(&mut kids, &mut node.children);
        let ghost k0 = kids@;
        assert(decreases_to!(old(nodes)@ => old(nodes)@[i as int]));
        sort_children_recursive(&mut kids);
        let ghost k1 = kids@;
        let Ghost(perm) = sort_by_sysname(&mut kids);
        let ghost k2 = kids@;
        node.children = kids;
        proof {
            assert(old_node.children@ == k0);
            // names
            lemma_forest_names_pointwise(k1, k0);
            lemma_forest_names_permutation(k2, k1);
            assert(tree_names(node) =~= tree_names(old_node));
            // sortedness below
            assert(forest_all(k1, children_sorted()));
            lemma_forest_all_permutation(k1, k2, children_sorted());
            assert(tree_all(node, children_sorted()));
            // every child under its parent
            if forest_under(k0, Some(old_node.sysname@)) {
                assert forall|j: int| 0 <= j < k1.len() implies tree_under(#[trigger] k1[j], Some(old_node.sysname@)) by {
                    assert(tree_under(k0[j], Some(old_node.sysname@)));
                    assert(sorted_version(k0[j], k1[j]));
                }
                lemma_forest_under_permutation(k1, k2, Some(old_node.sysname@));
            }
            // every device below is one that was there
            assert forall|flat: Seq<DiskInfo>| tree_all(old_node, last_record_of(flat)) implies #[trigger] tree_all(node, last_record_of(flat)) by {
                lemma_last_record_same(flat, old_node, node);
                assert forall|j: int| 0 <= j < k1.len() implies tree_all(#[trigger] k1[j], last_record_of(flat)) by {
                    assert(tree_all(k0[j], last_record_of(flat)));
                    assert(sorted_version(k0[j], k1[j]));
                }
                lemma_forest_all_permutation(k1, k2, last_record_of(flat));
            }
            // every child is still there
            assert forall|j: int| 0 <= j < k0.len() implies has_child_named(node, (#[trigger] k0[j]).sysname@) by {
                assert(sorted_version(k0[j], k1[j]));
                let jj = lemma_permutation_member(k2, k1, j);
                assert(node.children@[jj].sysname@ == k0[j].sysname@);
            }
            // stably sorted below
            assert(stable_perm(k0, k2, perm));
            assert forall|k: int| 0 <= k < perm.len() implies sorted_tree(k0[perm[k]], #[trigger] k2[k]) by {
                assert(k2[k] == k1[perm[k]]);
                assert(sorted_version(k0[perm[k]], k1[perm[k]]));
            }
            assert(sorted_tree(old_node, node));
            assert(sorted_version(old_node, node));
        }
        nodes.insert(i, node);
        proof {
            assert forall|m: int| 0 <= m < i + 1 implies sorted_version(old(nodes)@[m], #[trigger] nodes@[m]) by {
                if m < i {
                    assert(nodes@[m] == before[m]);
                }
            }
            assert forall|m: int| i + 1 <= m < n implies #[trigger] nodes@[m] == old(nodes)@[m] by {
                assert(nodes@[m] == before[m]);
            }
        }
        i = i + 1;
    }
}

/// `sort_children_recursive` leaves a forest whose children are already sorted at every
/// level unchanged: each root comes back as the same tree.
pub proof fn lemma_sort_children_keeps_sorted(before: Seq<DiskInfo>, after: Seq<DiskInfo>)
    requires
        after.len() == before.len(),
        forall|i: int| 0 <= i < before.len() ==> tree_all(#[trigger] before[i], children_sorted()),
        forall|i: int| 0 <= i < before.len() ==> sorted_version(before[i], #[trigger] after[i]),
    ensures
        forall|i: int| 0 <= i < before.len() ==> same_tree(#[trigger] before[i], after[i]),
{
    assert forall|i: int| 0 <= i < before.len() implies same_tree(#[trigger] before[i], after[i]) by {
        assert(sorted_version(before[i], after[i]));
        lemma_sorted_tree_unchanged(before[i], after[i]);
    }
}

/// Calling `sort_children_recursive` a second time changes nothing: every root after
/// the second call is the same tree as after the first.
pub proof fn lemma_sort_children_recursive_idempotent(
    before: Seq<DiskInfo>,
    once: Seq<DiskInfo>,
    twice: Seq<DiskInfo>,
)
    requires
        once.len() == before.len(),
        twice.len() == once.len(),
        forall|i: int| 0 <= i < before.len() ==> sorted_version(before[i], #[trigger] once[i]),
        forall|i: int| 0 <= i < once.len() ==> sorted_version(once[i], #[trigger] twice[i]),
    ensures
        forall|i: int| 0 <= i < once.len() ==> same_tree(#[trigger] once[i], twice[i]),
{
    assert forall|i: int| 0 <= i < once.len() implies tree_all(#[trigger] once[i], children_sorted()) by {
        assert(sorted_version(before[i], once[i]));
    }
    lemma_sort_children_keeps_sorted(once, twice);
}


/// The index of the first device called `name`.
fn find_by_sysname(nodes: &Vec<DiskInfo>, name: &String) -> (r: Option<usize>)
    ensures
        r matches Some(i) ==> i < nodes@.len() && nodes@[i as int].sysname@ == name@,
        r is None ==> forall|j: int| 0 <= j < nodes@.len() ==> (#[trigger] nodes@[j]).sysname@ != name@,
{
    let mut i: usize = 0;
    while i < nodes.len()
        invariant
            i <= nodes@.len(),
            forall|j: int| 0 <= j < i ==> (#[trigger] nodes@[j]).sysname@ != name@,
        decreases nodes@.len() - i,
    {
        if nodes[i].sysname == *name {
            return Some(i);
        }
        i = i + 1;
    }
    None
}

/// One device per name: a later device replaces an earlier one of the same name.
fn keep_last_by_sysname(flat: Vec<DiskInfo>) -> (nodes: Vec<DiskInfo>)
    ensures
        keeps_last(flat@, nodes@),
{
    let ghost orig = flat@;
    let mut rest = flat;
    let mut nodes: Vec<DiskInfo> = Vec::new();
    let ghost mut i: int = 0;
    proof {
        assert(rest@ =~= orig.skip(0));
    }
    while rest.len() > 0
        invariant
            0 <= i <= orig.len(),
            rest@ == orig.skip(i),
            distinct_roots(nodes@),
            forall|m: int|
                0 <= m < nodes@.len() ==> exists|k: int|
                    0 <= k < i && #[trigger] orig[k] == #[trigger] nodes@[m] && forall|k2: int|
                        k < k2 < i ==> (#[trigger] orig[k2]).sysname@ != nodes@[m].sysname@,
            forall|k: int| 0 <= k < i ==> has_root(nodes@, #[trigger] orig[k].sysname@),
        decreases rest@.len(),
    {
        let ghost r0 = rest@;
        let ghost n0 = nodes@;
        let d = rest.remove(0);
        proof {
            assert(d == orig[i]);
            assert(rest@ =~= orig.skip(i + 1));
        }
        match find_by_sysname(&nodes, &d.sysname) {
            Some(j) => {
                nodes[j] = d;
                proof {
                    assert forall|a: int, b: int| 0 <= a < b < nodes@.len() implies (#[trigger] nodes@[a]).sysname@ != (#[trigger] nodes@[b]).sysname@ by {
                        assert(n0[a].sysname@ != n0[b].sysname@);
                    }
                    assert forall|m: int| 0 <= m < nodes@.len() implies exists|k: int|
                        0 <= k < i + 1 && #[trigger] orig[k] == #[trigger] nodes@[m] && forall|k2: int|
                            k < k2 < i + 1 ==> (#[trigger] orig[k2]).sysname@ != nodes@[m].sysname@ by {
                        if m == j {
                            assert(orig[i] == nodes@[m]);
                        } else {
                            let k = choose|k: int| 0 <= k < i && #[trigger] orig[k] == #[trigger] n0[m] && forall|k2: int| k < k2 < i ==> (#[trigger] orig[k2]).sysname@ != n0[m].sysname@;
                            if m < j { assert(n0[m].sysname@ != n0[j as int].sysname@); } else { assert(n0[j as int].sysname@ != n0[m].sysname@); }
                            assert(orig[k] == nodes@[m]);
                        }
                    }
                    assert forall|k: int| 0 <= k < i + 1 implies has_root(nodes@, #[trigger] orig[k].sysname@) by {
                        if k == i {
                            assert(nodes@[j as int].sysname@ == orig[k].sysname@);
                        } else {
                            let m = choose|m: int| 0 <= m < n0.len() && (#[trigger] n0[m]).sysname@ == orig[k].sysname@;
                            assert(nodes@[m].sysname@ == orig[k].sysname@);
                        }
                    }
                }
            },
            None => {
                nodes.push(d);
                proof {
                    assert forall|a: int, b: int| 0 <= a < b < nodes@.len() implies (#[trigger] nodes@[a]).sysname@ != (#[trigger] nodes@[b]).sysname@ by {
                        if b < n0.len() {
                            assert(n0[a].sysname@ != n0[b].sysname@);
                        } else {
                            assert(n0[a].sysname@ != d.sysname@);
                        }
                    }
                    assert forall|m: int| 0 <= m < nodes@.len() implies exists|k: int|
                        0 <= k < i + 1 && #[trigger] orig[k] == #[trigger] nodes@[m] && forall|k2: int|
                            k < k2 < i + 1 ==> (#[trigger] orig[k2]).sysname@ != nodes@[m].sysname@ by {
                        if m == n0.len() {
                            assert(orig[i] == nodes@[m]);
                        } else {
                            let k = choose|k: int| 0 <= k < i && #[trigger] orig[k] == #[trigger] n0[m] && forall|k2: int| k < k2 < i ==> (#[trigger] orig[k2]).sysname@ != n0[m].sysname@;
                            assert(n0[m].sysname@ != d.sysname@);
                            assert(orig[k] == nodes@[m]);
                        }
                    }
                    assert forall|k: int| 0 <= k < i + 1 implies has_root(nodes@, #[trigger] orig[k].sysname@) by {
                        if k == i {
                            assert(nodes@[n0.len() as int].sysname@ == orig[k].sysname@);
                        } else {
                            let m = choose|m: int| 0 <= m < n0.len() && (#[trigger] n0[m]).sysname@ == orig[k].sysname@;
                            assert(nodes@[m].sysname@ == orig[k].sysname@);
                        }
                    }
                }
            },
        }
        proof {
            i = i + 1;
        }
    }
    proof {
        assert(i == orig.len());
        assert forall|m: int| 0 <= m < nodes@.len() implies kept_from(orig, #[trigger] nodes@[m]) by {
            let k = choose|k: int| 0 <= k < i && #[trigger] orig[k] == #[trigger] nodes@[m] && forall|k2: int| k < k2 < i ==> (#[trigger] orig[k2]).sysname@ != nodes@[m].sysname@;
            assert(is_last_index(orig, k));
        }
        assert(distinct_roots(nodes@));
        assert(forall|k: int| 0 <= k < orig.len() ==> has_root(nodes@, #[trigger] orig[k].sysname@));
        assert(orig == flat@);
    }
    nodes
}


/// (name, parent name) of each device that names a parent, in list order.
fn parent_pairs(nodes: &Vec<DiskInfo>) -> (r: (Vec<(String, String)>, Ghost<Seq<int>>))
    ensures
        pairs_of(nodes@, pair_view(r.0@), r.1@),
{
    let mut pairs: Vec<(String, String)> = Vec::new();
    let ghost mut src: Seq<int> = Seq::empty();
    let mut i: usize = 0;
    while i < nodes.len()
        invariant
            i <= nodes@.len(),
            pairs@.len() == src.len(),
            forall|k: int|
                0 <= k < src.len() ==> {
                    &&& 0 <= #[trigger] src[k] < i
                    &&& pair_view(pairs@)[k].0 == nodes@[src[k]].sysname@
                    &&& (nodes@[src[k]].parent_sysname matches Some(q) && q@ == pair_view(pairs@)[k].1)
                },
            forall|k1: int, k2: int| 0 <= k1 < k2 < src.len() ==> #[trigger] src[k1] < #[trigger] src[k2],
            forall|m: int|
                0 <= m < i && (#[trigger] nodes@[m]).parent_sysname is Some ==> exists|k: int|
                    0 <= k < src.len() && src[k] == m,
        decreases nodes@.len() - i,
    {
        let ghost old_src = src;
        match &nodes[i].parent_sysname {
            Some(p) => {
                let ghost old_pairs = pairs@;
                pairs.push((nodes[i].sysname.clone(), p.clone()));
                proof {
                    src = src.push(i as int);
                    assert(pair_view(pairs@) =~= pair_view(old_pairs).push((nodes@[i as int].sysname@, p@)));
                    assert(src[src.len() - 1] == i);
                    assert forall|m: int| 0 <= m < i + 1 && (#[trigger] nodes@[m]).parent_sysname is Some implies exists|k: int| 0 <= k < src.len() && src[k] == m by {
                        if m == i {
                            assert(src[src.len() - 1] == m);
                        } else {
                            let k = choose|k: int| 0 <= k < old_src.len() && old_src[k] == m;
                            assert(src[k] == m);
                        }
                    }
                }
            },
            None => {},
        }
        i = i + 1;
    }
    (pairs, Ghost(src))
}

/// Handles one (child, parent) pair: the child moves under the parent when the parent
/// is a root, and stays a root otherwise.
#[verifier::rlimit(40)]
fn attach_pair(
    nodes: &mut Vec<DiskInfo>,
    cname: &String,
    pname: &String,
    Ghost(f): Ghost<Seq<DiskInfo>>,
    Ghost(s0): Ghost<Seq<DiskInfo>>,
    Ghost(pv): Ghost<Seq<(Seq<char>, Seq<char>)>>,
    Ghost(kk): Ghost<int>,
)
    requires
        pairs_ok(s0, pv),
        0 <= kk < pv.len(),
        attach_inv(f, s0, pv, kk, old(nodes)@),
        cname@ == pv[kk].0,
        pname@ == pv[kk].1,
    ensures
        attach_inv(f, s0, pv, kk + 1, final(nodes)@),
{
    let ghost s = nodes@;
    match find_by_sysname(nodes, cname) {
        None => {
            proof {
                assert(pending_pair(s, pv[kk].0, pv[kk].1));
                let m = choose|m: int| 0 <= m < s.len() && (#[trigger] s[m]).sysname@ == pv[kk].0 && (s[m].parent_sysname matches Some(q) && q@ == pv[kk].1);
                assert(s[m].sysname@ != cname@);
            }
        },
        Some(ci) => {
            let child = nodes.remove(ci);
            match find_by_sysname(nodes, pname) {
                Some(pi) => {
                    let mut parent = nodes.remove(pi);
                    let ghost par = parent;
                    parent.children.push(child);
                    proof {
                        assert(par == s.remove(ci as int)[pi as int]);
                        lemma_attach_step(f, s0, pv, kk, s, ci as int, pi as int, parent);
                    }
                    nodes.insert(pi, parent);
                    proof {
                        assert(nodes@ =~= s.remove(ci as int).update(pi as int, parent));
                    }
                },
                None => {
                    nodes.insert(ci, child);
                    proof {
                        lemma_attach_put_back(f, s0, pv, kk, s, ci as int);
                        assert(nodes@ =~= s);
                    }
                },
            }
        },
    }
}

/// Arranges block devices into a forest: a device goes under the device it names as
/// its parent, where that one is a root; every list of siblings is sorted by name.
/// Of devices that share a name, the last one is kept.
#[verifier::rlimit(60)]
pub fn build_tree(flat: Vec<DiskInfo>) -> (roots: Vec<DiskInfo>)
    ensures
        built_from(flat@, roots@),
{
    let ghost f = flat@;
    let mut nodes = keep_last_by_sysname(flat);
    let (pairs, Ghost(src)) = parent_pairs(&nodes);
    let ghost s0 = nodes@;
    let ghost pv = pair_view(pairs@);
    proof {
        lemma_attach_init(f, s0, pv, src);
    }
    let mut kk: usize = 0;
    while kk < pairs.len()
        invariant
            pv == pair_view(pairs@),
            pairs_ok(s0, pv),
            kk <= pairs@.len(),
            attach_inv(f, s0, pv, kk as int, nodes@),
        decreases pairs@.len() - kk,
    {
        attach_pair(&mut nodes, &pairs[kk].0, &pairs[kk].1, Ghost(f), Ghost(s0), Ghost(pv), Ghost(kk as int));
        kk = kk + 1;
    }
    let ghost e = nodes@;
    let _ = sort_by_sysname(&mut nodes);
    let ghost sorted = nodes@;
    sort_children_recursive(&mut nodes);
    proof {
        lemma_finish(f, s0, pv, src, e, sorted, nodes@);
    }
    nodes
}

// Laws of the probe steps, stated over the raw inputs.

/// The first property in `props` called `key` is the one at `k`, so the device's
/// value for `key` is the value stored there.
proof fn lemma_prop_value_first(props: Seq<(String, String)>, key: Seq<char>, k: int)
    requires
        0 <= k < props.len(),
        props[k].0@ == key,
        forall|j: int| 0 <= j < k ==> (#[trigger] props[j]).0@ != key,
    ensures
        prop_value(props, key) == Some(props[k].1),
    decreases k,
{
    if k > 0 {
        assert(props[0].0@ != key);
        let rest = props.drop_first();
        assert forall|j: int| 0 <= j < k - 1 implies (#[trigger] rest[j]).0@ != key by {
            assert(rest[j] == props[j + 1]);
        }
        lemma_prop_value_first(rest, key, k - 1);
    }
}

/// No property in `props` is called `key`, so the device has no value for it.
proof fn lemma_prop_value_absent(props: Seq<(String, String)>, key: Seq<char>)
    requires
        forall|j: int| 0 <= j < props.len() ==> (#[trigger] props[j]).0@ != key,
    ensures
        prop_value(props, key) is None,
    decreases props.len(),
{
    if props.len() > 0 {
        assert(props[0].0@ != key);
        let rest = props.drop_first();
        assert forall|j: int| 0 <= j < rest.len() implies (#[trigger] rest[j]).0@ != key by {
            assert(rest[j] == props[j + 1]);
        }
        lemma_prop_value_absent(rest, key);
    }
}

/// The model of a device made by `DiskInfo::from_udev` is its first
/// ID_MODEL_FROM_DATABASE property when it has one; without one, its first ID_MODEL
/// property; without either, none.
pub proof fn lemma_from_udev_model(dev: UdevDevice, blkid: BlkidInfo, d: DiskInfo)
    requires
        udev_disk(dev, blkid, d),
    ensures
        forall|k: int|
            0 <= k < dev.properties@.len() && (#[trigger] dev.properties@[k]).0@ == "ID_MODEL_FROM_DATABASE"@
                && (forall|j: int| 0 <= j < k ==> (#[trigger] dev.properties@[j]).0@ != "ID_MODEL_FROM_DATABASE"@)
                ==> d.model == Some(dev.properties@[k].1),
        (forall|j: int| 0 <= j < dev.properties@.len() ==> (#[trigger] dev.properties@[j]).0@ != "ID_MODEL_FROM_DATABASE"@)
            ==> forall|k: int|
            0 <= k < dev.properties@.len() && (#[trigger] dev.properties@[k]).0@ == "ID_MODEL"@
                && (forall|j: int| 0 <= j < k ==> (#[trigger] dev.properties@[j]).0@ != "ID_MODEL"@)
                ==> d.model == Some(dev.properties@[k].1),
        (forall|j: int|
            0 <= j < dev.properties@.len() ==> (#[trigger] dev.properties@[j]).0@ != "ID_MODEL_FROM_DATABASE"@
                && dev.properties@[j].0@ != "ID_MODEL"@) ==> d.model is None,
{
    let props = dev.properties@;
    assert forall|k: int|
        0 <= k < props.len() && (#[trigger] props[k]).0@ == "ID_MODEL_FROM_DATABASE"@
            && (forall|j: int| 0 <= j < k ==> (#[trigger] props[j]).0@ != "ID_MODEL_FROM_DATABASE"@)
            implies d.model == Some(props[k].1) by {
        lemma_prop_value_first(props, "ID_MODEL_FROM_DATABASE"@, k);
    }
    if forall|j: int| 0 <= j < props.len() ==> (#[trigger] props[j]).0@ != "ID_MODEL_FROM_DATABASE"@ {
        lemma_prop_value_absent(props, "ID_MODEL_FROM_DATABASE"@);
        assert forall|k: int|
            0 <= k < props.len() && (#[trigger] props[k]).0@ == "ID_MODEL"@
                && (forall|j: int| 0 <= j < k ==> (#[trigger] props[j]).0@ != "ID_MODEL"@)
                implies d.model == Some(props[k].1) by {
            lemma_prop_value_first(props, "ID_MODEL"@, k);
        }
    }
    if forall|j: int|
        0 <= j < props.len() ==> (#[trigger] props[j]).0@ != "ID_MODEL_FROM_DATABASE"@ && props[j].0@ != "ID_MODEL"@ {
        lemma_prop_value_absent(props, "ID_MODEL_FROM_DATABASE"@);
        lemma_prop_value_absent(props, "ID_MODEL"@);
    }
}

/// The serial of a device made by `DiskInfo::from_udev` is its first ID_SERIAL_SHORT
/// property when it has one; without one, its first ID_SERIAL property; and its bus
/// is its first ID_BUS property.
pub proof fn lemma_from_udev_serial_and_bus(dev: UdevDevice, blkid: BlkidInfo, d: DiskInfo)
    requires
        udev_disk(dev, blkid, d),
    ensures
        forall|k: int|
            0 <= k < dev.properties@.len() && (#[trigger] dev.properties@[k]).0@ == "ID_SERIAL_SHORT"@
                && (forall|j: int| 0 <= j < k ==> (#[trigger] dev.properties@[j]).0@ != "ID_SERIAL_SHORT"@)
                ==> d.serial == Some(dev.properties@[k].1),
        (forall|j: int| 0 <= j < dev.properties@.len() ==> (#[trigger] dev.properties@[j]).0@ != "ID_SERIAL_SHORT"@)
            ==> forall|k: int|
            0 <= k < dev.properties@.len() && (#[trigger] dev.properties@[k]).0@ == "ID_SERIAL"@
                && (forall|j: int| 0 <= j < k ==> (#[trigger] dev.properties@[j]).0@ != "ID_SERIAL"@)
                ==> d.serial == Some(dev.properties@[k].1),
        forall|k: int|
            0 <= k < dev.properties@.len() && (#[trigger] dev.properties@[k]).0@ == "ID_BUS"@
                && (forall|j: int| 0 <= j < k ==> (#[trigger] dev.properties@[j]).0@ != "ID_BUS"@)
                ==> d.bus == Some(dev.properties@[k].1),
{
    let props = dev.properties@;
    assert forall|k: int|
        0 <= k < props.len() && (#[trigger] props[k]).0@ == "ID_SERIAL_SHORT"@
            && (forall|j: int| 0 <= j < k ==> (#[trigger] props[j]).0@ != "ID_SERIAL_SHORT"@)
            implies d.serial == Some(props[k].1) by {
        lemma_prop_value_first(props, "ID_SERIAL_SHORT"@, k);
    }
    if forall|j: int| 0 <= j < props.len() ==> (#[trigger] props[j]).0@ != "ID_SERIAL_SHORT"@ {
        lemma_prop_value_absent(props, "ID_SERIAL_SHORT"@);
        assert forall|k: int|
            0 <= k < props.len() && (#[trigger] props[k]).0@ == "ID_SERIAL"@
                && (forall|j: int| 0 <= j < k ==> (#[trigger] props[j]).0@ != "ID_SERIAL"@)
                implies d.serial == Some(props[k].1) by {
            lemma_prop_value_first(props, "ID_SERIAL"@, k);
        }
    }
    assert forall|k: int|
        0 <= k < props.len() && (#[trigger] props[k]).0@ == "ID_BUS"@
            && (forall|j: int| 0 <= j < k ==> (#[trigger] props[j]).0@ != "ID_BUS"@)
            implies d.bus == Some(props[k].1) by {
        lemma_prop_value_first(props, "ID_BUS"@, k);
    }
}

/// Some device of `devs` has a device node and is called `n`.
pub open spec fn has_node_named(devs: Seq<(UdevDevice, BlkidInfo)>, n: Seq<char>) -> bool {
    exists|k: int| 0 <= k < devs.len() && (#[trigger] devs[k]).0.devnode is Some && devs[k].0.sysname@ == n
}

proof fn lemma_udev_flat_names(devs: Seq<(UdevDevice, BlkidInfo)>, flat: Seq<DiskInfo>, n: Seq<char>)
    requires
        udev_flat(devs, flat),
    ensures
        has_root(flat, n) == has_node_named(devs, n),
    decreases devs.len(),
{
    if devs.len() == 0 {
    } else {
        let last = devs[devs.len() - 1];
        let rest = devs.subrange(0, devs.len() - 1);
        if last.0.devnode is Some {
            let f = flat.subrange(0, flat.len() - 1);
            lemma_udev_flat_names(rest, f, n);
            if has_root(flat, n) {
                let m = choose|m: int| 0 <= m < flat.len() && (#[trigger] flat[m]).sysname@ == n;
                if m == flat.len() - 1 {
                    assert(devs[devs.len() - 1].0.sysname@ == n);
                } else {
                    assert(f[m] == flat[m]);
                    let k = choose|k: int| 0 <= k < rest.len() && (#[trigger] rest[k]).0.devnode is Some && rest[k].0.sysname@ == n;
                    assert(devs[k] == rest[k]);
                }
            }
            if has_node_named(devs, n) {
                let k = choose|k: int| 0 <= k < devs.len() && (#[trigger] devs[k]).0.devnode is Some && devs[k].0.sysname@ == n;
                if k == devs.len() - 1 {
                    assert(flat[flat.len() - 1].sysname@ == n);
                } else {
                    assert(rest[k] == devs[k]);
                    let m = choose|m: int| 0 <= m < f.len() && (#[trigger] f[m]).sysname@ == n;
                    assert(flat[m] == f[m]);
                }
            }
        } else {
            lemma_udev_flat_names(rest, flat, n);
            if has_node_named(devs, n) {
                let k = choose|k: int| 0 <= k < devs.len() && (#[trigger] devs[k]).0.devnode is Some && devs[k].0.sysname@ == n;
                assert(k != devs.len() - 1);
                assert(rest[k] == devs[k]);
            }
            if has_node_named(rest, n) {
                let k = choose|k: int| 0 <= k < rest.len() && (#[trigger] rest[k]).0.devnode is Some && rest[k].0.sysname@ == n;
                assert(devs[k] == rest[k]);
            }
        }
    }
}

/// The forest made by `DisksInfo::from_devices` holds exactly the devices that have a
/// device node, whatever their parents: each such name once, no other name.
pub proof fn lemma_from_devices_names(devices: Seq<(UdevDevice, BlkidInfo)>, disks: DisksInfo, n: Seq<char>)
    requires
        exists|flat: Seq<DiskInfo>|
            udev_flat(devices, flat) && childless(flat) && #[trigger] built_from(flat, disks.devices@),
    ensures
        forest_names(disks.devices@).count(n) == if has_node_named(devices, n) { 1nat } else { 0nat },
{
    let flat = choose|flat: Seq<DiskInfo>|
        udev_flat(devices, flat) && childless(flat) && #[trigger] built_from(flat, disks.devices@);
    lemma_udev_flat_names(devices, flat, n);
    assert(forest_names(disks.devices@).count(n) == if has_root(flat, n) { 1nat } else { 0nat });
}

/// A BIOS information structure decides UEFI exactly when bit 3 (0x08) of its second
/// characteristics-extension byte is set, whatever the other bits are; without that
/// byte it decides BIOS; any other structure decides nothing.
pub proof fn lemma_decided_by_uefi_bit(s: SmbiosStructure, r: Option<BootMode>)
    requires
        match s {
            SmbiosStructure::Bios { characteristics_ext2 } => r == Some(BootMode::from_characteristics(characteristics_ext2)),
            SmbiosStructure::Other => r is None,
        },
    ensures
        s matches SmbiosStructure::Bios { characteristics_ext2: Some(v) } ==> r == Some(
            if v & 0x08u8 != 0 { BootMode::Uefi } else { BootMode::Bios },
        ),
        s == (SmbiosStructure::Bios { characteristics_ext2: None }) ==> r == Some(BootMode::Bios),
        s == SmbiosStructure::Other ==> r is None,
        r == Some(BootMode::Uefi) <==> (s matches SmbiosStructure::Bios { characteristics_ext2: Some(v) } && v & 0x08u8 != 0),
{
}

/// The names of transports: each listed name gives its transport, and a name gives
/// `Unknown` (keeping the name) exactly when it is none of them.
pub proof fn lemma_transport_names(lower: Seq<char>, t: DiskTransportInfo)
    requires
        transport_named(lower, t),
    ensures
        lower == "nvme"@ ==> t == DiskTransportInfo::Nvme,
        lower == "ata"@ ==> t == DiskTransportInfo::Sata,
        lower == "sata"@ ==> t == DiskTransportInfo::Sata,
        lower == "virtio"@ ==> t == DiskTransportInfo::Virtio,
        lower == "usb"@ ==> t == DiskTransportInfo::Usb,
        lower == "scsi"@ ==> t == DiskTransportInfo::Scsi,
        lower == "nfs"@ ==> t == DiskTransportInfo::Nfs,
        lower == "nfsv1"@ ==> t == DiskTransportInfo::Nfs,
        lower == "nfsv2"@ ==> t == DiskTransportInfo::Nfs,
        lower == "nfsv3"@ ==> t == DiskTransportInfo::Nfs,
        lower == "iscsi"@ ==> t == DiskTransportInfo::Iscsi,
        lower == "fibrechannel"@ ==> t == DiskTransportInfo::FibreChannel,
        lower == "fc"@ ==> t == DiskTransportInfo::FibreChannel,
        (t is Unknown) <==> !(lower == "nvme"@ || lower == "ata"@ || lower == "sata"@ || lower == "virtio"@
            || lower == "usb"@ || lower == "scsi"@ || lower == "nfs"@ || lower == "nfsv1"@ || lower == "nfsv2"@
            || lower == "nfsv3"@ || lower == "iscsi"@ || lower == "fibrechannel"@ || lower == "fc"@),
        t matches DiskTransportInfo::Unknown(u) ==> u@ == lower,
{
    reveal_strlit("nvme");
    reveal_strlit("ata");
    reveal_strlit("sata");
    reveal_strlit("virtio");
    reveal_strlit("usb");
    reveal_strlit("scsi");
    reveal_strlit("nfs");
    reveal_strlit("nfsv1");
    reveal_strlit("nfsv2");
    reveal_strlit("nfsv3");
    reveal_strlit("iscsi");
    reveal_strlit("fibrechannel");
    reveal_strlit("fc");
    if lower == "ata"@ {
        assert(lower.len() != "nvme"@.len());
    }
    if lower == "sata"@ {
        assert(lower[0] != "nvme"@[0]);
    }
    if lower == "virtio"@ {
        assert(lower.len() != "nvme"@.len());
        assert(lower.len() != "ata"@.len());
        assert(lower.len() != "sata"@.len());
    }
    if lower == "usb"@ {
        assert(lower.len() != "nvme"@.len());
        assert(lower[0] != "ata"@[0]);
        assert(lower.len() != "sata"@.len());
        assert(lower.len() != "virtio"@.len());
    }
    if lower == "scsi"@ {
        assert(lower[0] != "nvme"@[0]);
        assert(lower.len() != "ata"@.len());
        assert(lower[1] != "sata"@[1]);
        assert(lower.len() != "virtio"@.len());
        assert(lower.len() != "usb"@.len());
    }
    if lower == "nfs"@ {
        assert(lower.len() != "nvme"@.len());
        assert(lower[0] != "ata"@[0]);
        assert(lower.len() != "sata"@.len());
        assert(lower.len() != "virtio"@.len());
        assert(lower[0] != "usb"@[0]);
        assert(lower.len() != "scsi"@.len());
    }
    if lower == "nfsv1"@ {
        assert(lower.len() != "nvme"@.len());
        assert(lower.len() != "ata"@.len());
        assert(lower.len() != "sata"@.len());
        assert(lower.len() != "virtio"@.len());
        assert(lower.len() != "usb"@.len());
        assert(lower.len() != "scsi"@.len());
    }
    if lower == "nfsv2"@ {
        assert(lower.len() != "nvme"@.len());
        assert(lower.len() != "ata"@.len());
        assert(lower.len() != "sata"@.len());
        assert(lower.len() != "virtio"@.len());
        assert(lower.len() != "usb"@.len());
        assert(lower.len() != "scsi"@.len());
    }
    if lower == "nfsv3"@ {
        assert(lower.len() != "nvme"@.len());
        assert(lower.len() != "ata"@.len());
        assert(lower.len() != "sata"@.len());
        assert(lower.len() != "virtio"@.len());
        assert(lower.len() != "usb"@.len());
        assert(lower.len() != "scsi"@.len());
    }
    if lower == "iscsi"@ {
        assert(lower.len() != "nvme"@.len());
        assert(lower.len() != "ata"@.len());
        assert(lower.len() != "sata"@.len());
        assert(lower.len() != "virtio"@.len());
        assert(lower.len() != "usb"@.len());
        assert(lower.len() != "scsi"@.len());
        assert(lower.len() != "nfs"@.len());
        assert(lower[0] != "nfsv1"@[0]);
        assert(lower[0] != "nfsv2"@[0]);
        assert(lower[0] != "nfsv3"@[0]);
    }
    if lower == "fibrechannel"@ {
        assert(lower.len() != "nvme"@.len());
        assert(lower.len() != "ata"@.len());
        assert(lower.len() != "sata"@.len());
        assert(lower.len() != "virtio"@.len());
        assert(lower.len() != "usb"@.len());
        assert(lower.len() != "scsi"@.len());
        assert(lower.len() != "nfs"@.len());
        assert(lower.len() != "nfsv1"@.len());
        assert(lower.len() != "nfsv2"@.len());
        assert(lower.len() != "nfsv3"@.len());
        assert(lower.len() != "iscsi"@.len());
    }
    if lower == "fc"@ {
        assert(lower.len() != "nvme"@.len());
        assert(lower.len() != "ata"@.len());
        assert(lower.len() != "sata"@.len());
        assert(lower.len() != "virtio"@.len());
        assert(lower.len() != "usb"@.len());
        assert(lower.len() != "scsi"@.len());
        assert(lower.len() != "nfs"@.len());
        assert(lower.len() != "nfsv1"@.len());
        assert(lower.len() != "nfsv2"@.len());
        assert(lower.len() != "nfsv3"@.len());
        assert(lower.len() != "iscsi"@.len());
    }
}

} // verus!
