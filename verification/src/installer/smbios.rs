//! The boot mode as the SMBIOS tables tell it, read with dmidecode: the entry point
//! gives the table's version and length, and the first BIOS information structure of
//! the table decides.
use vstd::prelude::*;
use dmidecode::bitfield::BitField;
use crate::installer::probe::{BootMode, SmbiosStructure};

verus! {

#[verifier::external_type_specification]
#[verifier::external_body]
pub struct ExEntryPoint(dmidecode::EntryPoint);

#[verifier::external_type_specification]
#[verifier::external_body]
pub struct ExInvalidEntryPointError(dmidecode::InvalidEntryPointError);

#[verifier::external_type_specification]
#[verifier::external_body]
pub struct ExMalformedStructureError(dmidecode::MalformedStructureError);

#[verifier::external_type_specification]
#[verifier::external_body]
pub struct ExStructures<'a>(dmidecode::Structures<'a>);

#[verifier::external_type_specification]
#[verifier::external_body]
pub struct ExStructure<'a>(dmidecode::Structure<'a>);

/// Why the SMBIOS tables gave no boot mode.
#[derive(Debug, Clone, Copy, PartialEq, Eq, Structural)]
pub enum SmbiosError {
    /// The entry-point buffer holds no valid SMBIOS entry point.
    NoEntryPoint,
    /// A structure of the table is malformed.
    MalformedStructure,
    /// The table is not laid out so that the structure walk can take it safely (see
    /// `smbios_framed`).
    Unframed,
}

/// Name for what `EntryPoint::search` finds in a buffer; `None` where it returns an
/// error.
pub uninterp spec fn found_entry_point(buf: Seq<u8>) -> Option<dmidecode::EntryPoint>;

/// Calls `EntryPoint::search`; claims only that its outcome is `found_entry_point` of
/// the buffer. (It checks every length before it reads, so it does not panic.)
#[verifier::external_body]
fn search_entry_point(buf: &[u8]) -> (r: Result<dmidecode::EntryPoint, dmidecode::InvalidEntryPointError>)
    ensures
        match r {
            Ok(e) => found_entry_point(buf@) == Some(e),
            Err(_) => found_entry_point(buf@) is None,
        },
{
    dmidecode::EntryPoint::search(buf)
}

/// Name for the (major, minor) SMBIOS version an entry point gives.
pub uninterp spec fn smbios_version(e: dmidecode::EntryPoint) -> (u8, u8);

/// Calls `EntryPoint::to_version`; claims only that the result is `smbios_version`.
#[verifier::external_body]
fn entry_version(e: &dmidecode::EntryPoint) -> (r: (u8, u8))
    ensures
        r == smbios_version(*e),
{
    let v = e.to_version();
    (v.major, v.minor)
}

/// Name for the table length (the maximum length for SMBIOS 3) an entry point gives.
pub uninterp spec fn smbios_table_len(e: dmidecode::EntryPoint) -> u32;

/// Calls `EntryPoint::smbios_len`; claims only that the result is `smbios_table_len`.
#[verifier::external_body]
fn entry_table_len(e: &dmidecode::EntryPoint) -> (r: u32)
    ensures
        r == smbios_table_len(*e),
{
    e.smbios_len()
}

/// Name for what the structure iterator made by `EntryPoint::structures` over a table
/// hands out, each item taken as a `SmbiosStructure` (a BIOS information structure
/// with its second characteristics-extension byte, or another one) or as the error of
/// a malformed structure.
pub uninterp spec fn table_structures(
    e: dmidecode::EntryPoint,
    table: Seq<u8>,
) -> Seq<Result<SmbiosStructure, dmidecode::MalformedStructureError>>;

/// Name for what a structure iterator still hands out, taken as in `table_structures`.
pub uninterp spec fn remaining_structures(
    it: dmidecode::Structures,
) -> Seq<Result<SmbiosStructure, dmidecode::MalformedStructureError>>;

/// Name for: advancing the iterator, until it hands out a BIOS information structure
/// or an error, neither panics nor reads outside the table.
pub uninterp spec fn walk_sound(it: dmidecode::Structures) -> bool;

/// Calls `EntryPoint::structures`. Claims that the iterator hands out
/// `table_structures` of the entry point and the table, and that on a table that
/// `smbios_framed` accepts, walking it up to the first BIOS structure or error is safe:
/// dmidecode reads each structure header and each fixed record without a length check,
/// and a few of its decoders can panic on their data; `smbios_framed` rules out exactly
/// the headers, records and data (see `record_fits`) on which they would.
#[verifier::external_body]
fn open_structures<'a>(e: &dmidecode::EntryPoint, table: &'a [u8]) -> (r: dmidecode::Structures<'a>)
    ensures
        remaining_structures(r) == table_structures(*e, table@),
        smbios_framed(smbios_version(*e), smbios_table_len(*e) as int, table@) ==> walk_sound(r),
{
    e.structures(table)
}

/// Calls `Structures::next` and takes a BIOS information structure as its second
/// characteristics-extension byte, any other structure as `Other`. Claims that the
/// item is the first of `remaining_structures`, which then loses it, and that a sound
/// walk stays sound past a structure that is not the BIOS one.
#[verifier::external_body]
fn next_structure(it: &mut dmidecode::Structures) -> (r: Option<Result<SmbiosStructure, dmidecode::MalformedStructureError>>)
    requires
        walk_sound(*old(it)),
    ensures
        remaining_structures(*old(it)).len() == 0 ==> r is None,
        remaining_structures(*old(it)).len() > 0 ==> r == Some(remaining_structures(*old(it))[0])
            && remaining_structures(*final(it)) == remaining_structures(*old(it)).drop_first(),
        r matches Some(Ok(SmbiosStructure::Other)) ==> walk_sound(*final(it)),
{
    match it.next() {
        Some(Ok(dmidecode::Structure::Bios(b))) => Some(Ok(SmbiosStructure::Bios {
            characteristics_ext2: match b.bios_characteristics_exttension_2 {
                Some(x) => Some(x.value()),
                None => None,
            },
        })),
        Some(Ok(_)) => Some(Ok(SmbiosStructure::Other)),
        Some(Err(err)) => Some(Err(err)),
        None => None,
    }
}

/// The version is at least `major.minor`.
pub open spec fn version_at_least(v: (u8, u8), major: u8, minor: u8) -> bool {
    v.0 > major || (v.0 == major && v.1 >= minor)
}

/// The version is above `major.minor`.
pub open spec fn version_above(v: (u8, u8), major: u8, minor: u8) -> bool {
    v.0 > major || (v.0 == major && v.1 > minor)
}

/// The length of the fixed record that dmidecode reads, without a check, from the
/// formatted section of a BIOS information structure of the table's version.
pub open spec fn bios_record_len(v: (u8, u8)) -> int {
    if version_at_least(v, 3, 1) {
        22
    } else if version_at_least(v, 2, 4) {
        20
    } else {
        14
    }
}

/// The length of the fixed record that dmidecode reads, without a check, from the
/// formatted section of a system information structure.
pub open spec fn system_record_len(v: (u8, u8)) -> int {
    if version_at_least(v, 2, 4) {
        23
    } else if version_at_least(v, 2, 1) {
        21
    } else {
        4
    }
}

/// The same for a processor information structure.
pub open spec fn processor_record_len(v: (u8, u8)) -> int {
    if version_at_least(v, 3, 0) {
        44
    } else if version_at_least(v, 2, 6) {
        38
    } else if version_at_least(v, 2, 5) {
        36
    } else if version_at_least(v, 2, 3) {
        31
    } else if version_at_least(v, 2, 1) {
        28
    } else {
        22
    }
}

/// dmidecode decodes the structure of type `t`, whose formatted section after the
/// header is the `n` bytes of `table` from `start`, without reading past that section
/// and without panicking. Per type, as dmidecode decodes it at the table's version:
/// the fixed records of types 0, 1, 2, 4, 7, 8 and 13 are read whole; a cache
/// structure of version 2.0 or below is not decoded at all (it panics); an enclosure
/// multiplies its contained-element count by the record length in a byte; a
/// group-association structure subtracts 5 from its header length; an event log with
/// zero-length descriptors splits into chunks of length zero; a physical memory array
/// reads its capacity fields by position.
pub open spec fn record_fits(v: (u8, u8), t: u8, table: Seq<u8>, start: int, n: int) -> bool {
    if t == 0 {
        n >= bios_record_len(v)
    } else if t == 1 {
        n >= system_record_len(v)
    } else if t == 2 {
        n >= 10
    } else if t == 3 {
        !(n >= 17 && table[start + 15] * table[start + 16] > 255)
    } else if t == 4 {
        n >= processor_record_len(v)
    } else if t == 7 {
        if version_above(v, 3, 1) {
            n >= 23
        } else if version_above(v, 2, 1) {
            n >= 15
        } else if version_above(v, 2, 0) {
            n >= 11
        } else {
            false
        }
    } else if t == 8 {
        n >= 5
    } else if t == 13 {
        n >= if version_at_least(v, 2, 1) { 18int } else { 17int }
    } else if t == 14 {
        n >= 1
    } else if t == 15 {
        !(version_at_least(v, 2, 1) && n == 19 && table[start + 18] == 0)
    } else if t == 16 {
        version_above(v, 2, 1) ==> {
            &&& n >= 11
            &&& (version_above(v, 2, 7) && table[start + 3] == 0 && table[start + 4] == 0
                && table[start + 5] == 0 && table[start + 6] == 0x80 ==> n >= 19)
        }
    } else {
        true
    }
}

/// The position of the first two zero bytes at or after `j` (where a structure's
/// strings end).
pub open spec fn nulnul_from(table: Seq<u8>, j: int) -> Option<int>
    decreases table.len() - j,
{
    if j < 0 || j + 1 >= table.len() {
        None
    } else if table[j] == 0 && table[j + 1] == 0 {
        Some(j)
    } else {
        nulnul_from(table, j + 1)
    }
}

proof fn lemma_nulnul_bounds(table: Seq<u8>, j: int)
    ensures
        nulnul_from(table, j) matches Some(i) ==> j <= i && i + 1 < table.len(),
    decreases table.len() - j,
{
    if !(j < 0 || j + 1 >= table.len()) && !(table[j] == 0 && table[j + 1] == 0) {
        lemma_nulnul_bounds(table, j + 1);
    }
}

/// The structures from position `idx` on, up to the first BIOS structure (or, from
/// SMBIOS 3 on, the end-of-table structure), are framed: each header is at least 4
/// bytes, and each record is long enough for what dmidecode reads. A structure that
/// runs past the table or has no end to its strings ends the walk with an error.
pub open spec fn framed_from(v: (u8, u8), len: int, table: Seq<u8>, idx: int) -> bool
    decreases table.len() - idx,
{
    if idx < 0 || idx + 4 > len || idx + 4 > table.len() {
        true
    } else {
        let t = table[idx];
        let hl = table[idx + 1] as int;
        let s = idx + hl;
        if s >= len {
            true
        } else {
            match nulnul_from(table, s) {
                None => true,
                Some(i) => {
                    &&& hl >= 4
                    &&& record_fits(v, t, table, idx + 4, hl - 4)
                    &&& (t == 0 || (v.0 >= 3 && t == 127) || (i >= idx && i + 1 < table.len() && framed_from(v, len, table, i + 2)))
                },
            }
        }
    }
}

/// A table that dmidecode's structure walk takes safely up to its first BIOS
/// structure: the table length lies within the buffer, the buffer's positions fit in
/// 32 bits, and the structures are framed.
pub open spec fn smbios_framed(v: (u8, u8), len: int, table: Seq<u8>) -> bool {
    &&& len <= table.len()
    &&& table.len() < 0xffff_0000
    &&& framed_from(v, len, table, 0)
}

fn find_nulnul(table: &[u8], from: usize) -> (r: Option<usize>)
    ensures
        match r {
            Some(i) => nulnul_from(table@, from as int) == Some(i as int),
            None => nulnul_from(table@, from as int) is None,
        },
{
    let mut j: usize = from;
    while j < table.len() && j + 1 < table.len()
        invariant
            from <= j,
            nulnul_from(table@, from as int) == nulnul_from(table@, j as int),
        decreases table.len() - j,
    {
        if table[j] == 0 && table[j + 1] == 0 {
            return Some(j);
        }
        j = j + 1;
    }
    None
}

fn at_least(v: (u8, u8), major: u8, minor: u8) -> (r: bool)
    ensures
        r == version_at_least(v, major, minor),
{
    v.0 > major || (v.0 == major && v.1 >= minor)
}

fn above(v: (u8, u8), major: u8, minor: u8) -> (r: bool)
    ensures
        r == version_above(v, major, minor),
{
    v.0 > major || (v.0 == major && v.1 > minor)
}

fn record_fits_exec(v: (u8, u8), t: u8, table: &[u8], start: usize, n: usize) -> (r: bool)
    requires
        start + n <= table@.len(),
        table@.len() < 0xffff_0000,
    ensures
        r == record_fits(v, t, table@, start as int, n as int),
{
    if t == 0 {
        let need: usize = if at_least(v, 3, 1) {
            22
        } else if at_least(v, 2, 4) {
            20
        } else {
            14
        };
        n >= need
    } else if t == 1 {
        let need: usize = if at_least(v, 2, 4) {
            23
        } else if at_least(v, 2, 1) {
            21
        } else {
            4
        };
        n >= need
    } else if t == 2 {
        n >= 10
    } else if t == 3 {
        if n >= 17 {
            let count = table[start + 15] as u32;
            let record_len = table[start + 16] as u32;
            assert(count * record_len <= 255 * 255) by (nonlinear_arith)
                requires
                    count <= 255,
                    record_len <= 255,
            ;
            !(count * record_len > 255)
        } else {
            true
        }
    } else if t == 4 {
        let need: usize = if at_least(v, 3, 0) {
            44
        } else if at_least(v, 2, 6) {
            38
        } else if at_least(v, 2, 5) {
            36
        } else if at_least(v, 2, 3) {
            31
        } else if at_least(v, 2, 1) {
            28
        } else {
            22
        };
        n >= need
    } else if t == 7 {
        if above(v, 3, 1) {
            n >= 23
        } else if above(v, 2, 1) {
            n >= 15
        } else if above(v, 2, 0) {
            n >= 11
        } else {
            false
        }
    } else if t == 8 {
        n >= 5
    } else if t == 13 {
        n >= if at_least(v, 2, 1) { 18 } else { 17 }
    } else if t == 14 {
        n >= 1
    } else if t == 15 {
        !(at_least(v, 2, 1) && n == 19 && table[start + 18] == 0)
    } else if t == 16 {
        if above(v, 2, 1) {
            n >= 11 && (!(above(v, 2, 7) && table[start + 3] == 0 && table[start + 4] == 0
                && table[start + 5] == 0 && table[start + 6] == 0x80) || n >= 19)
        } else {
            true
        }
    } else {
        true
    }
}

/// Whether dmidecode's structure walk takes the table safely up to its first BIOS
/// structure (see `smbios_framed`).
pub fn is_framed(v: (u8, u8), len: u32, table: &[u8]) -> (r: bool)
    ensures
        r == smbios_framed(v, len as int, table@),
{
    if len as usize > table.len() || table.len() >= 0xffff_0000 {
        return false;
    }
    let ln = len as usize;
    let mut idx: usize = 0;
    loop
        invariant
            ln == len,
            ln <= table@.len(),
            table@.len() < 0xffff_0000,
            idx <= table@.len(),
            framed_from(v, len as int, table@, 0) == framed_from(v, len as int, table@, idx as int),
        decreases table@.len() - idx,
    {
        if idx + 4 > ln {
            return true;
        }
        let t = table[idx];
        let hl = table[idx + 1] as usize;
        let s = idx + hl;
        if s >= ln {
            return true;
        }
        match find_nulnul(table, s) {
            None => {
                return true;
            },
            Some(i) => {
                proof {
                    lemma_nulnul_bounds(table@, s as int);
                }
                if hl < 4 || !record_fits_exec(v, t, table, idx + 4, hl - 4) {
                    return false;
                }
                if t == 0 || (v.0 >= 3 && t == 127) {
                    return true;
                }
                idx = i + 2;
            },
        }
    }
}

/// What a list of structures says of the boot mode: the first error, or the first BIOS
/// information structure, decides; BIOS where neither comes.
pub open spec fn boot_mode_of_items(s: Seq<Result<SmbiosStructure, SmbiosError>>) -> Result<BootMode, SmbiosError>
    decreases s.len(),
{
    if s.len() == 0 {
        Ok(BootMode::Bios)
    } else {
        match s[0] {
            Err(e) => Err(e),
            Ok(SmbiosStructure::Bios { characteristics_ext2 }) => Ok(BootMode::from_characteristics(characteristics_ext2)),
            Ok(SmbiosStructure::Other) => boot_mode_of_items(s.drop_first()),
        }
    }
}

/// A structure handed out by dmidecode, its error taken as a malformed structure.
pub open spec fn walk_item(x: Result<SmbiosStructure, dmidecode::MalformedStructureError>) -> Result<SmbiosStructure, SmbiosError> {
    match x {
        Ok(s) => Ok(s),
        Err(_) => Err(SmbiosError::MalformedStructure),
    }
}

pub open spec fn walk_items(s: Seq<Result<SmbiosStructure, dmidecode::MalformedStructureError>>) -> Seq<Result<SmbiosStructure, SmbiosError>> {
    s.map_values(|x: Result<SmbiosStructure, dmidecode::MalformedStructureError>| walk_item(x))
}

/// What the firmware tables say of the boot mode, without EFI firmware in sight: the
/// entry point must be found and the table framed; then its structures decide.
pub open spec fn tables_boot_mode(entry: Seq<u8>, table: Seq<u8>) -> Result<BootMode, SmbiosError> {
    match found_entry_point(entry) {
        None => Err(SmbiosError::NoEntryPoint),
        Some(e) => if smbios_framed(smbios_version(e), smbios_table_len(e) as int, table) {
            boot_mode_of_items(walk_items(table_structures(e, table)))
        } else {
            Err(SmbiosError::Unframed)
        },
    }
}

/// The boot mode a list of structures gives: the first error, or the first BIOS
/// information structure, decides; BIOS when there is none.
pub fn boot_mode_of(s: &[Result<SmbiosStructure, SmbiosError>]) -> (r: Result<BootMode, SmbiosError>)
    ensures
        r == boot_mode_of_items(s@),
{
    let mut i: usize = 0;
    proof {
        assert(s@.skip(0) =~= s@);
    }
    while i < s.len()
        invariant
            i <= s@.len(),
            boot_mode_of_items(s@) == boot_mode_of_items(s@.skip(i as int)),
        decreases s@.len() - i,
    {
        proof {
            assert(s@.skip(i as int).drop_first() =~= s@.skip(i + 1));
        }
        match &s[i] {
            Err(e) => {
                return Err(*e);
            },
            Ok(st) => match BootMode::decided_by(st) {
                Some(m) => {
                    return Ok(m);
                },
                None => {},
            },
        }
        i = i + 1;
    }
    proof {
        assert(s@.skip(i as int).len() == 0);
    }
    Ok(BootMode::Bios)
}

/// The boot mode of the machine: UEFI when EFI firmware is present; else what the
/// SMBIOS tables say, from the entry-point buffer and the table buffer.
pub fn boot_mode_from_firmware(efi_present: bool, entry: &[u8], table: &[u8]) -> (r: Result<BootMode, SmbiosError>)
    ensures
        efi_present ==> r == Ok::<BootMode, SmbiosError>(BootMode::Uefi),
        !efi_present ==> r == tables_boot_mode(entry@, table@),
{
    if efi_present {
        return Ok(BootMode::Uefi);
    }
    let e = match search_entry_point(entry) {
        Ok(e) => e,
        Err(_) => {
            return Err(SmbiosError::NoEntryPoint);
        },
    };
    let v = entry_version(&e);
    let len = entry_table_len(&e);
    if !is_framed(v, len, table) {
        return Err(SmbiosError::Unframed);
    }
    let ghost target = boot_mode_of_items(walk_items(table_structures(e, table@)));
    let mut it = open_structures(&e, table);
    loop
        invariant
            !efi_present,
            walk_sound(it),
            boot_mode_of_items(walk_items(remaining_structures(it))) == target,
            target == tables_boot_mode(entry@, table@),
        decreases remaining_structures(it).len(),
    {
        let ghost before = remaining_structures(it);
        let n = next_structure(&mut it);
        proof {
            if before.len() > 0 {
                assert(walk_items(before).drop_first() =~= walk_items(before.drop_first()));
            }
        }
        match n {
            None => {
                return Ok(BootMode::Bios);
            },
            Some(Err(_)) => {
                return Err(SmbiosError::MalformedStructure);
            },
            Some(Ok(st)) => match BootMode::decided_by(&st) {
                Some(m) => {
                    return Ok(m);
                },
                None => {},
            },
        }
    }
}

/// What a list of structures says of the boot mode, stated over the list itself: when
/// every structure before position `k` is neither a BIOS structure nor an error, the
/// one at `k` decides. A BIOS structure there gives UEFI exactly when bit 3 (0x08) of
/// its second characteristics-extension byte is set, whatever the other bits, and
/// BIOS otherwise or without that byte; an error there is the answer.
pub proof fn lemma_first_decisive_structure(s: Seq<Result<SmbiosStructure, SmbiosError>>, k: int)
    requires
        0 <= k < s.len(),
        forall|j: int| 0 <= j < k ==> #[trigger] s[j] == Ok::<SmbiosStructure, SmbiosError>(SmbiosStructure::Other),
    ensures
        s[k] matches Ok(SmbiosStructure::Bios { characteristics_ext2: Some(v) }) ==> boot_mode_of_items(s) == Ok::<
            BootMode,
            SmbiosError,
        >(if v & 0x08u8 != 0 { BootMode::Uefi } else { BootMode::Bios }),
        s[k] == Ok::<SmbiosStructure, SmbiosError>(SmbiosStructure::Bios { characteristics_ext2: None })
            ==> boot_mode_of_items(s) == Ok::<BootMode, SmbiosError>(BootMode::Bios),
        s[k] matches Err(e) ==> boot_mode_of_items(s) == Err::<BootMode, SmbiosError>(e),
    decreases k,
{
    if k > 0 {
        let rest = s.drop_first();
        assert forall|j: int| 0 <= j < k - 1 implies #[trigger] rest[j] == Ok::<SmbiosStructure, SmbiosError>(
            SmbiosStructure::Other,
        ) by {
            assert(rest[j] == s[j + 1]);
        }
        assert(s[0] == Ok::<SmbiosStructure, SmbiosError>(SmbiosStructure::Other));
        lemma_first_decisive_structure(rest, k - 1);
        assert(rest[k - 1] == s[k]);
    }
}

/// A list with no BIOS structure and no error says BIOS.
pub proof fn lemma_no_bios_structure(s: Seq<Result<SmbiosStructure, SmbiosError>>)
    requires
        forall|j: int| 0 <= j < s.len() ==> #[trigger] s[j] == Ok::<SmbiosStructure, SmbiosError>(SmbiosStructure::Other),
    ensures
        boot_mode_of_items(s) == Ok::<BootMode, SmbiosError>(BootMode::Bios),
    decreases s.len(),
{
    if s.len() > 0 {
        let rest = s.drop_first();
        assert forall|j: int| 0 <= j < rest.len() implies #[trigger] rest[j] == Ok::<SmbiosStructure, SmbiosError>(
            SmbiosStructure::Other,
        ) by {
            assert(rest[j] == s[j + 1]);
        }
        assert(s[0] == Ok::<SmbiosStructure, SmbiosError>(SmbiosStructure::Other));
        lemma_no_bios_structure(rest);
    }
}

/// With EFI firmware absent, `boot_mode_from_firmware` on tables it accepts answers
/// what the first decisive structure of the table says: UEFI exactly when that
/// structure is a BIOS structure whose second extension byte has bit 3 (0x08) set.
pub proof fn lemma_firmware_boot_mode_bit(entry: Seq<u8>, table: Seq<u8>, r: Result<BootMode, SmbiosError>, k: int)
    requires
        r == tables_boot_mode(entry, table),
        found_entry_point(entry) matches Some(e) && smbios_framed(smbios_version(e), smbios_table_len(e) as int, table)
            && 0 <= k < table_structures(e, table).len() && (forall|j: int|
            0 <= j < k ==> #[trigger] table_structures(e, table)[j] matches Ok(SmbiosStructure::Other)),
    ensures
        table_structures(found_entry_point(entry)->0, table)[k] matches Ok(
            SmbiosStructure::Bios { characteristics_ext2: Some(v) },
        ) ==> r == Ok::<BootMode, SmbiosError>(if v & 0x08u8 != 0 { BootMode::Uefi } else { BootMode::Bios }),
{
    let e = found_entry_point(entry)->0;
    let items = table_structures(e, table);
    let w = walk_items(items);
    assert forall|j: int| 0 <= j < k implies #[trigger] w[j] == Ok::<SmbiosStructure, SmbiosError>(SmbiosStructure::Other) by {
        assert(items[j] matches Ok(SmbiosStructure::Other));
    }
    lemma_first_decisive_structure(w, k);
}

} // verus!
