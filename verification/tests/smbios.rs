use installer::installer::probe::{BootMode, SmbiosStructure};
use installer::installer::smbios::{boot_mode_from_firmware, boot_mode_of, is_framed, SmbiosError};

/// An SMBIOS 3 entry point (version 3.2) for a table of `table_len` bytes.
fn entry_point(table_len: u32) -> Vec<u8> {
    let mut e = vec![0x5f, 0x53, 0x4d, 0x33, 0x5f, 0, 24, 3, 2, 0, 1, 0];
    e.extend_from_slice(&table_len.to_le_bytes());
    e.extend_from_slice(&0u64.to_le_bytes());
    let sum = e.iter().fold(0u8, |a, b| a.wrapping_add(*b));
    e[5] = 0u8.wrapping_sub(sum);
    e
}

/// An SMBIOS 2 entry point of version `major.minor` for a table of `table_len` bytes.
fn entry_point_v2(major: u8, minor: u8, table_len: u16) -> Vec<u8> {
    let mut e = vec![0x5f, 0x53, 0x4d, 0x5f, 0, 31, major, minor, 0, 0, 0, 0, 0, 0, 0, 0];
    e.extend_from_slice(b"_DMI_");
    e.push(0);
    e.extend_from_slice(&table_len.to_le_bytes());
    e.extend_from_slice(&0u32.to_le_bytes());
    e.extend_from_slice(&1u16.to_le_bytes());
    e.push(0);
    let sum = e.iter().fold(0u8, |a, b| a.wrapping_add(*b));
    e[4] = 0u8.wrapping_sub(sum);
    e
}

/// A structure of type `t` with the given formatted section and no strings.
fn structure(t: u8, data: &[u8]) -> Vec<u8> {
    let mut s = vec![t, 4 + data.len() as u8, 0, 0];
    s.extend_from_slice(data);
    s.extend_from_slice(&[0, 0]);
    s
}

/// A BIOS information structure of SMBIOS 3.1+ (22 bytes of record) with the given
/// second characteristics-extension byte, and no strings.
fn bios_structure(ext2: u8) -> Vec<u8> {
    let mut s = vec![0u8, 26, 0, 0];
    let mut data = vec![0u8; 22];
    data[15] = ext2;
    s.extend_from_slice(&data);
    s.extend_from_slice(&[0, 0]);
    s
}

fn end_structure() -> Vec<u8> {
    vec![127, 4, 0xff, 0xff, 0, 0]
}

fn tables(structures: &[Vec<u8>]) -> (Vec<u8>, Vec<u8>) {
    let table: Vec<u8> = structures.concat();
    (entry_point(table.len() as u32), table)
}

#[test]
fn efi_firmware_is_uefi_without_reading_tables() {
    assert_eq!(boot_mode_from_firmware(true, &[], &[]), Ok(BootMode::Uefi));
}

#[test]
fn missing_entry_point_is_an_error() {
    assert_eq!(boot_mode_from_firmware(false, &[], &[]), Err(SmbiosError::NoEntryPoint));
    assert_eq!(boot_mode_from_firmware(false, &[1, 2, 3, 4], &[]), Err(SmbiosError::NoEntryPoint));
}

#[test]
fn bios_structure_decides_by_uefi_bit() {
    let (e, t) = tables(&[bios_structure(0x08), end_structure()]);
    assert_eq!(boot_mode_from_firmware(false, &e, &t), Ok(BootMode::Uefi));
    let (e, t) = tables(&[bios_structure(0x00), end_structure()]);
    assert_eq!(boot_mode_from_firmware(false, &e, &t), Ok(BootMode::Bios));
    let (e, t) = tables(&[bios_structure(0xf7), end_structure()]);
    assert_eq!(boot_mode_from_firmware(false, &e, &t), Ok(BootMode::Bios));
}

#[test]
fn other_structures_before_bios_are_passed_over() {
    let system_boot = vec![32u8, 11, 1, 0, 0, 0, 0, 0, 0, 0, 0, 0, 0];
    let (e, t) = tables(&[system_boot, bios_structure(0x0c), end_structure()]);
    assert_eq!(boot_mode_from_firmware(false, &e, &t), Ok(BootMode::Uefi));
}

#[test]
fn table_without_bios_structure_is_bios() {
    let (e, t) = tables(&[end_structure()]);
    assert_eq!(boot_mode_from_firmware(false, &e, &t), Ok(BootMode::Bios));
    let (e, t) = tables(&[]);
    assert_eq!(boot_mode_from_firmware(false, &e, &t), Ok(BootMode::Bios));
}

#[test]
fn short_headers_and_records_are_refused() {
    let short_header = vec![32u8, 2, 0, 0, 0, 0];
    let (e, t) = tables(&[short_header, bios_structure(0x08)]);
    assert_eq!(boot_mode_from_firmware(false, &e, &t), Err(SmbiosError::Unframed));
    let short_bios = vec![0u8, 10, 0, 0, 0, 0, 0, 0, 0, 0, 0, 0];
    let (e, t) = tables(&[short_bios]);
    assert_eq!(boot_mode_from_firmware(false, &e, &t), Err(SmbiosError::Unframed));
}

#[test]
fn table_length_beyond_buffer_is_refused() {
    let t = bios_structure(0x08);
    let e = entry_point(t.len() as u32 + 10);
    assert_eq!(boot_mode_from_firmware(false, &e, &t), Err(SmbiosError::Unframed));
}

#[test]
fn framing_check() {
    let t = [bios_structure(0x08), end_structure()].concat();
    assert!(is_framed((3, 2), t.len() as u32, &t));
    assert!(!is_framed((3, 2), t.len() as u32 + 1, &t));
    // a 2.3 BIOS record needs only 14 bytes
    let old_bios = vec![0u8, 18, 0, 0, 0, 0, 0, 0, 0, 0, 0, 0, 0, 0, 0, 0, 0, 0, 0, 0];
    assert!(is_framed((2, 3), old_bios.len() as u32, &old_bios));
    assert!(!is_framed((3, 1), old_bios.len() as u32, &old_bios));
    // an enclosure structure before the BIOS one is decoded as dmidecode decodes it
    let enclosure = vec![3u8, 9, 0, 0, 0, 0, 0, 0, 0, 0, 0];
    let t = [enclosure, bios_structure(0)].concat();
    assert!(is_framed((3, 2), t.len() as u32, &t));
    // but not one whose contained-element size overflows a byte
    let mut big = vec![0u8; 17];
    big[15] = 16;
    big[16] = 16;
    let t = [structure(3, &big), bios_structure(0)].concat();
    assert!(!is_framed((3, 2), t.len() as u32, &t));
}

#[test]
fn enclosure_before_bios_on_smbios_2_0() {
    let table = [structure(3, &[0; 5]), structure(0, &[0; 14])].concat();
    assert_eq!(table.len(), 31);
    let e = entry_point_v2(2, 0, table.len() as u16);
    assert_eq!(boot_mode_from_firmware(false, &e, &table), Ok(BootMode::Bios));
}

#[test]
fn records_are_read_at_the_table_version() {
    // a 2.0 system record is 4 bytes; a 2.4 one is 23
    let table = [structure(1, &[0; 4]), structure(0, &[0; 14])].concat();
    let e = entry_point_v2(2, 0, table.len() as u16);
    assert_eq!(boot_mode_from_firmware(false, &e, &table), Ok(BootMode::Bios));
    let table = [structure(1, &[0; 4]), structure(0, &[0; 20])].concat();
    let e = entry_point_v2(2, 4, table.len() as u16);
    assert_eq!(boot_mode_from_firmware(false, &e, &table), Err(SmbiosError::Unframed));
    // a 2.1 processor record is 28 bytes
    let table = [structure(4, &[0; 28]), structure(0, &[0; 14])].concat();
    let e = entry_point_v2(2, 1, table.len() as u16);
    assert_eq!(boot_mode_from_firmware(false, &e, &table), Ok(BootMode::Bios));
}

#[test]
fn decoders_that_would_panic_are_refused() {
    // dmidecode does not decode a cache structure of SMBIOS 2.0
    let cache = vec![7u8, 15, 0, 0, 0, 0, 0, 0, 0, 0, 0, 0, 0, 0, 0, 0, 0];
    assert!(!is_framed((2, 0), cache.len() as u32, &cache));
    assert!(is_framed((2, 1), cache.len() as u32, &cache));
    // an event log of 2.1 with zero-length descriptors
    let mut log = vec![0u8; 19];
    log[17] = 1;
    let t = structure(15, &log);
    assert!(!is_framed((2, 1), t.len() as u32, &t));
    log[18] = 2;
    let t = structure(15, &log);
    assert!(is_framed((2, 1), t.len() as u32, &t));
    // a physical memory array whose extended capacity is read past its section
    let mut pma = vec![0u8; 11];
    pma[6] = 0x80;
    let t = structure(16, &pma);
    assert!(!is_framed((2, 8), t.len() as u32, &t));
    assert!(is_framed((2, 7), t.len() as u32, &t));
}

#[test]
fn boot_mode_of_structures() {
    assert_eq!(boot_mode_of(&[]), Ok(BootMode::Bios));
    assert_eq!(
        boot_mode_of(&[Ok(SmbiosStructure::Other), Ok(SmbiosStructure::Bios { characteristics_ext2: Some(0x08) })]),
        Ok(BootMode::Uefi)
    );
    assert_eq!(
        boot_mode_of(&[Ok(SmbiosStructure::Bios { characteristics_ext2: None }), Err(SmbiosError::MalformedStructure)]),
        Ok(BootMode::Bios)
    );
    assert_eq!(
        boot_mode_of(&[Ok(SmbiosStructure::Other), Err(SmbiosError::MalformedStructure)]),
        Err(SmbiosError::MalformedStructure)
    );
}
