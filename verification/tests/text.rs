use installer::installer::names::sysname_lt;
use installer::text::{has_prefix, has_substring, str_equal};
use installer::utils::first_available;

#[test]
fn prefix_substring_and_equality() {
    assert!(has_prefix("nvme0n1", "nvme"));
    assert!(!has_prefix("nv", "nvme"));
    assert!(has_prefix("vda", ""));
    assert!(has_substring("pci-0000:00:14.0-usb-0:1", "usb"));
    assert!(has_substring("abc", "abc"));
    assert!(has_substring("", ""));
    assert!(!has_substring("ab", "abc"));
    assert!(has_substring("ünïcode-sata", "sata"));
    assert!(str_equal("fc", "fc"));
    assert!(!str_equal("fc", "fcc"));
}

#[test]
fn names_compare_as_string_ord() {
    let cases = ["", "a", "b", "sda", "sda1", "sda10", "sda2", "Sdz", "é", "z"];
    for x in cases {
        for y in cases {
            assert_eq!(sysname_lt(&x.to_string(), &y.to_string()), x < y, "{x} {y}");
        }
    }
}

#[test]
fn explicit_setting_wins() {
    assert_eq!(first_available(Some(1), Some(2)), Some(1));
    assert_eq!(first_available(None, Some(2)), Some(2));
    assert_eq!(first_available::<u8>(None, None), None);
}
