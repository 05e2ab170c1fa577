use installer::installer::probe::{
    build_tree, sort_children_recursive, BlkidInfo, DiskInfo, DisksInfo, UdevDevice,
};

fn disk(name: &str, parent: Option<&str>) -> DiskInfo {
    let mut d = DiskInfo::default();
    d.sysname = name.to_string();
    d.parent_sysname = parent.map(|p| p.to_string());
    d
}

fn names(ds: &[DiskInfo]) -> Vec<String> {
    ds.iter().map(|d| d.sysname.clone()).collect()
}

#[test]
fn partitions_go_under_their_disks_sorted() {
    let flat = vec![
        disk("sda", Some("0:0:0:0")),
        disk("sda2", Some("sda")),
        disk("nvme0n1p1", Some("nvme0n1")),
        disk("sda1", Some("sda")),
        disk("nvme0n1", Some("nvme0")),
    ];
    let roots = build_tree(flat);
    assert_eq!(names(&roots), vec!["nvme0n1", "sda"]);
    assert_eq!(names(&roots[0].children), vec!["nvme0n1p1"]);
    assert_eq!(names(&roots[1].children), vec!["sda1", "sda2"]);
    assert!(roots[1].children.iter().all(|c| c.children.is_empty()));
}

#[test]
fn devices_without_parent_or_with_missing_parent_stay_roots() {
    let flat = vec![disk("loop0", None), disk("sdb1", Some("sdb")), disk("dm-0", Some("dm"))];
    let roots = build_tree(flat);
    assert_eq!(names(&roots), vec!["dm-0", "loop0", "sdb1"]);
    assert!(roots.iter().all(|r| r.children.is_empty()));
}

#[test]
fn last_device_of_a_name_wins() {
    let mut first = disk("sda", None);
    first.model = Some("old".to_string());
    let mut second = disk("sda", None);
    second.model = Some("new".to_string());
    let roots = build_tree(vec![first, disk("sda1", Some("sda")), second]);
    assert_eq!(roots.len(), 1);
    assert_eq!(roots[0].model.as_deref(), Some("new"));
    assert_eq!(names(&roots[0].children), vec!["sda1"]);
}

#[test]
fn names_sort_by_bytes() {
    let roots = build_tree(vec![disk("sdb", None), disk("sda2", None), disk("sda10", None), disk("Sdz", None)]);
    assert_eq!(names(&roots), vec!["Sdz", "sda10", "sda2", "sdb"]);
}

#[test]
fn every_device_appears_once_in_a_chain() {
    let roots = build_tree(vec![disk("a", Some("b")), disk("b", Some("c")), disk("c", None)]);
    fn all(ds: &[DiskInfo], out: &mut Vec<String>) {
        for d in ds {
            out.push(d.sysname.clone());
            all(&d.children, out);
        }
    }
    let mut seen = Vec::new();
    all(&roots, &mut seen);
    seen.sort();
    assert_eq!(seen, vec!["a", "b", "c"]);
    // b names c, and c names no parent, so b sits under the root c
    let c = roots.iter().find(|r| r.sysname == "c").unwrap();
    assert!(c.children.iter().any(|k| k.sysname == "b"));
}

#[test]
fn empty_input_gives_empty_forest() {
    assert!(build_tree(Vec::new()).is_empty());
}

#[test]
fn children_are_sorted_at_every_level() {
    let mut top = disk("sda", None);
    let mut mid = disk("sda2", Some("sda"));
    mid.children = vec![disk("z", Some("sda2")), disk("b", Some("sda2"))];
    top.children = vec![mid, disk("sda1", Some("sda"))];
    let mut nodes = vec![top];
    sort_children_recursive(&mut nodes);
    assert_eq!(names(&nodes[0].children), vec!["sda1", "sda2"]);
    assert_eq!(names(&nodes[0].children[1].children), vec!["b", "z"]);
}

fn udev(name: &str, devnode: Option<&str>, devtype: &str, parent: Option<&str>) -> UdevDevice {
    UdevDevice {
        sysname: name.to_string(),
        syspath: format!("/sys/block/{name}"),
        devnode: devnode.map(|s| s.to_string()),
        devtype: Some(devtype.to_string()),
        parent_sysname: parent.map(|s| s.to_string()),
        devnum: None,
        properties: Vec::new(),
    }
}

#[test]
fn disks_skip_devices_without_node() {
    let devices = vec![
        (udev("sda", Some("/dev/sda"), "disk", Some("0:0:0:0")), BlkidInfo::default()),
        (udev("sda1", Some("/dev/sda1"), "partition", Some("sda")), BlkidInfo::default()),
        (udev("ghost", None, "disk", None), BlkidInfo::default()),
    ];
    let disks = DisksInfo::from_devices(devices);
    assert_eq!(names(&disks.devices), vec!["sda"]);
    assert_eq!(names(&disks.devices[0].children), vec!["sda1"]);
    assert!(disks.devices[0].is_whole_disk);
    assert!(disks.devices[0].children[0].is_partition);
}

#[test]
fn every_child_names_the_device_it_sits_under() {
    let flat = vec![
        disk("md0", None),
        disk("sdb", Some("host1")),
        disk("sdb1", Some("sdb")),
        disk("sdb2", Some("sdb")),
        disk("sdc1", Some("sdc")),
        disk("sdc", Some("host2")),
    ];
    fn check(ds: &[DiskInfo]) {
        for d in ds {
            for c in &d.children {
                assert_eq!(c.parent_sysname.as_deref(), Some(d.sysname.as_str()));
            }
            check(&d.children);
        }
    }
    fn count(ds: &[DiskInfo]) -> usize {
        ds.iter().map(|d| 1 + count(&d.children)).sum()
    }
    let roots = build_tree(flat);
    check(&roots);
    assert_eq!(count(&roots), 6);
    assert_eq!(names(&roots), vec!["md0", "sdb", "sdc"]);
}

#[test]
fn cloned_forest_is_equal() {
    let mut sda = disk("sda", None);
    sda.model = Some("disk model".to_string());
    sda.children.push(disk("sda1", Some("sda")));
    let report = DisksInfo { devices: vec![sda.clone(), disk("vda", None)] };
    let copy = report.clone();
    assert_eq!(copy, report);
    assert_eq!(sda.clone_tree(), sda);
    assert_eq!(copy.devices[0].children[0].sysname, "sda1");
}

#[test]
fn sorting_children_twice_changes_nothing() {
    let mut sda = disk("sda", None);
    sda.children.push(disk("sda2", Some("sda")));
    sda.children.push(disk("sda10", Some("sda")));
    sda.children.push(disk("sda1", Some("sda")));
    let mut nodes = vec![sda, disk("vda", None)];
    sort_children_recursive(&mut nodes);
    let once = nodes.clone();
    sort_children_recursive(&mut nodes);
    assert_eq!(nodes, once);
    assert_eq!(names(&nodes[0].children), vec!["sda1", "sda10", "sda2"]);
}

#[test]
fn two_devices_naming_each_other_end_up_one_under_the_other() {
    let roots = build_tree(vec![disk("a", Some("b")), disk("b", Some("a"))]);
    assert_eq!(roots.len(), 1);
    assert_eq!(roots[0].children.len(), 1);
    let root_parent = roots[0].parent_sysname.clone().unwrap();
    assert_eq!(roots[0].children[0].sysname, root_parent);
}

#[test]
fn device_naming_itself_stays_a_root() {
    let roots = build_tree(vec![disk("loop0", Some("loop0"))]);
    assert_eq!(names(&roots), vec!["loop0"]);
    assert!(roots[0].children.is_empty());
}
