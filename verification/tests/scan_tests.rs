use vmstart::scan::{FileEntry, Scan};
use vmstart::vm::{Goods, VMType};

fn file(dir: &str, name: &str) -> FileEntry {
    FileEntry { file_name: name.to_string(), path: format!("{}/{}", dir, name), is_file: true, is_dir: false }
}

fn sub(dir: &str, name: &str) -> FileEntry {
    FileEntry { file_name: name.to_string(), path: format!("{}/{}", dir, name), is_file: false, is_dir: true }
}

#[test]
fn get_type_by_file_name() {
    assert_eq!(Scan::get_type("ubuntu.vmx"), VMType::VMware);
    assert_eq!(Scan::get_type("ubuntu.vbox"), VMType::VirtualBox);
    assert_eq!(Scan::get_type("vmx"), VMType::VirtualBox);
}

#[test]
fn get_sub_path_keeps_directories() {
    let entries = vec![sub("/vms", "a"), file("/vms", "notes.txt"), sub("/vms", "b")];
    assert_eq!(Scan::get_sub_path(&entries), vec!["/vms/a", "/vms/b"]);
    assert!(Scan::get_sub_path(&vec![]).is_empty());
}

#[test]
fn get_vm_named_after_vmx() {
    let entries = vec![file("/vms/a", "ubuntu.vmx"), file("/vms/a", "ubuntu.nvram")];
    let (name, vm) = Scan::get_vm(&entries).unwrap();
    assert_eq!(name, "ubuntu");
    assert_eq!(vm.path, "/vms/a/ubuntu.vmx");
    assert_eq!(vm.vmtype, VMType::VMware);
}

#[test]
fn get_vm_alias_renames_in_any_order() {
    let entries = vec![file("/vms/a", "ubuntu.vmx"), file("/vms/a", "web.alias")];
    assert_eq!(Scan::get_vm(&entries).unwrap().0, "web");
    let entries = vec![file("/vms/a", "web.alias"), file("/vms/a", "ubuntu.vmx")];
    assert_eq!(Scan::get_vm(&entries).unwrap().0, "web");
}

#[test]
fn get_vm_needs_vmx_and_name() {
    assert!(Scan::get_vm(&vec![file("/vms/a", "web.alias")]).is_none());
    assert!(Scan::get_vm(&vec![]).is_none());
    assert!(Scan::get_vm(&vec![file("/vms/a", ".vmx")]).is_none());
    // a directory entry named like a .vmx file does not count
    assert!(Scan::get_vm(&vec![sub("/vms/a", "x.vmx")]).is_none());
}

#[test]
fn get_vm_empty_alias_stem_lets_vmx_name() {
    let entries = vec![file("/vms/a", ".alias"), file("/vms/a", "box.vmx")];
    assert_eq!(Scan::get_vm(&entries).unwrap().0, "box");
}

#[test]
fn get_vm_last_vmx_is_configuration() {
    let entries = vec![file("/vms/a", "one.vmx"), file("/vms/a", "two.vmx")];
    let (name, vm) = Scan::get_vm(&entries).unwrap();
    assert_eq!(name, "one");
    assert_eq!(vm.path, "/vms/a/two.vmx");
}

#[test]
fn get_vms_later_directory_wins() {
    let dirs = vec![
        vec![file("/x/a", "web.vmx")],
        vec![file("/x/b", "db.vmx")],
        vec![file("/x/c", "other.vmx"), file("/x/c", "web.alias")],
        vec![file("/x/d", "readme.txt")],
    ];
    let vms = Scan::get_vms(&dirs);
    assert_eq!(vms.vms.len(), 2);
    assert_eq!(vms.get("web").path, "/x/c/other.vmx");
    assert_eq!(vms.get("db").path, "/x/b/db.vmx");
    assert_eq!(vms.get("web").vmtype, VMType::VMware);
}

#[test]
fn get_vm_naming_rule() {
    // last alias stem wins
    let entries = vec![file("/d", "a.alias"), file("/d", "m.vmx"), file("/d", "b.alias"), file("/d", "n.vmx")];
    assert_eq!(Scan::get_vm(&entries).unwrap().0, "b");
    // no alias: first vmx stem
    let entries = vec![file("/d", "first.vmx"), file("/d", "second.vmx")];
    assert_eq!(Scan::get_vm(&entries).unwrap().0, "first");
}

#[test]
fn get_vms_of_joined_lists() {
    let a = vec![vec![file("/x/a", "web.vmx")], vec![file("/x/b", "db.vmx")]];
    let b = vec![vec![file("/y/a", "web.vmx")], vec![file("/y/c", "mail.vmx")]];
    let mut ab = a.clone();
    ab.extend(b.clone());
    let joined = Scan::get_vms(&ab);
    let first = Scan::get_vms(&a);
    let second = Scan::get_vms(&b);
    assert_eq!(joined.vms.len(), 3);
    assert_eq!(joined.get("web").path, second.get("web").path);
    assert_eq!(joined.get("db").path, first.get("db").path);
    assert_eq!(joined.get("mail").path, second.get("mail").path);
}
