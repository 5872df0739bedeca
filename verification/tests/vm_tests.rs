use vmstart::table::VmTable;
use vmstart::vm::{Active, Goods, VMType, VM, VMS};

fn sample() -> VMS {
    let mut vms = VMS::new();
    vms.vms.insert("web".to_string(), VM::new("/vms/web/web.vmx".to_string(), VMType::VMware));
    vms.vms.insert("db".to_string(), VM::new("/vms/db/db.vmx".to_string(), VMType::VMware));
    vms
}

#[test]
fn vm_new_keeps_fields() {
    let v = VM::new("/p.vmx".to_string(), VMType::VirtualBox);
    assert_eq!(v.path, "/p.vmx");
    assert_eq!(v.vmtype, VMType::VirtualBox);
}

#[test]
fn vms_new_is_empty() {
    let vms = VMS::new();
    assert_eq!(vms.vms.len(), 0);
    let t: VmTable<VM> = VmTable::new();
    assert_eq!(t.len(), vms.vms.len());
}

#[test]
fn active_arguments() {
    let v = VM::new("/vms/web/web.vmx".to_string(), VMType::VMware);
    assert_eq!(v.start(), vec!["start", "/vms/web/web.vmx", "nogui"]);
    assert_eq!(v.stop(), vec!["stop", "/vms/web/web.vmx", "hard"]);
    assert_eq!(v.shutdown(), vec!["stop", "/vms/web/web.vmx", "soft"]);
    assert_eq!(v.restart(), vec!["reset", "/vms/web/web.vmx"]);
    assert_eq!(v.pause(), vec!["pause", "/vms/web/web.vmx"]);
    assert_eq!(v.unpause(), vec!["unpause", "/vms/web/web.vmx"]);
    assert_eq!(v.suspend(), vec!["suspend", "/vms/web/web.vmx"]);
}

#[test]
fn goods_get_and_list() {
    let vms = sample();
    assert_eq!(vms.get("db").path, "/vms/db/db.vmx");
    assert_eq!(vms.list(), "web\t/vms/web/web.vmx\ndb\t/vms/db/db.vmx\n");
    assert_eq!(VMS::new().list(), "");
}
