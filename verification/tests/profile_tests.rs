use vmstart::profile::{accepts_init, Configuration, Profile};
use vmstart::vm::{VMType, VM, VMS};

#[test]
fn profile_prefers_local_file() {
    assert_eq!(Profile::new(true, "/home/u/.vmstart/vmstart.conf".to_string()).0, "vmstart.conf");
    assert_eq!(Profile::new(false, "/home/u/.vmstart/vmstart.conf".to_string()).0, "/home/u/.vmstart/vmstart.conf");
}

#[test]
fn configuration_new_keeps_fields() {
    let mut vms = VMS::new();
    vms.vms.insert("a".to_string(), VM::new("/a.vmx".to_string(), VMType::VMware));
    let c = Configuration::new(vec!["/vms".to_string()], vms);
    assert_eq!(c.paths, vec!["/vms"]);
    assert_eq!(c.vms.vms.len(), 1);
}

#[test]
fn accepts_init_answers() {
    assert!(accepts_init("y\n"));
    assert!(accepts_init("  yes  \r\n"));
    assert!(!accepts_init("Y\n"));
    assert!(!accepts_init("no\n"));
    assert!(!accepts_init("\n"));
    assert!(!accepts_init("y es"));
}
