use vmstart::table::VmTable;
use vmstart::vm::{VMType, VM};

fn vm(path: &str) -> VM {
    VM::new(path.to_string(), VMType::VMware)
}

#[test]
fn empty_table() {
    let t: VmTable<VM> = VmTable::new();
    assert_eq!(t.len(), 0);
    assert!(t.get("a").is_none());
}

#[test]
fn insert_then_get() {
    let mut t = VmTable::new();
    t.insert("a".to_string(), vm("/a.vmx"));
    t.insert("b".to_string(), vm("/b.vmx"));
    assert_eq!(t.len(), 2);
    assert_eq!(t.get("a").unwrap().path, "/a.vmx");
    assert_eq!(t.get("b").unwrap().path, "/b.vmx");
    assert!(t.get("c").is_none());
}

#[test]
fn insert_replaces_in_place() {
    let mut t = VmTable::new();
    t.insert("a".to_string(), vm("/a.vmx"));
    t.insert("b".to_string(), vm("/b.vmx"));
    t.insert("a".to_string(), vm("/a2.vmx"));
    assert_eq!(t.len(), 2);
    assert_eq!(t.get("a").unwrap().path, "/a2.vmx");
    let (name, v) = t.entry(0);
    assert_eq!(name, "a");
    assert_eq!(v.path, "/a2.vmx");
    let (name, _) = t.entry(1);
    assert_eq!(name, "b");
}
