use vmstart::command::{Action, CommandError, Effect};
use vmstart::json::JsonValue;
use vmstart::registry::{daemon, parse_command, parse_conf, read_conf, vm_entries_complete, ConfError, Profile, VirtualMachine, VmDir, VMS};
use vmstart::scan::FileEntry;

fn s(x: &str) -> String {
    x.to_string()
}

fn strings(v: &[&str]) -> Vec<String> {
    v.iter().map(|x| x.to_string()).collect()
}

fn vm_json(name: &str, path: &str) -> JsonValue {
    JsonValue::Object(vec![(s("name"), JsonValue::Str(s(name))), (s("path"), JsonValue::Str(s(path)))])
}

fn doc() -> JsonValue {
    JsonValue::Object(vec![
        (s("basedir"), JsonValue::Str(s("D:\\vms"))),
        (
            s("vms"),
            JsonValue::Object(vec![
                (s("db"), vm_json("db", "D:\\vms\\db\\db.vmx")),
                (s("web"), vm_json("webdir", "D:\\vms\\webdir\\web.vmx")),
            ]),
        ),
    ])
}

const DOC_TEXT: &str = r#"{"basedir":"D:\\vms","vms":{"db":{"name":"db","path":"D:\\vms\\db\\db.vmx"},"web":{"name":"webdir","path":"D:\\vms\\webdir\\web.vmx"}}}"#;

fn profile() -> Profile {
    Profile::new(s("vmstart.conf"), DOC_TEXT).unwrap()
}

#[test]
fn virtual_machine_commands() {
    let vm = VirtualMachine::new(s("web"), s("D:\\vms\\web.vmx"));
    assert_eq!(vm.name, "web");
    assert_eq!(vm.start(), strings(&["start", "D:\\vms\\web.vmx", "nogui"]));
    assert_eq!(vm.stop(), strings(&["stop", "D:\\vms\\web.vmx"]));
    assert_eq!(vm.restart(), strings(&["reset", "D:\\vms\\web.vmx"]));
    assert_eq!(vm.shutdown(), "vmrun shutdown \"D:\\vms\\web.vmx\" nogui");
    assert_eq!(vm.reboot(), "vmrun reboot \"D:\\vms\\web.vmx\" nogui");
    assert_eq!(vm.poweroff(), "vmrun poweroff \"D:\\vms\\web.vmx\" nogui");
    assert_eq!(vm.hangup(), "vmrun hangup \"D:\\vms\\web.vmx\" nogui");
}

#[test]
fn init_reads_machine_directories() {
    let dirs = vec![
        VmDir { dir: s("D:\\vms\\ubuntu"), files: strings(&["D:\\vms\\ubuntu\\ubuntu.vmx", "D:\\vms\\ubuntu\\ubuntu.nvram"]) },
        VmDir { dir: s("D:\\vms\\win"), files: strings(&["D:\\vms\\win\\desk.top.alias", "D:\\vms\\win\\w.vmx"]) },
        VmDir { dir: s("D:\\vms\\empty"), files: strings(&["D:\\vms\\empty\\x.alias"]) },
    ];
    let vms = VMS::new("D:\\vms", &dirs);
    assert_eq!(vms.basedir, "D:\\vms");
    assert_eq!(vms.vms.len(), 2);
    let u = vms.vms.get("ubuntu").unwrap();
    assert_eq!(u.name, "ubuntu");
    assert_eq!(u.path, "D:\\vms\\ubuntu\\ubuntu.vmx");
    let w = vms.vms.get("desk").unwrap();
    assert_eq!(w.name, "win");
    assert_eq!(w.path, "D:\\vms\\win\\w.vmx");
    assert!(vms.vms.get("win").is_none());
}

#[test]
fn init_later_directory_wins() {
    let dirs = vec![
        VmDir { dir: s("D:\\a\\box"), files: strings(&["D:\\a\\box\\1.vmx"]) },
        VmDir { dir: s("D:\\b\\box"), files: strings(&["D:\\b\\box\\2.vmx"]) },
    ];
    let table = VMS::init(&dirs);
    assert_eq!(table.len(), 1);
    assert_eq!(table.get("box").unwrap().path, "D:\\b\\box\\2.vmx");
}

#[test]
fn unwrap_dir_keeps_directories() {
    let entries = vec![
        FileEntry { file_name: s("a"), path: s("D:\\vms\\a"), is_file: false, is_dir: true },
        FileEntry { file_name: s("f"), path: s("D:\\vms\\f"), is_file: true, is_dir: false },
    ];
    assert_eq!(VMS::unwrap_dir(&entries), strings(&["D:\\vms\\a"]));
}

#[test]
fn read_conf_reads_document() {
    let (basedir, table) = read_conf(&doc());
    assert_eq!(basedir, "D:\\vms");
    assert_eq!(table.len(), 2);
    assert_eq!(table.get("web").unwrap().name, "webdir");
    assert_eq!(table.get("db").unwrap().path, "D:\\vms\\db\\db.vmx");
}

#[test]
fn read_conf_defaults() {
    let (basedir, table) = read_conf(&JsonValue::Object(vec![]));
    assert_eq!(basedir, "");
    assert_eq!(table.len(), 0);
    let odd = JsonValue::Object(vec![(s("basedir"), JsonValue::Number(s("3"))), (s("vms"), JsonValue::Array(vec![]))]);
    let (basedir, table) = read_conf(&odd);
    assert_eq!(basedir, "");
    assert_eq!(table.len(), 0);
    let (basedir, _) = read_conf(&JsonValue::Null);
    assert_eq!(basedir, "");
}

#[test]
fn parse_conf_reads_text() {
    let (basedir, table) = parse_conf(DOC_TEXT).unwrap();
    assert_eq!(basedir, "D:\\vms");
    assert_eq!(table.len(), 2);
    assert_eq!(table.get("web").unwrap().name, "webdir");
    assert_eq!(table.get("db").unwrap().path, "D:\\vms\\db\\db.vmx");
    let (basedir, table) = parse_conf("{\"basedir\": 3, \"vms\": []}").unwrap();
    assert_eq!(basedir, "");
    assert_eq!(table.len(), 0);
    let (basedir, table) = parse_conf("[1, 2.5, null, true]").unwrap();
    assert_eq!(basedir, "");
    assert_eq!(table.len(), 0);
}

#[test]
fn parse_conf_errors() {
    match parse_conf("") {
        Err(ConfError::Parse(m)) => assert_eq!(m, "EOF while parsing a value at line 1 column 0"),
        other => panic!("unexpected {:?}", other.map(|p| p.0)),
    }
    assert!(matches!(parse_conf("{\"vms\": {"), Err(ConfError::Parse(_))));
    assert_eq!(parse_conf("{\"vms\": {\"a\": {\"name\": \"a\"}}}").err(), Some(ConfError::Incomplete));
    assert_eq!(parse_conf("{\"vms\": {\"a\": 7}}").err(), Some(ConfError::Incomplete));
    assert!(matches!(Profile::new(s("p"), "not json"), Err(ConfError::Parse(_))));
    assert_eq!(Profile::new(s("p"), "{\"vms\": {\"a\": {}}}").err().map(|_| ()), Some(()));
}

#[test]
fn run_scan_needs_no_registry() {
    let p = Profile(s("vmstart.conf"), None);
    assert_eq!(p.run(Action::Scan), Effect::CreateConfDir);
}

#[test]
fn entries_complete_check() {
    assert!(vm_entries_complete(&doc()));
    assert!(vm_entries_complete(&JsonValue::Null));
    let missing = JsonValue::Object(vec![(
        s("vms"),
        JsonValue::Object(vec![(s("a"), JsonValue::Object(vec![(s("name"), JsonValue::Str(s("a")))]))]),
    )]);
    assert!(!vm_entries_complete(&missing));
    let not_string = JsonValue::Object(vec![(s("vms"), JsonValue::Object(vec![(s("a"), JsonValue::Object(vec![
        (s("name"), JsonValue::Str(s("a"))),
        (s("path"), JsonValue::Bool(true)),
    ]))]))]);
    assert!(!vm_entries_complete(&not_string));
}

#[test]
fn profile_get_and_run() {
    let p = profile();
    assert_eq!(p.0, "vmstart.conf");
    assert_eq!(p.get().basedir, "D:\\vms");
    assert_eq!(p.run(Action::Start(s("web"))), Effect::Vmrun(strings(&["start", "D:\\vms\\webdir\\web.vmx", "nogui"])));
    assert_eq!(p.run(Action::Stop(s("db"))), Effect::Vmrun(strings(&["stop", "D:\\vms\\db\\db.vmx"])));
    assert_eq!(p.run(Action::Restart(s("db"))), Effect::Vmrun(strings(&["reset", "D:\\vms\\db\\db.vmx"])));
    assert_eq!(p.run(Action::Shutdown(s("db"))), Effect::Show(strings(&["vmrun shutdown \"D:\\vms\\db\\db.vmx\" nogui"])));
    assert_eq!(p.run(Action::Poweroff(s("db"))), Effect::Show(strings(&["vmrun poweroff \"D:\\vms\\db\\db.vmx\" nogui"])));
    assert_eq!(p.run(Action::Reboot(s("db"))), Effect::Show(strings(&["vmrun reboot \"D:\\vms\\db\\db.vmx\" nogui"])));
    assert_eq!(p.run(Action::HangUp(s("db"))), Effect::Show(strings(&["vmrun hangup \"D:\\vms\\db\\db.vmx\" nogui"])));
    assert_eq!(p.run(Action::Start(s("nope"))), Effect::Complain(s("nope")));
    assert_eq!(p.run(Action::HangUp(s("nope"))), Effect::Complain(s("nope")));
    assert_eq!(p.run(Action::List), Effect::Show(strings(&["db\tD:\\vms\\db\\db.vmx", "web\tD:\\vms\\webdir\\web.vmx"])));
    assert_eq!(p.run(Action::Scan), Effect::CreateConfDir);
}

#[test]
fn parse_command_uses_capital_scan() {
    assert_eq!(parse_command(&strings(&["vmstart", "Scan"])), Ok(Action::Scan));
    assert_eq!(parse_command(&strings(&["vmstart", "scan"])), Err(CommandError::Invalid(s("scan"))));
    assert_eq!(parse_command(&strings(&["vmstart", "reboot", "x"])), Ok(Action::Reboot(s("x"))));
    assert_eq!(parse_command(&strings(&["vmstart"])), Err(CommandError::Usage));
}

#[test]
fn daemon_echoes_long_command_lines() {
    assert_eq!(daemon(&strings(&["vmstart", "a", "b"])), strings(&["vmstart", "a", "b"]));
    assert!(daemon(&strings(&["vmstart", "a"])).is_empty());
}

#[test]
fn stored_registry_text_reads_back() {
    let machine = |name: &str, path: &str| {
        let mut m = serde_json::Map::new();
        m.insert(s("name"), serde_json::Value::String(s(name)));
        m.insert(s("path"), serde_json::Value::String(s(path)));
        serde_json::Value::Object(m)
    };
    let mut vms = serde_json::Map::new();
    vms.insert(s("a"), machine("adir", "/vms/adir/a.vmx"));
    vms.insert(s("b"), machine("b", "/vms/b/b.vmx"));
    let mut top = serde_json::Map::new();
    top.insert(s("basedir"), serde_json::Value::String(s("/vms")));
    top.insert(s("vms"), serde_json::Value::Object(vms));
    let text = serde_json::to_string(&serde_json::Value::Object(top)).unwrap();
    let (basedir, table) = parse_conf(&text).unwrap();
    assert_eq!(basedir, "/vms");
    assert_eq!(table.len(), 2);
    assert_eq!(table.get("a").unwrap().name, "adir");
    assert_eq!(table.get("a").unwrap().path, "/vms/adir/a.vmx");
    assert_eq!(table.get("b").unwrap().path, "/vms/b/b.vmx");
}
