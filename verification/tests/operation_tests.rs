use vmstart::command::{Action, CommandError, Effect};
use vmstart::operation::{Operate, Operation};
use vmstart::profile::Profile;
use vmstart::vm::{VMType, VM, VMS};

fn args(v: &[&str]) -> Vec<String> {
    v.iter().map(|s| s.to_string()).collect()
}

fn op(active: Action) -> Operation {
    let mut vms = VMS::new();
    vms.vms.insert("web".to_string(), VM::new("/vms/web.vmx".to_string(), VMType::VMware));
    Operation::new(Profile("vmstart.conf".to_string()), active, vms)
}

fn strings(v: &[&str]) -> Vec<String> {
    args(v)
}

#[test]
fn get_act_reads_actions() {
    assert_eq!(Operation::get_act(&args(&["vmstart", "start", "web"])), Ok(Action::Start("web".to_string())));
    assert_eq!(Operation::get_act(&args(&["vmstart", "scan"])), Ok(Action::Scan));
    assert_eq!(Operation::get_act(&args(&["vmstart", "list"])), Ok(Action::List));
    assert_eq!(Operation::get_act(&args(&["vmstart"])), Err(CommandError::Usage));
    assert_eq!(Operation::get_act(&args(&["vmstart", "Scan"])), Err(CommandError::Invalid("Scan".to_string())));
}

#[test]
fn dir_list_splits_answer() {
    assert_eq!(Operation::dir_list("/vms,/more\n"), vec!["/vms", "/more"]);
    assert_eq!(Operation::dir_list("/vms\n"), vec!["/vms"]);
    assert_eq!(Operation::dir_list(" /a, /b \n"), vec![" /a", " /b"]);
    assert_eq!(Operation::dir_list("\n"), vec![""]);
}

#[test]
fn operation_new_keeps_fields() {
    let o = op(Action::List);
    assert_eq!(o.profile.0, "vmstart.conf");
    assert_eq!(o.active, Action::List);
    assert_eq!(o.vms.vms.len(), 1);
}

#[test]
fn execute_effects() {
    assert_eq!(op(Action::Start("web".to_string())).execute(), Effect::Vmrun(strings(&["start", "/vms/web.vmx", "nogui"])));
    assert_eq!(op(Action::Stop("web".to_string())).execute(), Effect::Vmrun(strings(&["stop", "/vms/web.vmx", "hard"])));
    assert_eq!(op(Action::Shutdown("web".to_string())).execute(), Effect::Vmrun(strings(&["stop", "/vms/web.vmx", "soft"])));
    assert_eq!(op(Action::Scan).execute(), Effect::Rescan);
    assert_eq!(op(Action::List).execute(), Effect::Show(strings(&["web\t/vms/web.vmx\n"])));
}

#[test]
fn run_finds_machine() {
    let o = op(Action::List);
    assert_eq!(o.run("web").path, "/vms/web.vmx");
}
