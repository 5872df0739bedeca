//! One run of the program: the action asked for, the known machines, and the
//! effect of carrying the action out.

use vstd::prelude::*;
use crate::command::{parse_args, parse_words, parsed_view, takes_name, Action, ActionSpec, CommandError, Effect, EffectSpec};
use crate::profile::Profile;
use crate::text::{split_at, split_seq, string_views, trim_end, trim_end_seq};
use crate::vm::{list_text, vmrun_args, Active, Goods, VM, VMS};

verus! {

/// The program's state for one run.
#[derive(Debug)]
pub struct Operation {
    pub profile: Profile,
    pub active: Action,
    pub vms: VMS,
}

impl Operation {
    pub fn new(profile: Profile, active: Action, vms: VMS) -> (r: Self)
        ensures
            r.profile == profile,
            r.active == active,
            r.vms == vms,
    {
        Self { profile, active, vms }
    }

    /// Reads the command line `vmstart <Operate> <VMname>`, where the rescan
    /// word is `scan`.
    pub fn get_act(args: &Vec<String>) -> (r: Result<Action, CommandError>)
        requires
            args.len() >= 2 && takes_name(args@[1]@) ==> args.len() >= 3,
        ensures
            parsed_view(r) == parse_args(string_views(args@), "scan"@),
    {
        parse_words(args, "scan")
    }

    /// The directories named in an answer to "enter the VMs directory": the
    /// answer without trailing whitespace, split at commas.
    pub fn dir_list(line: &str) -> (r: Vec<String>)
        ensures
            string_views(r@) == split_seq(trim_end_seq(line@), ','),
    {
        let t = trim_end(line);
        split_at(t.as_str(), ',')
    }
}

/// The effect of `active` given the known machines (as a table view and in order).
pub open spec fn execute_effect(
    active: ActionSpec,
    vms: Map<Seq<char>, (Seq<char>, crate::vm::VMType)>,
    text: Seq<char>,
) -> EffectSpec {
    match active {
        ActionSpec::Start(n) => EffectSpec::Vmrun(vmrun_args("start"@, vms[n].0, Some("nogui"@))),
        ActionSpec::Stop(n) => EffectSpec::Vmrun(vmrun_args("stop"@, vms[n].0, Some("hard"@))),
        ActionSpec::Shutdown(n) => EffectSpec::Vmrun(vmrun_args("stop"@, vms[n].0, Some("soft"@))),
        ActionSpec::List => EffectSpec::Show(seq![text]),
        _ => EffectSpec::Rescan,
    }
}


/// Starting, stopping or shutting down a machine runs `vmrun` on the path of
/// the machine known under that very name.
pub proof fn lemma_execute_effect_machine(
    active: ActionSpec,
    vms: Map<Seq<char>, (Seq<char>, crate::vm::VMType)>,
    text: Seq<char>,
)
    ensures
        match active {
            ActionSpec::Start(n) | ActionSpec::Stop(n) | ActionSpec::Shutdown(n) => match execute_effect(active, vms, text) {
                EffectSpec::Vmrun(a) => a.len() == 3 && a[1] == vms[n].0,
                _ => false,
            },
            _ => true,
        },
{
}

/// Carrying out the action of a run.
pub trait Operate {
    /// The action is one that can be carried out here.
    spec fn can_execute(&self) -> bool;

    /// A machine of that name is known.
    spec fn can_run(&self, name: Seq<char>) -> bool;

    fn execute(&self) -> Effect
        requires
            self.can_execute(),
    ;

    fn run(&self, name: &str) -> &VM
        requires
            self.can_run(name@),
    ;
}

impl Operate for Operation {
    /// Start, stop and shutdown need a known machine; list and scan always
    /// work; the other actions are not implemented.
    open spec fn can_execute(&self) -> bool {
        match self.active@ {
            ActionSpec::Start(n) => self.vms.vms@.dom().contains(n),
            ActionSpec::Stop(n) => self.vms.vms@.dom().contains(n),
            ActionSpec::Shutdown(n) => self.vms.vms@.dom().contains(n),
            ActionSpec::List => true,
            ActionSpec::Scan => true,
            _ => false,
        }
    }

    open spec fn can_run(&self, name: Seq<char>) -> bool {
        self.vms.vms@.dom().contains(name)
    }

    /// The effect of the run's action.
    fn execute(&self) -> (r: Effect)
        ensures
            r@ == execute_effect(self.active@, self.vms.vms@, list_text(self.vms.vms.items())),
    {
        match &self.active {
            Action::Start(name) => Effect::Vmrun(self.run(name.as_str()).start()),
            Action::Stop(name) => Effect::Vmrun(self.run(name.as_str()).stop()),
            Action::Shutdown(name) => Effect::Vmrun(self.run(name.as_str()).shutdown()),
            Action::Scan => Effect::Rescan,
            Action::List => {
                let mut lines: Vec<String> = Vec::new();
                lines.push(self.vms.list());
                assert(string_views(lines@) =~= seq![list_text(self.vms.vms.items())]);
                Effect::Show(lines)
            },
            _ => {
                assert(false);
                Effect::Rescan
            },
        }
    }

    /// The known machine named `name`.
    fn run(&self, name: &str) -> (r: &VM)
        ensures
            r@ == self.vms.vms@[name@],
    {
        self.vms.get(name)
    }
}

} // verus!
