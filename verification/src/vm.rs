//! Machines as the scanner finds them, the name-keyed set of them, and the
//! `vmrun` invocations that act on one.

use vstd::prelude::*;
use crate::table::VmTable;
use crate::text::string_views;

verus! {

/// Kind of virtual machine, told apart by its configuration file.
#[derive(Debug, Clone, Copy, PartialEq, Eq, Structural)]
pub enum VMType {
    VMware,
    VirtualBox,
}

/// A machine: the path of its configuration file and its kind.
#[derive(Debug, Clone, PartialEq)]
pub struct VM {
    pub path: String,
    pub vmtype: VMType,
}

impl View for VM {
    type V = (Seq<char>, VMType);

    open spec fn view(&self) -> (Seq<char>, VMType) {
        (self.path@, self.vmtype)
    }
}

impl VM {
    pub fn new(path: String, vmtype: VMType) -> (r: Self)
        ensures
            r.path == path,
            r.vmtype == vmtype,
    {
        Self { path, vmtype }
    }
}

/// The known machines by name.
#[derive(Debug)]
pub struct VMS {
    pub vms: VmTable<VM>,
}

impl VMS {
    /// No machines.
    pub fn new() -> (r: Self)
        ensures
            r.vms@ == Map::<Seq<char>, (Seq<char>, VMType)>::empty(),
            r.vms.items().len() == 0,
    {
        Self { vms: VmTable::new() }
    }
}

/// `vmrun` arguments made of a verb, the machine's path and, where given, a mode.
pub open spec fn vmrun_args(verb: Seq<char>, path: Seq<char>, mode: Option<Seq<char>>) -> Seq<
    Seq<char>,
> {
    match mode {
        Some(m) => seq![verb, path, m],
        None => seq![verb, path],
    }
}


/// The `vmrun` arguments for an action are the verb, then the machine's path
/// unchanged, then the mode where one is given, and nothing else.
pub proof fn lemma_vmrun_args(verb: Seq<char>, path: Seq<char>, mode: Option<Seq<char>>)
    ensures
        vmrun_args(verb, path, mode).len() == (if mode is Some { 3int } else { 2int }),
        vmrun_args(verb, path, mode)[0] == verb,
        vmrun_args(verb, path, mode)[1] == path,
        mode is Some ==> vmrun_args(verb, path, mode)[2] == mode->Some_0,
{
}

/// Two `vmrun` arguments: `verb` and the path.
pub(crate) fn args2(verb: &str, path: &String) -> (r: Vec<String>)
    ensures
        string_views(r@) == vmrun_args(verb@, path@, None),
{
    let mut v: Vec<String> = Vec::new();
    v.push(String::from_str(verb));
    v.push(path.clone());
    assert(string_views(v@) =~= vmrun_args(verb@, path@, None));
    v
}

/// Three `vmrun` arguments: `verb`, the path and `mode`.
pub(crate) fn args3(verb: &str, path: &String, mode: &str) -> (r: Vec<String>)
    ensures
        string_views(r@) == vmrun_args(verb@, path@, Some(mode@)),
{
    let mut v: Vec<String> = Vec::new();
    v.push(String::from_str(verb));
    v.push(path.clone());
    v.push(String::from_str(mode));
    assert(string_views(v@) =~= vmrun_args(verb@, path@, Some(mode@)));
    v
}

/// What can be done to a machine: each method gives the arguments for `vmrun`
/// that carry it out.
pub trait Active {
    fn start(&self) -> Vec<String>;

    fn stop(&self) -> Vec<String>;

    fn shutdown(&self) -> Vec<String>;

    fn restart(&self) -> Vec<String>;

    fn pause(&self) -> Vec<String>;

    fn unpause(&self) -> Vec<String>;

    fn suspend(&self) -> Vec<String>;
}

impl Active for VM {
    /// `start <path> nogui`
    fn start(&self) -> (r: Vec<String>)
        ensures
            string_views(r@) == vmrun_args("start"@, self.path@, Some("nogui"@)),
    {
        args3("start", &self.path, "nogui")
    }

    /// `stop <path> hard`
    fn stop(&self) -> (r: Vec<String>)
        ensures
            string_views(r@) == vmrun_args("stop"@, self.path@, Some("hard"@)),
    {
        args3("stop", &self.path, "hard")
    }

    /// `stop <path> soft`
    fn shutdown(&self) -> (r: Vec<String>)
        ensures
            string_views(r@) == vmrun_args("stop"@, self.path@, Some("soft"@)),
    {
        args3("stop", &self.path, "soft")
    }

    /// `reset <path>`
    fn restart(&self) -> (r: Vec<String>)
        ensures
            string_views(r@) == vmrun_args("reset"@, self.path@, None),
    {
        args2("reset", &self.path)
    }

    /// `pause <path>`
    fn pause(&self) -> (r: Vec<String>)
        ensures
            string_views(r@) == vmrun_args("pause"@, self.path@, None),
    {
        args2("pause", &self.path)
    }

    /// `unpause <path>`
    fn unpause(&self) -> (r: Vec<String>)
        ensures
            string_views(r@) == vmrun_args("unpause"@, self.path@, None),
    {
        args2("unpause", &self.path)
    }

    /// `suspend <path>`
    fn suspend(&self) -> (r: Vec<String>)
        ensures
            string_views(r@) == vmrun_args("suspend"@, self.path@, None),
    {
        args2("suspend", &self.path)
    }
}

/// The listing of machines: one line per machine, its name, a tab and its path.
pub open spec fn list_text(items: Seq<(Seq<char>, (Seq<char>, VMType))>) -> Seq<char>
    decreases items.len(),
{
    if items.len() == 0 {
        Seq::empty()
    } else {
        list_text(items.drop_last()) + items.last().0 + seq!['\t'] + items.last().1.0 + seq!['\n']
    }
}


/// The line the listing shows for a machine.
pub open spec fn list_line(name: Seq<char>, path: Seq<char>) -> Seq<char> {
    name + seq!['\t'] + path + seq!['\n']
}

proof fn lemma_list_text_holds_line(items: Seq<(Seq<char>, (Seq<char>, VMType))>, i: int)
    requires
        0 <= i < items.len(),
    ensures
        exists|off: int|
            0 <= off && off + list_line(items[i].0, items[i].1.0).len() <= list_text(items).len()
                && #[trigger] list_text(items).subrange(off, off + list_line(items[i].0, items[i].1.0).len())
                =~= list_line(items[i].0, items[i].1.0),
    decreases items.len(),
{
    let t = items.drop_last();
    let last = items.len() - 1;
    let pre = list_text(t);
    let l = list_line(items[i].0, items[i].1.0);
    assert(list_text(items) =~= pre + list_line(items.last().0, items.last().1.0));
    if i == last {
        let off = pre.len() as int;
        assert(list_text(items).subrange(off, off + l.len()) =~= l);
    } else {
        lemma_list_text_holds_line(t, i);
        assert(items[i] == t[i]);
        let off = choose|off: int|
            0 <= off && off + l.len() <= pre.len() && #[trigger] pre.subrange(off, off + l.len()) =~= l;
        assert(list_text(items).subrange(off, off + l.len()) =~= pre.subrange(off, off + l.len()));
    }
}

/// The listing shows every known machine: for each name, a line with the
/// name, a tab and the machine's path.
pub proof fn lemma_list_shows_every_machine(t: VmTable<VM>, name: Seq<char>)
    requires
        t.inv(),
        t@.dom().contains(name),
    ensures
        exists|off: int|
            0 <= off && off + list_line(name, t@[name].0).len() <= list_text(t.items()).len()
                && #[trigger] list_text(t.items()).subrange(off, off + list_line(name, t@[name].0).len())
                =~= list_line(name, t@[name].0),
{
    crate::table::lemma_inv_distinct(t);
    crate::table::lemma_map_of(t.items());
    let i = choose|i: int| 0 <= i < t.items().len() && t.items()[i].0 == name;
    lemma_list_text_holds_line(t.items(), i);
    assert(t@[t.items()[i].0] == t.items()[i].1);
}

/// Looking machines up by name and listing them.
pub trait Goods {
    /// A machine of that name is known.
    spec fn holds(&self, name: Seq<char>) -> bool;

    fn get(&self, name: &str) -> &VM
        requires
            self.holds(name@),
    ;

    fn list(&self) -> String;
}

impl Goods for VMS {
    open spec fn holds(&self, name: Seq<char>) -> bool {
        self.vms@.dom().contains(name)
    }

    /// The machine named `name`.
    fn get(&self, name: &str) -> (r: &VM)
        ensures
            r@ == self.vms@[name@],
    {
        self.vms.get(name).unwrap()
    }

    /// One line `name\tpath\n` per machine, in the table's order.
    fn list(&self) -> (r: String)
        ensures
            r@ == list_text(self.vms.items()),
    {
        let n = self.vms.len();
        let mut out = String::new();
        let mut i: usize = 0;
        proof {
            reveal_strlit("\t");
            reveal_strlit("\n");
        }
        while i < n
            invariant
                n == self.vms.items().len(),
                i <= n,
                out@ == list_text(self.vms.items().take(i as int)),
                "\t"@ == seq!['\t'],
                "\n"@ == seq!['\n'],
            decreases n - i,
        {
            let (name, vm) = self.vms.entry(i);
            out.append(name.as_str());
            out.append("\t");
            out.append(vm.path.as_str());
            out.append("\n");
            proof {
                let t = self.vms.items().take(i + 1);
                assert(t.drop_last() =~= self.vms.items().take(i as int));
            }
            i = i + 1;
        }
        assert(self.vms.items().take(n as int) =~= self.vms.items());
        out
    }
}

} // verus!
