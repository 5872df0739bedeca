//! The registry of machines kept under a base directory: building it from the
//! machine directories found there or from the stored JSON configuration,
//! reading the command line, and deciding what each command does.

use vstd::prelude::*;
use crate::command::{parse_args, parse_words, parsed_view, takes_name, Action, ActionSpec, CommandError, Effect, EffectSpec};
use crate::json::{get_member, get_str_member, json_of_text, member, parse_json, str_member, JsonValue};
use crate::scan::{sub_paths, FileEntry, Scan};
use crate::table::{keyed_fold, lemma_keyed_fold_last_wins, VmTable};
use crate::text::{ends_with, first_segment, first_segment_of, has_suffix, last_segment, last_segment_of, string_views};
use crate::vm::{args2, args3, vmrun_args};

verus! {

/// A registered machine: its name and the path of its `.vmx` file.
#[derive(Debug, Clone, PartialEq)]
pub struct VirtualMachine {
    pub name: String,
    pub path: String,
}

impl View for VirtualMachine {
    type V = (Seq<char>, Seq<char>);

    open spec fn view(&self) -> (Seq<char>, Seq<char>) {
        (self.name@, self.path@)
    }
}

/// The `vmrun` command line that is shown, not run, for `verb` on the machine at `path`.
pub open spec fn shown_command(verb: Seq<char>, path: Seq<char>) -> Seq<char> {
    "vmrun "@ + verb + " \""@ + path + "\" nogui"@
}

fn show_command(verb: &str, path: &String) -> (r: String)
    ensures
        r@ == shown_command(verb@, path@),
{
    let mut s = String::from_str("vmrun ");
    s.append(verb);
    s.append(" \"");
    s.append(path.as_str());
    s.append("\" nogui");
    s
}

impl VirtualMachine {
    pub fn new(name: String, path: String) -> (r: Self)
        ensures
            r.name == name,
            r.path == path,
    {
        VirtualMachine { name, path }
    }

    /// `vmrun` arguments `start <path> nogui`.
    pub fn start(&self) -> (r: Vec<String>)
        ensures
            string_views(r@) == vmrun_args("start"@, self.path@, Some("nogui"@)),
    {
        args3("start", &self.path, "nogui")
    }

    /// `vmrun` arguments `stop <path>`.
    pub fn stop(&self) -> (r: Vec<String>)
        ensures
            string_views(r@) == vmrun_args("stop"@, self.path@, None),
    {
        args2("stop", &self.path)
    }

    /// The command line `vmrun shutdown "<path>" nogui`.
    pub fn shutdown(&self) -> (r: String)
        ensures
            r@ == shown_command("shutdown"@, self.path@),
    {
        show_command("shutdown", &self.path)
    }

    /// `vmrun` arguments `reset <path>`.
    pub fn restart(&self) -> (r: Vec<String>)
        ensures
            string_views(r@) == vmrun_args("reset"@, self.path@, None),
    {
        args2("reset", &self.path)
    }

    /// The command line `vmrun reboot "<path>" nogui`.
    pub fn reboot(&self) -> (r: String)
        ensures
            r@ == shown_command("reboot"@, self.path@),
    {
        show_command("reboot", &self.path)
    }

    /// The command line `vmrun poweroff "<path>" nogui`.
    pub fn poweroff(&self) -> (r: String)
        ensures
            r@ == shown_command("poweroff"@, self.path@),
    {
        show_command("poweroff", &self.path)
    }

    /// The command line `vmrun hangup "<path>" nogui`.
    pub fn hangup(&self) -> (r: String)
        ensures
            r@ == shown_command("hangup"@, self.path@),
    {
        show_command("hangup", &self.path)
    }
}

/// A machine directory: its path and the paths of the files in it, in listing order.
#[derive(Debug, Clone)]
pub struct VmDir {
    pub dir: String,
    pub files: Vec<String>,
}

/// Reading the files of a machine directory named `dir_name`: the key the
/// machine is registered under (the directory's name, or the stem of an
/// `.alias` file, the last one read) and the path of its `.vmx` file (the
/// last one read; empty when there is none). Names are taken after the last
/// backslash; the stem is the name up to its first dot.
pub open spec fn alias_state(files: Seq<String>, dir_name: Seq<char>) -> (Seq<char>, Seq<char>)
    decreases files.len(),
{
    if files.len() == 0 {
        (dir_name, Seq::empty())
    } else {
        let st = alias_state(files.drop_last(), dir_name);
        let f = files.last()@;
        if has_suffix(f, ".alias"@) {
            (first_segment(last_segment(f, '\\'), '.'), st.1)
        } else if has_suffix(f, ".vmx"@) {
            (st.0, f)
        } else {
            st
        }
    }
}

/// The entry a machine directory adds to the registry: under its key, a
/// machine named after the directory with the `.vmx` path; none when the
/// directory has no `.vmx` file.
pub open spec fn dir_vm(d: VmDir) -> Option<(Seq<char>, (Seq<char>, Seq<char>))> {
    let name = last_segment(d.dir@, '\\');
    let st = alias_state(d.files@, name);
    if st.1.len() > 0 {
        Some((st.0, (name, st.1)))
    } else {
        None
    }
}

/// The registry that the machine directories give, read in order.
pub open spec fn dirs_vms(dirs: Seq<VmDir>) -> Map<Seq<char>, (Seq<char>, Seq<char>)> {
    keyed_fold(dirs, dir_vm_contribution())
}

/// What one machine directory contributes to the registry.
pub open spec fn dir_vm_contribution() -> spec_fn(VmDir) -> Option<(Seq<char>, (Seq<char>, Seq<char>))> {
    |d: VmDir| dir_vm(d)
}


proof fn lemma_alias_state(files: Seq<String>, dir_name: Seq<char>)
    ensures
        (forall|i: int| 0 <= i < files.len() ==> !has_suffix(#[trigger] files[i]@, ".alias"@))
            ==> alias_state(files, dir_name).0 == dir_name,
        (exists|i: int| 0 <= i < files.len() && has_suffix(#[trigger] files[i]@, ".vmx"@))
            ==> alias_state(files, dir_name).1.len() > 0,
    decreases files.len(),
{
    if files.len() > 0 {
        let t = files.drop_last();
        lemma_alias_state(t, dir_name);
        assert forall|i: int| 0 <= i < t.len() implies t[i] == files[i] by {}
        reveal_strlit(".vmx");
        reveal_strlit(".alias");
        if exists|i: int| 0 <= i < files.len() && has_suffix(#[trigger] files[i]@, ".vmx"@) {
            let i = choose|i: int| 0 <= i < files.len() && has_suffix(#[trigger] files[i]@, ".vmx"@);
            let f = files.last()@;
            if i < t.len() {
                assert(has_suffix(t[i]@, ".vmx"@));
            } else if has_suffix(f, ".vmx"@) {
                assert(f.len() >= 4);
                assert(f.subrange(f.len() - 4, f.len() as int)[3] == f[f.len() - 1]);
                if has_suffix(f, ".alias"@) {
                    assert(f.subrange(f.len() - 6, f.len() as int)[5] == f[f.len() - 1]);
                }
            }
        }
        if forall|i: int| 0 <= i < files.len() ==> !has_suffix(#[trigger] files[i]@, ".alias"@) {
            assert(!has_suffix(files[files.len() - 1]@, ".alias"@));
        }
    }
}

/// A machine directory holding a `.vmx` file is always registered, and the
/// machine keeps the directory's name; it is registered under that name too
/// unless an `.alias` file gives another.
pub proof fn lemma_dir_vm(d: VmDir)
    ensures
        (exists|i: int| 0 <= i < d.files@.len() && has_suffix(#[trigger] d.files@[i]@, ".vmx"@))
            ==> dir_vm(d) is Some,
        dir_vm(d) is Some ==> dir_vm(d)->Some_0.1.0 == last_segment(d.dir@, '\\'),
        dir_vm(d) is Some && (forall|i: int|
            0 <= i < d.files@.len() ==> !has_suffix(#[trigger] d.files@[i]@, ".alias"@))
            ==> dir_vm(d)->Some_0.0 == last_segment(d.dir@, '\\'),
{
    lemma_alias_state(d.files@, last_segment(d.dir@, '\\'));
}

/// Each registered machine is the one that the last machine directory
/// yielding its key describes; a key is registered exactly when some
/// directory yields it.
pub proof fn lemma_registry_last_directory_wins(dirs: Seq<VmDir>, n: Seq<char>)
    ensures
        dirs_vms(dirs).dom().contains(n) <==> exists|i: int|
            0 <= i < dirs.len() && #[trigger] dir_vm(dirs[i]) is Some && dir_vm(dirs[i])->Some_0.0 == n,
        dirs_vms(dirs).dom().contains(n) ==> exists|i: int|
            0 <= i < dirs.len() && #[trigger] dir_vm(dirs[i]) == Some((n, dirs_vms(dirs)[n]))
                && forall|j: int|
                i < j < dirs.len() ==> !(#[trigger] dir_vm(dirs[j]) is Some && dir_vm(dirs[j])->Some_0.0 == n),
{
    let f = dir_vm_contribution();
    lemma_keyed_fold_last_wins(dirs, f, n);
    if exists|i: int| 0 <= i < dirs.len() && #[trigger] dir_vm(dirs[i]) is Some && dir_vm(dirs[i])->Some_0.0 == n {
        let i = choose|i: int| 0 <= i < dirs.len() && #[trigger] dir_vm(dirs[i]) is Some && dir_vm(dirs[i])->Some_0.0 == n;
        assert(f(dirs[i]) is Some);
    }
    if dirs_vms(dirs).dom().contains(n) {
        let i = choose|i: int|
            0 <= i < dirs.len() && #[trigger] f(dirs[i]) == Some((n, keyed_fold(dirs, f)[n]))
                && forall|j: int| i < j < dirs.len() ==> !(#[trigger] f(dirs[j]) is Some && f(dirs[j])->Some_0.0 == n);
        assert(dir_vm(dirs[i]) == Some((n, dirs_vms(dirs)[n])));
        assert forall|j: int| i < j < dirs.len() implies !(#[trigger] dir_vm(dirs[j]) is Some && dir_vm(dirs[j])->Some_0.0 == n) by {
            assert(f(dirs[j]) == dir_vm(dirs[j]));
        }
    } else {
        assert forall|i: int| 0 <= i < dirs.len() implies !(#[trigger] dir_vm(dirs[i]) is Some && dir_vm(dirs[i])->Some_0.0 == n) by {
            assert(f(dirs[i]) == dir_vm(dirs[i]));
        }
    }
}

/// The registry a configuration document gives has one machine per member
/// of its `vms` object, under the member's name.
pub proof fn lemma_conf_vms_keys(doc: JsonValue, n: Seq<char>)
    ensures
        conf_vms(doc).dom().contains(n) <==> match member(doc, "vms"@) {
            Some(JsonValue::Object(members)) => exists|i: int|
                0 <= i < members@.len() && (#[trigger] members@[i]).0@ == n,
            _ => false,
        },
{
    match member(doc, "vms"@) {
        Some(JsonValue::Object(members)) => lemma_members_vms_keys(members@, n),
        _ => {},
    }
}

proof fn lemma_members_vms_keys(members: Seq<(String, JsonValue)>, n: Seq<char>)
    ensures
        members_vms(members).dom().contains(n) <==> exists|i: int|
            0 <= i < members.len() && (#[trigger] members[i]).0@ == n,
{
    let f = member_contribution();
    lemma_keyed_fold_last_wins(members, f, n);
    if exists|i: int| 0 <= i < members.len() && (#[trigger] members[i]).0@ == n {
        let i = choose|i: int| 0 <= i < members.len() && (#[trigger] members[i]).0@ == n;
        assert(f(members[i]) is Some);
    }
    if members_vms(members).dom().contains(n) {
        let i = choose|i: int| 0 <= i < members.len() && #[trigger] f(members[i]) is Some && f(members[i])->Some_0.0 == n;
        assert(members[i].0@ == n);
    }
}

/// The registry: the base directory and the machines by name.
#[derive(Debug)]
pub struct VMS {
    pub basedir: String,
    pub vms: VmTable<VirtualMachine>,
}

impl VMS {
    /// The registry of the machines under `basedir`, given the listing of
    /// `basedir` and the files of each machine directory in it.
    pub fn new(basedir: &str, dirs: &Vec<VmDir>) -> (r: VMS)
        ensures
            r.basedir@ == basedir@,
            r.vms@ == dirs_vms(dirs@),
    {
        VMS { basedir: String::from_str(basedir), vms: VMS::init(dirs) }
    }

    /// The paths of the sub-directories in a listing of the base directory.
    pub fn unwrap_dir(entries: &Vec<FileEntry>) -> (r: Vec<String>)
        ensures
            string_views(r@) == sub_paths(entries@),
    {
        Scan::get_sub_path(entries)
    }

    /// The machines that the machine directories describe.
    pub fn init(dirs: &Vec<VmDir>) -> (r: VmTable<VirtualMachine>)
        ensures
            r@ == dirs_vms(dirs@),
    {
        let mut table: VmTable<VirtualMachine> = VmTable::new();
        let n = dirs.len();
        let mut i: usize = 0;
        while i < n
            invariant
                n == dirs@.len(),
                i <= n,
                table@ == dirs_vms(dirs@.take(i as int)),
            decreases n - i,
        {
            proof {
                assert(dirs@.take(i + 1).drop_last() =~= dirs@.take(i as int));
            }
            let d = &dirs[i];
            let name = last_segment_of(d.dir.as_str(), '\\');
            let mut key = name.clone();
            let mut path = String::new();
            let m = d.files.len();
            let mut j: usize = 0;
            while j < m
                invariant
                    m == d.files@.len(),
                    j <= m,
                    alias_state(d.files@.take(j as int), name@) == (key@, path@),
                decreases m - j,
            {
                proof {
                    assert(d.files@.take(j + 1).drop_last() =~= d.files@.take(j as int));
                }
                let f = d.files[j].as_str();
                if ends_with(f, ".alias") {
                    let file_name = last_segment_of(f, '\\');
                    key = first_segment_of(file_name.as_str(), '.');
                } else if ends_with(f, ".vmx") {
                    path = d.files[j].clone();
                }
                j = j + 1;
            }
            assert(d.files@.take(m as int) =~= d.files@);
            if path.unicode_len() > 0 {
                table.insert(key, VirtualMachine::new(name, path));
            }
            i = i + 1;
        }
        assert(dirs@.take(n as int) =~= dirs@);
        table
    }
}

/// The rescan word of this command line is `Scan`.
pub type Operate = Action;

/// Every member of the `vms` object of a configuration document, if it has
/// one, is an object with string members `name` and `path`.
pub open spec fn entries_complete(doc: JsonValue) -> bool {
    match member(doc, "vms"@) {
        Some(JsonValue::Object(members)) => forall|i: int|
            0 <= i < members@.len() ==> (#[trigger] str_member(members@[i].1, "name"@)).is_some()
                && str_member(members@[i].1, "path"@).is_some(),
        _ => true,
    }
}

/// The base directory a configuration document names: its string member
/// `basedir`, or nothing.
pub open spec fn conf_basedir(doc: JsonValue) -> Seq<char> {
    match str_member(doc, "basedir"@) {
        Some(s) => s,
        None => Seq::empty(),
    }
}

/// The machines of the `vms` members, read in order.
pub open spec fn members_vms(members: Seq<(String, JsonValue)>) -> Map<Seq<char>, (Seq<char>, Seq<char>)> {
    keyed_fold(members, member_contribution())
}

/// What one member of `vms` contributes to the registry.
pub open spec fn member_contribution() -> spec_fn((String, JsonValue)) -> Option<(Seq<char>, (Seq<char>, Seq<char>))> {
    |e: (String, JsonValue)| member_vm(e)
}

/// The machine a member of `vms` stands for, under the member's name.
pub open spec fn member_vm(e: (String, JsonValue)) -> Option<(Seq<char>, (Seq<char>, Seq<char>))> {
    Some((e.0@, (str_member(e.1, "name"@).unwrap(), str_member(e.1, "path"@).unwrap())))
}

/// The machines a configuration document lists.
pub open spec fn conf_vms(doc: JsonValue) -> Map<Seq<char>, (Seq<char>, Seq<char>)> {
    match member(doc, "vms"@) {
        Some(JsonValue::Object(members)) => members_vms(members@),
        _ => Map::empty(),
    }
}

/// Whether every machine in a configuration document has a string name and path.
pub fn vm_entries_complete(doc: &JsonValue) -> (r: bool)
    ensures
        r == entries_complete(*doc),
{
    match get_member(doc, "vms") {
        Some(JsonValue::Object(members)) => {
            let n = members.len();
            let mut i: usize = 0;
            while i < n
                invariant
                    n == members@.len(),
                    member(*doc, "vms"@) == Some(JsonValue::Object(*members)),
                    i <= n,
                    forall|j: int|
                        0 <= j < i ==> (#[trigger] str_member(members@[j].1, "name"@)).is_some()
                            && str_member(members@[j].1, "path"@).is_some(),
                decreases n - i,
            {
                let v = &members[i].1;
                if get_str_member(v, "name").is_none() || get_str_member(v, "path").is_none() {
                    assert(str_member(members@[i as int].1, "name"@).is_none()
                        || str_member(members@[i as int].1, "path"@).is_none());
                    return false;
                }
                i = i + 1;
            }
            true
        },
        _ => true,
    }
}

/// The base directory and the machines of a configuration document whose
/// machines all have a string name and path.
pub fn read_conf(doc: &JsonValue) -> (r: (String, VmTable<VirtualMachine>))
    requires
        entries_complete(*doc),
    ensures
        r.0@ == conf_basedir(*doc),
        r.1@ == conf_vms(*doc),
{
    let basedir = match get_str_member(doc, "basedir") {
        Some(s) => s.clone(),
        None => String::new(),
    };
    let mut table: VmTable<VirtualMachine> = VmTable::new();
    match get_member(doc, "vms") {
        Some(JsonValue::Object(members)) => {
            let n = members.len();
            let mut i: usize = 0;
            while i < n
                invariant
                    n == members@.len(),
                    i <= n,
                    forall|j: int|
                        0 <= j < n ==> (#[trigger] str_member(members@[j].1, "name"@)).is_some()
                            && str_member(members@[j].1, "path"@).is_some(),
                    table@ == members_vms(members@.take(i as int)),
                decreases n - i,
            {
                proof {
                    assert(members@.take(i + 1).drop_last() =~= members@.take(i as int));
                }
                let v = &members[i].1;
                let name = get_str_member(v, "name").unwrap().clone();
                let path = get_str_member(v, "path").unwrap().clone();
                table.insert(members[i].0.clone(), VirtualMachine::new(name, path));
                i = i + 1;
            }
            assert(members@.take(n as int) =~= members@);
        },
        _ => {},
    }
    (basedir, table)
}


/// `doc` has the form the registry is stored in: an object whose `basedir`
/// member is the string `b` and whose `vms` member is an object whose members
/// are objects with the string members `name` and `path`, under each name the
/// entry of `m` of that name, and one at least for each name of `m`.
pub open spec fn stored_form(doc: JsonValue, b: Seq<char>, m: Map<Seq<char>, (Seq<char>, Seq<char>)>) -> bool {
    &&& str_member(doc, "basedir"@) == Some(b)
    &&& match member(doc, "vms"@) {
        Some(JsonValue::Object(ms)) => {
            &&& forall|i: int|
                0 <= i < ms@.len() ==> m.dom().contains((#[trigger] ms@[i]).0@)
                    && str_member(ms@[i].1, "name"@) == Some(m[ms@[i].0@].0)
                    && str_member(ms@[i].1, "path"@) == Some(m[ms@[i].0@].1)
            &&& forall|k: Seq<char>| #[trigger] m.dom().contains(k) ==> exists|i: int|
                0 <= i < ms@.len() && (#[trigger] ms@[i]).0@ == k
        },
        _ => false,
    }
}

/// A document in the stored form reads back as the base directory and the
/// machines it was written from.
pub proof fn lemma_stored_form_reads_back(doc: JsonValue, b: Seq<char>, m: Map<Seq<char>, (Seq<char>, Seq<char>)>)
    requires
        stored_form(doc, b, m),
    ensures
        entries_complete(doc),
        conf_basedir(doc) == b,
        conf_vms(doc) == m,
{
    if let Some(JsonValue::Object(ms)) = member(doc, "vms"@) {
        let s = ms@;
        let f = member_contribution();
        assert forall|n: Seq<char>| #![trigger m.dom().contains(n)] members_vms(s).dom().contains(n) == m.dom().contains(n)
            && (m.dom().contains(n) ==> members_vms(s)[n] == m[n]) by {
            lemma_members_vms_keys(s, n);
            lemma_keyed_fold_last_wins(s, f, n);
            if m.dom().contains(n) {
                let i = choose|i: int|
                    0 <= i < s.len() && #[trigger] f(s[i]) == Some((n, keyed_fold(s, f)[n]))
                        && forall|j: int| i < j < s.len() ==> !(#[trigger] f(s[j]) is Some && f(s[j])->Some_0.0 == n);
                assert(s[i].0@ == n);
            }
            if members_vms(s).dom().contains(n) {
                let i = choose|i: int| 0 <= i < s.len() && (#[trigger] s[i]).0@ == n;
            }
        }
        assert(members_vms(s) =~= m);
    }
}

/// What the stored form of a registry reads back as, from its text: when
/// serde_json parses `text` to a document in the stored form of `b` and `m`,
/// the configuration read from `text` is `b` and `m`.
pub proof fn lemma_stored_text_reads_back(text: Seq<char>, doc: JsonValue, b: Seq<char>, m: Map<Seq<char>, (Seq<char>, Seq<char>)>)
    requires
        json_of_text(text) == Ok::<JsonValue, Seq<char>>(doc),
        stored_form(doc, b, m),
    ensures
        conf_of_text(text) == Ok::<(Seq<char>, Map<Seq<char>, (Seq<char>, Seq<char>)>), Option<Seq<char>>>((b, m)),
{
    lemma_stored_form_reads_back(doc, b, m);
}

/// Why a configuration text gives no registry.
#[derive(Debug, Clone, PartialEq)]
pub enum ConfError {
    /// The text is not JSON; serde_json's error text.
    Parse(String),
    /// A machine of the document lacks a string `name` or `path`.
    Incomplete,
}

/// What a configuration text gives: the base directory and the machines by
/// view, or why there are none.
pub open spec fn conf_of_text(content: Seq<char>) -> Result<(Seq<char>, Map<Seq<char>, (Seq<char>, Seq<char>)>), Option<Seq<char>>> {
    match json_of_text(content) {
        Err(e) => Err(Some(e)),
        Ok(doc) => if entries_complete(doc) {
            Ok((conf_basedir(doc), conf_vms(doc)))
        } else {
            Err(None)
        },
    }
}

/// The outcome of `parse_conf` by views: `Parse` errors by their text,
/// `Incomplete` as nothing.
pub open spec fn conf_view(r: Result<(String, VmTable<VirtualMachine>), ConfError>) -> Result<(Seq<char>, Map<Seq<char>, (Seq<char>, Seq<char>)>), Option<Seq<char>>> {
    match r {
        Ok(p) => Ok((p.0@, p.1@)),
        Err(ConfError::Parse(m)) => Err(Some(m@)),
        Err(ConfError::Incomplete) => Err(None),
    }
}

/// The base directory and the machines of a configuration text.
pub fn parse_conf(content: &str) -> (r: Result<(String, VmTable<VirtualMachine>), ConfError>)
    ensures
        conf_view(r) == conf_of_text(content@),
{
    match parse_json(content) {
        Err(e) => Err(ConfError::Parse(e)),
        Ok(doc) => {
            if vm_entries_complete(&doc) {
                Ok(read_conf(&doc))
            } else {
                Err(ConfError::Incomplete)
            }
        },
    }
}

/// The effect of a command on the registry `vms` (by view and in order).
pub open spec fn command_effect(
    oper: ActionSpec,
    vms: Map<Seq<char>, (Seq<char>, Seq<char>)>,
    items: Seq<(Seq<char>, (Seq<char>, Seq<char>))>,
) -> EffectSpec {
    match oper {
        ActionSpec::Start(n) => if vms.dom().contains(n) {
            EffectSpec::Vmrun(vmrun_args("start"@, vms[n].1, Some("nogui"@)))
        } else {
            EffectSpec::Complain(n)
        },
        ActionSpec::Stop(n) => if vms.dom().contains(n) {
            EffectSpec::Vmrun(vmrun_args("stop"@, vms[n].1, None))
        } else {
            EffectSpec::Complain(n)
        },
        ActionSpec::Shutdown(n) => if vms.dom().contains(n) {
            EffectSpec::Show(seq![shown_command("shutdown"@, vms[n].1)])
        } else {
            EffectSpec::Complain(n)
        },
        ActionSpec::Restart(n) => if vms.dom().contains(n) {
            EffectSpec::Vmrun(vmrun_args("reset"@, vms[n].1, None))
        } else {
            EffectSpec::Complain(n)
        },
        ActionSpec::Poweroff(n) => if vms.dom().contains(n) {
            EffectSpec::Show(seq![shown_command("poweroff"@, vms[n].1)])
        } else {
            EffectSpec::Complain(n)
        },
        ActionSpec::Reboot(n) => if vms.dom().contains(n) {
            EffectSpec::Show(seq![shown_command("reboot"@, vms[n].1)])
        } else {
            EffectSpec::Complain(n)
        },
        ActionSpec::HangUp(n) => if vms.dom().contains(n) {
            EffectSpec::Show(seq![shown_command("hangup"@, vms[n].1)])
        } else {
            EffectSpec::Complain(n)
        },
        ActionSpec::List => EffectSpec::Show(list_lines(items)),
        ActionSpec::Scan => EffectSpec::CreateConfDir,
    }
}

/// One line per machine: its name, a tab and its path.
pub open spec fn list_lines(items: Seq<(Seq<char>, (Seq<char>, Seq<char>))>) -> Seq<Seq<char>> {
    items.map_values(|e: (Seq<char>, (Seq<char>, Seq<char>))| e.0 + seq!['\t'] + e.1.1)
}


/// The key an `.alias` file gives: its name's stem, the name taken after the
/// last backslash and the stem up to the first dot.
pub open spec fn alias_key(f: Seq<char>) -> Seq<char> {
    first_segment(last_segment(f, '\\'), '.')
}

proof fn lemma_alias_state_last(files: Seq<String>, dir_name: Seq<char>)
    ensures
        (exists|i: int| 0 <= i < files.len() && has_suffix(#[trigger] files[i]@, ".alias"@)) ==> exists|i: int|
            0 <= i < files.len() && has_suffix(#[trigger] files[i]@, ".alias"@)
                && alias_state(files, dir_name).0 == alias_key(files[i]@)
                && forall|j: int| i < j < files.len() ==> !has_suffix(#[trigger] files[j]@, ".alias"@),
        (exists|i: int| 0 <= i < files.len() && has_suffix(#[trigger] files[i]@, ".vmx"@)) ==> exists|i: int|
            0 <= i < files.len() && has_suffix(#[trigger] files[i]@, ".vmx"@)
                && alias_state(files, dir_name).1 == files[i]@
                && forall|j: int| i < j < files.len() ==> !has_suffix(#[trigger] files[j]@, ".vmx"@),
    decreases files.len(),
{
    if files.len() > 0 {
        let t = files.drop_last();
        let last = files.len() - 1;
        lemma_alias_state_last(t, dir_name);
        assert(files[last] == files.last());
        assert forall|i: int| 0 <= i < t.len() implies #[trigger] t[i] == files[i] by {}
        let f = files.last()@;
        reveal_strlit(".vmx");
        reveal_strlit(".alias");
        if has_suffix(f, ".vmx"@) && has_suffix(f, ".alias"@) {
            assert(f.subrange(f.len() - 4, f.len() as int)[3] == f[f.len() - 1]);
            assert(f.subrange(f.len() - 6, f.len() as int)[5] == f[f.len() - 1]);
        }
        if !has_suffix(f, ".alias"@) && exists|i: int| 0 <= i < files.len() && has_suffix(#[trigger] files[i]@, ".alias"@) {
            let k = choose|i: int| 0 <= i < files.len() && has_suffix(#[trigger] files[i]@, ".alias"@);
            assert(has_suffix(t[k]@, ".alias"@));
            let i = choose|i: int|
                0 <= i < t.len() && has_suffix(#[trigger] t[i]@, ".alias"@)
                    && alias_state(t, dir_name).0 == alias_key(t[i]@)
                    && forall|j: int| i < j < t.len() ==> !has_suffix(#[trigger] t[j]@, ".alias"@);
            assert(has_suffix(files[i]@, ".alias"@));
            assert forall|j: int| i < j < files.len() implies !has_suffix(#[trigger] files[j]@, ".alias"@) by {
                if j < last {
                    assert(files[j] == t[j]);
                }
            }
        }
        if !has_suffix(f, ".vmx"@) && exists|i: int| 0 <= i < files.len() && has_suffix(#[trigger] files[i]@, ".vmx"@) {
            let k = choose|i: int| 0 <= i < files.len() && has_suffix(#[trigger] files[i]@, ".vmx"@);
            assert(has_suffix(t[k]@, ".vmx"@));
            let i = choose|i: int|
                0 <= i < t.len() && has_suffix(#[trigger] t[i]@, ".vmx"@)
                    && alias_state(t, dir_name).1 == t[i]@
                    && forall|j: int| i < j < t.len() ==> !has_suffix(#[trigger] t[j]@, ".vmx"@);
            assert(has_suffix(files[i]@, ".vmx"@));
            assert forall|j: int| i < j < files.len() implies !has_suffix(#[trigger] files[j]@, ".vmx"@) by {
                if j < last {
                    assert(files[j] == t[j]);
                }
            }
        }
    }
}

/// An `.alias` file renames the machine wherever it stands in the listing:
/// a machine directory holding a `.vmx` file is registered under the stem of
/// its last `.alias` file when it has one, and its machine is the last `.vmx`
/// file, named after the directory.
pub proof fn lemma_dir_vm_named(d: VmDir)
    requires
        exists|i: int| 0 <= i < d.files@.len() && has_suffix(#[trigger] d.files@[i]@, ".vmx"@),
    ensures
        dir_vm(d) is Some,
        dir_vm(d)->Some_0.1.0 == last_segment(d.dir@, '\\'),
        exists|i: int|
            0 <= i < d.files@.len() && has_suffix(#[trigger] d.files@[i]@, ".vmx"@)
                && dir_vm(d)->Some_0.1.1 == d.files@[i]@
                && forall|j: int| i < j < d.files@.len() ==> !has_suffix(#[trigger] d.files@[j]@, ".vmx"@),
        (exists|i: int| 0 <= i < d.files@.len() && has_suffix(#[trigger] d.files@[i]@, ".alias"@)) ==> exists|i: int|
            0 <= i < d.files@.len() && has_suffix(#[trigger] d.files@[i]@, ".alias"@)
                && dir_vm(d)->Some_0.0 == alias_key(d.files@[i]@)
                && forall|j: int| i < j < d.files@.len() ==> !has_suffix(#[trigger] d.files@[j]@, ".alias"@),
{
    lemma_dir_vm(d);
    lemma_alias_state_last(d.files@, last_segment(d.dir@, '\\'));
}

/// The machine a command acts on, if it names one.
pub open spec fn machine_name(a: ActionSpec) -> Option<Seq<char>> {
    match a {
        ActionSpec::Start(n) => Some(n),
        ActionSpec::Stop(n) => Some(n),
        ActionSpec::Shutdown(n) => Some(n),
        ActionSpec::Restart(n) => Some(n),
        ActionSpec::Poweroff(n) => Some(n),
        ActionSpec::Reboot(n) => Some(n),
        ActionSpec::HangUp(n) => Some(n),
        _ => None,
    }
}

/// A command on a machine that is not registered only reports it; on a
/// registered one it runs `vmrun` with, or shows a command line ending in,
/// the path registered under that very name.
pub proof fn lemma_command_effect_machine(
    oper: ActionSpec,
    vms: Map<Seq<char>, (Seq<char>, Seq<char>)>,
    items: Seq<(Seq<char>, (Seq<char>, Seq<char>))>,
)
    requires
        machine_name(oper) is Some,
    ensures
        !vms.dom().contains(machine_name(oper)->Some_0) ==> command_effect(oper, vms, items)
            == EffectSpec::Complain(machine_name(oper)->Some_0),
        vms.dom().contains(machine_name(oper)->Some_0) ==> match command_effect(oper, vms, items) {
            EffectSpec::Vmrun(a) => a.len() >= 2 && a[1] == vms[machine_name(oper)->Some_0].1,
            EffectSpec::Show(l) => l.len() == 1 && exists|p: Seq<char>|
                l[0] == p + vms[machine_name(oper)->Some_0].1 + "\" nogui"@,
            _ => false,
        },
{
    let n = machine_name(oper)->Some_0;
    if vms.dom().contains(n) {
        let path = vms[n].1;
        match command_effect(oper, vms, items) {
            EffectSpec::Show(l) => {
                let verb = match oper {
                    ActionSpec::Shutdown(_) => "shutdown"@,
                    ActionSpec::Poweroff(_) => "poweroff"@,
                    ActionSpec::Reboot(_) => "reboot"@,
                    _ => "hangup"@,
                };
                let p = "vmrun "@ + verb + " \""@;
                assert(l[0] == p + path + "\" nogui"@);
            },
            _ => {},
        }
    }
}

/// The configuration in use: the path of its file and, once loaded, the registry.
#[derive(Debug)]
pub struct Profile(pub String, pub Option<VMS>);

impl Profile {
    /// The profile for the configuration file at `path` holding `content`.
    pub fn new(path: String, content: &str) -> (r: Result<Profile, ConfError>)
        ensures
            match conf_of_text(content@) {
                Ok(c) => r is Ok && r->Ok_0.0@ == path@ && r->Ok_0.1 is Some
                    && r->Ok_0.1->Some_0.basedir@ == c.0 && r->Ok_0.1->Some_0.vms@ == c.1,
                Err(e) => r is Err && conf_view(Err(r->Err_0)) == Err::<(Seq<char>, Map<Seq<char>, (Seq<char>, Seq<char>)>), Option<Seq<char>>>(e),
            },
    {
        match parse_conf(content) {
            Ok((basedir, vms)) => Ok(Profile(path, Some(VMS { basedir, vms }))),
            Err(e) => Err(e),
        }
    }

    /// The loaded registry.
    pub fn get(&self) -> (r: &VMS)
        requires
            self.1 is Some,
        ensures
            *r == self.1->Some_0,
    {
        self.1.as_ref().unwrap()
    }

    /// What the command `oper` does, given the loaded registry.
    pub fn run(&self, oper: Operate) -> (r: Effect)
        requires
            self.1 is Some || oper is Scan,
        ensures
            r@ == command_effect(oper@, self.1->Some_0.vms@, self.1->Some_0.vms.items()),
    {
        if let Action::Scan = oper {
            return Effect::CreateConfDir;
        }
        let vms = &self.get().vms;
        match oper {
            Action::Start(name) => match vms.get(name.as_str()) {
                Some(vm) => Effect::Vmrun(vm.start()),
                None => Effect::Complain(name),
            },
            Action::Stop(name) => match vms.get(name.as_str()) {
                Some(vm) => Effect::Vmrun(vm.stop()),
                None => Effect::Complain(name),
            },
            Action::Shutdown(name) => match vms.get(name.as_str()) {
                Some(vm) => Effect::Show(one_line(vm.shutdown())),
                None => Effect::Complain(name),
            },
            Action::Restart(name) => match vms.get(name.as_str()) {
                Some(vm) => Effect::Vmrun(vm.restart()),
                None => Effect::Complain(name),
            },
            Action::Poweroff(name) => match vms.get(name.as_str()) {
                Some(vm) => Effect::Show(one_line(vm.poweroff())),
                None => Effect::Complain(name),
            },
            Action::Reboot(name) => match vms.get(name.as_str()) {
                Some(vm) => Effect::Show(one_line(vm.reboot())),
                None => Effect::Complain(name),
            },
            Action::HangUp(name) => match vms.get(name.as_str()) {
                Some(vm) => Effect::Show(one_line(vm.hangup())),
                None => Effect::Complain(name),
            },
            Action::List => Effect::Show(list_vms(vms)),
            Action::Scan => Effect::CreateConfDir,
        }
    }
}


/// The listing shows one line per registered machine.
pub proof fn lemma_listing_counts(t: VmTable<VirtualMachine>)
    requires
        t.inv(),
    ensures
        list_lines(t.items()).len() == t@.dom().len(),
{
    crate::table::lemma_inv_distinct(t);
    crate::table::lemma_map_of_len(t.items());
}


/// The listing has a line for every registered machine: its key, a tab and
/// its path.
pub proof fn lemma_listing_shows_every_machine(t: VmTable<VirtualMachine>, name: Seq<char>)
    requires
        t.inv(),
        t@.dom().contains(name),
    ensures
        exists|i: int|
            0 <= i < list_lines(t.items()).len() && #[trigger] list_lines(t.items())[i] == name + seq!['\t'] + t@[name].1,
{
    crate::table::lemma_inv_distinct(t);
    crate::table::lemma_map_of(t.items());
    let i = choose|i: int| 0 <= i < t.items().len() && t.items()[i].0 == name;
    assert(t@[t.items()[i].0] == t.items()[i].1);
    assert(list_lines(t.items())[i] == name + seq!['\t'] + t@[name].1);
}

fn one_line(s: String) -> (r: Vec<String>)
    ensures
        string_views(r@) == seq![s@],
{
    let mut v: Vec<String> = Vec::new();
    v.push(s);
    assert(string_views(v@) =~= seq![s@]);
    v
}

fn list_vms(vms: &VmTable<VirtualMachine>) -> (r: Vec<String>)
    ensures
        string_views(r@) == list_lines(vms.items()),
{
    let n = vms.len();
    let mut lines: Vec<String> = Vec::new();
    let mut i: usize = 0;
    proof {
        reveal_strlit("\t");
    }
    while i < n
        invariant
            n == vms.items().len(),
            i <= n,
            string_views(lines@) == list_lines(vms.items().take(i as int)),
            "\t"@ == seq!['\t'],
        decreases n - i,
    {
        let (name, vm) = vms.entry(i);
        let mut line = name.clone();
        line.append("\t");
        line.append(vm.path.as_str());
        let ghost before = string_views(lines@);
        lines.push(line);
        proof {
            assert(string_views(lines@) =~= before.push(line@));
            assert(list_lines(vms.items().take(i + 1)) =~= list_lines(vms.items().take(i as int)).push(
                line@,
            ));
        }
        i = i + 1;
    }
    assert(vms.items().take(n as int) =~= vms.items());
    lines
}

/// Reads the command line `vmstart <Operate> <VMname>`, where the rescan
/// word is `Scan`.
pub fn parse_command(args: &Vec<String>) -> (r: Result<Operate, CommandError>)
    requires
        args.len() >= 2 && takes_name(args@[1]@) ==> args.len() >= 3,
    ensures
        parsed_view(r) == parse_args(string_views(args@), "Scan"@),
{
    parse_words(args, "Scan")
}

/// The lines to echo for a command line: all its arguments when there are
/// more than two, else none.
pub fn daemon(args: &Vec<String>) -> (r: Vec<String>)
    ensures
        string_views(r@) == (if args@.len() > 2 { string_views(args@) } else { Seq::empty() }),
{
    let mut lines: Vec<String> = Vec::new();
    if args.len() > 2 {
        let n = args.len();
        let mut i: usize = 0;
        while i < n
            invariant
                n == args@.len(),
                i <= n,
                string_views(lines@) == string_views(args@.take(i as int)),
            decreases n - i,
        {
            let ghost before = string_views(lines@);
            lines.push(args[i].clone());
            proof {
                assert(string_views(lines@) =~= before.push(args@[i as int]@));
                assert(string_views(args@.take(i + 1)) =~= before.push(args@[i as int]@));
            }
            i = i + 1;
        }
        assert(args@.take(n as int) =~= args@);
    } else {
        assert(string_views(lines@) =~= Seq::<Seq<char>>::empty());
    }
    lines
}

} // verus!
