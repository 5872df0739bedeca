//! Finding machines in directory listings: which sub-directories to look in,
//! what a directory's files say about the machine in it, and the set of
//! machines that a series of directories yields.

use vstd::prelude::*;
use crate::table::{keyed_fold, lemma_keyed_fold_concat, lemma_keyed_fold_last_wins};
use crate::text::{ends_with, first_segment, first_segment_of, has_suffix, string_views};
use crate::vm::{VMType, VM, VMS};

verus! {

/// One entry of a directory listing, as the file system reported it.
#[derive(Debug, Clone)]
pub struct FileEntry {
    /// The entry's own name.
    pub file_name: String,
    /// The full path of the entry.
    pub path: String,
    /// The entry is a regular file.
    pub is_file: bool,
    /// The entry is a directory.
    pub is_dir: bool,
}

/// The kind of machine a configuration file of this name belongs to.
pub open spec fn type_of(file_name: Seq<char>) -> VMType {
    if has_suffix(file_name, ".vmx"@) {
        VMType::VMware
    } else {
        VMType::VirtualBox
    }
}

/// Paths of the entries that are directories, in listing order.
pub open spec fn sub_paths(entries: Seq<FileEntry>) -> Seq<Seq<char>>
    decreases entries.len(),
{
    if entries.len() == 0 {
        Seq::empty()
    } else {
        let rest = sub_paths(entries.drop_last());
        if entries.last().is_dir {
            rest.push(entries.last().path@)
        } else {
            rest
        }
    }
}

/// What reading one more entry does to the machine's name so far and to the
/// configuration file chosen so far (its path and its name): a `.vmx` file
/// becomes the configuration and names the machine when it has no name yet;
/// an `.alias` file renames it. The name is the file name up to its first dot.
pub open spec fn scan_step(
    state: (Seq<char>, Option<(Seq<char>, Seq<char>)>),
    e: FileEntry,
) -> (Seq<char>, Option<(Seq<char>, Seq<char>)>) {
    if !e.is_file {
        state
    } else {
        let f = e.file_name@;
        let stem = first_segment(f, '.');
        let after_vmx = if has_suffix(f, ".vmx"@) {
            (if state.0.len() == 0 { stem } else { state.0 }, Some((e.path@, f)))
        } else {
            state
        };
        if has_suffix(f, ".alias"@) {
            (stem, after_vmx.1)
        } else {
            after_vmx
        }
    }
}

/// The state after reading all entries in order.
pub open spec fn scan_state(entries: Seq<FileEntry>) -> (Seq<char>, Option<(Seq<char>, Seq<char>)>)
    decreases entries.len(),
{
    if entries.len() == 0 {
        (Seq::empty(), None)
    } else {
        scan_step(scan_state(entries.drop_last()), entries.last())
    }
}

/// The machine that a directory's entries describe, by name and view, if any:
/// one needs both a nonempty name and a configuration file.
pub open spec fn vm_found(entries: Seq<FileEntry>) -> Option<(Seq<char>, (Seq<char>, VMType))> {
    let st = scan_state(entries);
    match st.1 {
        Some(conf) => if st.0.len() > 0 {
            Some((st.0, (conf.0, type_of(conf.1))))
        } else {
            None
        },
        None => None,
    }
}

/// The machines that a series of directories yields; a later directory's
/// machine replaces an earlier one of the same name.
pub open spec fn vms_found(dirs: Seq<Vec<FileEntry>>) -> Map<Seq<char>, (Seq<char>, VMType)> {
    keyed_fold(dirs, dir_contribution())
}

/// What one directory's listing contributes to the scan.
pub open spec fn dir_contribution() -> spec_fn(Vec<FileEntry>) -> Option<(Seq<char>, (Seq<char>, VMType))> {
    |d: Vec<FileEntry>| vm_found(d@)
}


proof fn lemma_scan_conf_is_vmx(entries: Seq<FileEntry>)
    ensures
        scan_state(entries).1 is Some ==> has_suffix(scan_state(entries).1->Some_0.1, ".vmx"@),
    decreases entries.len(),
{
    if entries.len() > 0 {
        lemma_scan_conf_is_vmx(entries.drop_last());
    }
}

/// A directory is recognised only by a `.vmx` file, so every machine the scan
/// finds is a VMware machine whose path is that of a `.vmx` file.
pub proof fn lemma_scan_finds_vmware(dirs: Seq<Vec<FileEntry>>)
    ensures
        forall|n: Seq<char>|
            #![trigger vms_found(dirs)[n]]
            vms_found(dirs).dom().contains(n) ==> vms_found(dirs)[n].1 == VMType::VMware,
    decreases dirs.len(),
{
    if dirs.len() > 0 {
        lemma_scan_finds_vmware(dirs.drop_last());
        lemma_scan_conf_is_vmx(dirs.last()@);
    }
}

/// Each machine the scan finds under a name is the one that the last
/// directory yielding that name describes; a name is found exactly when some
/// directory yields it.
pub proof fn lemma_scan_last_directory_wins(dirs: Seq<Vec<FileEntry>>, n: Seq<char>)
    ensures
        vms_found(dirs).dom().contains(n) <==> exists|i: int|
            0 <= i < dirs.len() && #[trigger] vm_found(dirs[i]@) is Some && vm_found(dirs[i]@)->Some_0.0 == n,
        vms_found(dirs).dom().contains(n) ==> exists|i: int|
            0 <= i < dirs.len() && #[trigger] vm_found(dirs[i]@) == Some((n, vms_found(dirs)[n]))
                && forall|j: int|
                i < j < dirs.len() ==> !(#[trigger] vm_found(dirs[j]@) is Some && vm_found(dirs[j]@)->Some_0.0 == n),
{
    let f = dir_contribution();
    lemma_keyed_fold_last_wins(dirs, f, n);
    assert forall|i: int| 0 <= i < dirs.len() implies #[trigger] f(dirs[i]) == vm_found(dirs[i]@) by {}
    if exists|i: int| 0 <= i < dirs.len() && #[trigger] vm_found(dirs[i]@) is Some && vm_found(dirs[i]@)->Some_0.0 == n {
        let i = choose|i: int| 0 <= i < dirs.len() && #[trigger] vm_found(dirs[i]@) is Some && vm_found(dirs[i]@)->Some_0.0 == n;
        assert(f(dirs[i]) is Some);
    }
    if vms_found(dirs).dom().contains(n) {
        let i = choose|i: int|
            0 <= i < dirs.len() && #[trigger] f(dirs[i]) == Some((n, keyed_fold(dirs, f)[n]))
                && forall|j: int| i < j < dirs.len() ==> !(#[trigger] f(dirs[j]) is Some && f(dirs[j])->Some_0.0 == n);
        assert(vm_found(dirs[i]@) == Some((n, vms_found(dirs)[n])));
        assert forall|j: int| i < j < dirs.len() implies !(#[trigger] vm_found(dirs[j]@) is Some && vm_found(dirs[j]@)->Some_0.0 == n) by {
            assert(f(dirs[j]) == vm_found(dirs[j]@));
        }
    } else {
        assert forall|i: int| 0 <= i < dirs.len() implies !(#[trigger] vm_found(dirs[i]@) is Some && vm_found(dirs[i]@)->Some_0.0 == n) by {
            assert(f(dirs[i]) == vm_found(dirs[i]@));
        }
    }
}


/// The entry is a file whose name ends in `.alias`.
pub open spec fn is_alias_file(e: FileEntry) -> bool {
    e.is_file && has_suffix(e.file_name@, ".alias"@)
}

/// The entry is a file whose name ends in `.vmx`.
pub open spec fn is_vmx_file(e: FileEntry) -> bool {
    e.is_file && has_suffix(e.file_name@, ".vmx"@)
}

proof fn lemma_vmx_not_alias(f: Seq<char>)
    ensures
        has_suffix(f, ".vmx"@) ==> !has_suffix(f, ".alias"@),
{
    reveal_strlit(".vmx");
    reveal_strlit(".alias");
    if has_suffix(f, ".vmx"@) && has_suffix(f, ".alias"@) {
        assert(f.subrange(f.len() - 4, f.len() as int)[3] == f[f.len() - 1]);
        assert(f.subrange(f.len() - 6, f.len() as int)[5] == f[f.len() - 1]);
    }
}

/// How a machine directory names its machine, where every `.vmx` and
/// `.alias` file has a name that does not start with a dot: after the stem
/// of the last `.alias` file when there is one, else after the stem of the
/// first `.vmx` file; with neither, the machine has no name.
pub proof fn lemma_scan_naming(entries: Seq<FileEntry>)
    requires
        forall|i: int|
            0 <= i < entries.len() && (is_alias_file(entries[i]) || is_vmx_file(entries[i]))
                ==> first_segment(#[trigger] entries[i].file_name@, '.').len() > 0,
    ensures
        (exists|i: int| 0 <= i < entries.len() && is_alias_file(#[trigger] entries[i])) ==> exists|i: int|
            0 <= i < entries.len() && is_alias_file(#[trigger] entries[i])
                && scan_state(entries).0 == first_segment(entries[i].file_name@, '.')
                && forall|j: int| i < j < entries.len() ==> !is_alias_file(#[trigger] entries[j]),
        (forall|i: int| 0 <= i < entries.len() ==> !is_alias_file(#[trigger] entries[i]))
            && (exists|i: int| 0 <= i < entries.len() && is_vmx_file(#[trigger] entries[i])) ==> exists|i: int|
            0 <= i < entries.len() && is_vmx_file(#[trigger] entries[i])
                && scan_state(entries).0 == first_segment(entries[i].file_name@, '.')
                && forall|j: int| 0 <= j < i ==> !is_vmx_file(#[trigger] entries[j]),
        (forall|i: int| 0 <= i < entries.len() ==> !is_alias_file(#[trigger] entries[i]) && !is_vmx_file(entries[i]))
            ==> scan_state(entries).0.len() == 0,
    decreases entries.len(),
{
    if entries.len() > 0 {
        let t = entries.drop_last();
        let last = entries.len() - 1;
        let x = entries[last];
        assert(x == entries.last());
        assert forall|i: int| 0 <= i < t.len() implies #[trigger] t[i] == entries[i] by {}
        assert forall|i: int|
            0 <= i < t.len() && (is_alias_file(t[i]) || is_vmx_file(t[i]))
                implies first_segment(#[trigger] t[i].file_name@, '.').len() > 0 by {
            assert(t[i] == entries[i]);
        }
        lemma_scan_naming(t);
        lemma_vmx_not_alias(x.file_name@);
        let st = scan_state(t);
        if is_alias_file(x) {
        } else if is_vmx_file(x) {
            if exists|i: int| 0 <= i < t.len() && is_alias_file(#[trigger] t[i]) {
                let i = choose|i: int|
                    0 <= i < t.len() && is_alias_file(#[trigger] t[i])
                        && st.0 == first_segment(t[i].file_name@, '.')
                        && forall|j: int| i < j < t.len() ==> !is_alias_file(#[trigger] t[j]);
                assert(entries[i] == t[i]);
                assert forall|j: int| i < j < entries.len() implies !is_alias_file(#[trigger] entries[j]) by {
                    if j < last {
                        assert(entries[j] == t[j]);
                    }
                }
            } else if exists|i: int| 0 <= i < t.len() && is_vmx_file(#[trigger] t[i]) {
                let i = choose|i: int|
                    0 <= i < t.len() && is_vmx_file(#[trigger] t[i])
                        && st.0 == first_segment(t[i].file_name@, '.')
                        && forall|j: int| 0 <= j < i ==> !is_vmx_file(#[trigger] t[j]);
                assert(entries[i] == t[i]);
                assert forall|j: int| 0 <= j < i implies !is_vmx_file(#[trigger] entries[j]) by {
                    assert(entries[j] == t[j]);
                }
                assert forall|j: int| 0 <= j < entries.len() implies !is_alias_file(#[trigger] entries[j]) by {
                    if j < last {
                        assert(entries[j] == t[j]);
                    }
                }
            } else {
                assert forall|j: int| 0 <= j < last implies !is_vmx_file(#[trigger] entries[j]) by {
                    assert(entries[j] == t[j]);
                }
                assert forall|j: int| 0 <= j < entries.len() implies !is_alias_file(#[trigger] entries[j]) by {
                    if j < last {
                        assert(entries[j] == t[j]);
                    }
                }
                assert(is_vmx_file(entries[last]));
            }
        } else {
            if exists|i: int| 0 <= i < entries.len() && is_alias_file(#[trigger] entries[i]) {
                let k = choose|i: int| 0 <= i < entries.len() && is_alias_file(#[trigger] entries[i]);
                assert(is_alias_file(t[k]));
                let i = choose|i: int|
                    0 <= i < t.len() && is_alias_file(#[trigger] t[i])
                        && st.0 == first_segment(t[i].file_name@, '.')
                        && forall|j: int| i < j < t.len() ==> !is_alias_file(#[trigger] t[j]);
                assert(entries[i] == t[i]);
                assert forall|j: int| i < j < entries.len() implies !is_alias_file(#[trigger] entries[j]) by {
                    if j < last {
                        assert(entries[j] == t[j]);
                    }
                }
            }
            if exists|i: int| 0 <= i < entries.len() && is_vmx_file(#[trigger] entries[i]) {
                let k = choose|i: int| 0 <= i < entries.len() && is_vmx_file(#[trigger] entries[i]);
                assert(is_vmx_file(t[k]));
            }
            if forall|i: int| 0 <= i < entries.len() ==> !is_alias_file(#[trigger] entries[i]) {
                assert forall|j: int| 0 <= j < t.len() implies !is_alias_file(#[trigger] t[j]) by {
                    assert(entries[j] == t[j]);
                }
                if exists|i: int| 0 <= i < t.len() && is_vmx_file(#[trigger] t[i]) {
                    let i = choose|i: int|
                        0 <= i < t.len() && is_vmx_file(#[trigger] t[i])
                            && st.0 == first_segment(t[i].file_name@, '.')
                            && forall|j: int| 0 <= j < i ==> !is_vmx_file(#[trigger] t[j]);
                    assert(entries[i] == t[i]);
                    assert forall|j: int| 0 <= j < i implies !is_vmx_file(#[trigger] entries[j]) by {
                        assert(entries[j] == t[j]);
                    }
                }
            }
            if forall|i: int| 0 <= i < entries.len() ==> !is_alias_file(#[trigger] entries[i]) && !is_vmx_file(entries[i]) {
                assert forall|j: int| 0 <= j < t.len() implies !is_alias_file(#[trigger] t[j]) && !is_vmx_file(t[j]) by {
                    assert(entries[j] == t[j]);
                }
            }
        }
    }
}


/// Scanning a list of directories followed by another gives the machines of
/// the first list, replaced by and joined with those of the second.
pub proof fn lemma_scan_concat(a: Seq<Vec<FileEntry>>, b: Seq<Vec<FileEntry>>)
    ensures
        vms_found(a + b) == vms_found(a).union_prefer_right(vms_found(b)),
{
    lemma_keyed_fold_concat(a, b, dir_contribution());
}


/// Whether an entry is a directory.
pub open spec fn entry_is_dir() -> spec_fn(FileEntry) -> bool {
    |e: FileEntry| e.is_dir
}

/// Whether an entry is a regular file.
pub open spec fn entry_is_file() -> spec_fn(FileEntry) -> bool {
    |e: FileEntry| e.is_file
}

/// The path of an entry.
pub open spec fn entry_path() -> spec_fn(FileEntry) -> Seq<char> {
    |e: FileEntry| e.path@
}

/// The sub-directories of a listing are the paths of exactly its directory
/// entries, every one of them, in listing order.
pub proof fn lemma_sub_paths(entries: Seq<FileEntry>)
    ensures
        sub_paths(entries) == entries.filter(entry_is_dir()).map_values(entry_path()),
        forall|p: Seq<char>|
            #![trigger sub_paths(entries).contains(p)]
            sub_paths(entries).contains(p) <==> exists|i: int|
                0 <= i < entries.len() && (#[trigger] entries[i]).is_dir && entries[i].path@ == p,
    decreases entries.len(),
{
    reveal(Seq::filter);
    if entries.len() > 0 {
        let t = entries.drop_last();
        let x = entries.last();
        let last = entries.len() - 1;
        lemma_sub_paths(t);
        assert(entries[last] == x);
        assert forall|i: int| 0 <= i < t.len() implies #[trigger] t[i] == entries[i] by {}
        let ft = t.filter(entry_is_dir());
        if x.is_dir {
            assert(entries.filter(entry_is_dir()) == ft.push(x));
            assert(ft.push(x).map_values(entry_path()) =~= ft.map_values(entry_path()).push(x.path@));
        } else {
            assert(entries.filter(entry_is_dir()) == ft);
        }
        assert forall|p: Seq<char>|
            #![trigger sub_paths(entries).contains(p)]
            sub_paths(entries).contains(p) <==> exists|i: int|
                0 <= i < entries.len() && (#[trigger] entries[i]).is_dir && entries[i].path@ == p by {
            let r = sub_paths(t);
            if sub_paths(entries).contains(p) {
                let k = choose|k: int| 0 <= k < sub_paths(entries).len() && sub_paths(entries)[k] == p;
                if k < r.len() {
                    assert(r[k] == p);
                    assert(r.contains(p));
                    let i = choose|i: int| 0 <= i < t.len() && (#[trigger] t[i]).is_dir && t[i].path@ == p;
                    assert(entries[i] == t[i]);
                } else {
                    assert(entries[last].is_dir && entries[last].path@ == p);
                }
            }
            if exists|i: int| 0 <= i < entries.len() && (#[trigger] entries[i]).is_dir && entries[i].path@ == p {
                let i = choose|i: int| 0 <= i < entries.len() && (#[trigger] entries[i]).is_dir && entries[i].path@ == p;
                if i < last {
                    assert(t[i].is_dir && t[i].path@ == p);
                    assert(r.contains(p));
                    let k = choose|k: int| 0 <= k < r.len() && r[k] == p;
                    if x.is_dir {
                        assert(sub_paths(entries)[k] == p);
                    } else {
                        assert(sub_paths(entries)[k] == p);
                    }
                } else {
                    assert(sub_paths(entries)[sub_paths(entries).len() - 1] == p);
                }
            }
        }
    } else {
        assert forall|p: Seq<char>| #![trigger sub_paths(entries).contains(p)] !sub_paths(entries).contains(p) by {}
    }
}

proof fn lemma_scan_state_files(entries: Seq<FileEntry>)
    ensures
        scan_state(entries) == scan_state(entries.filter(entry_is_file())),
    decreases entries.len(),
{
    reveal(Seq::filter);
    if entries.len() > 0 {
        let t = entries.drop_last();
        let x = entries.last();
        lemma_scan_state_files(t);
        let ft = t.filter(entry_is_file());
        if x.is_file {
            assert(entries.filter(entry_is_file()) == ft.push(x));
            assert(ft.push(x).drop_last() =~= ft);
        } else {
            assert(entries.filter(entry_is_file()) == ft);
        }
    }
}

/// Entries that are not regular files play no part in recognising a
/// machine: a listing yields what its regular files alone yield.
pub proof fn lemma_scan_ignores_non_files(entries: Seq<FileEntry>)
    ensures
        vm_found(entries) == vm_found(entries.filter(entry_is_file())),
{
    lemma_scan_state_files(entries);
}

proof fn lemma_scan_conf(entries: Seq<FileEntry>)
    ensures
        (exists|i: int| 0 <= i < entries.len() && is_vmx_file(#[trigger] entries[i])) ==> exists|i: int|
            0 <= i < entries.len() && is_vmx_file(#[trigger] entries[i])
                && scan_state(entries).1 == Some((entries[i].path@, entries[i].file_name@))
                && forall|j: int| i < j < entries.len() ==> !is_vmx_file(#[trigger] entries[j]),
    decreases entries.len(),
{
    if entries.len() > 0 {
        let t = entries.drop_last();
        let last = entries.len() - 1;
        lemma_scan_conf(t);
        assert(entries[last] == entries.last());
        assert forall|i: int| 0 <= i < t.len() implies #[trigger] t[i] == entries[i] by {}
        if !is_vmx_file(entries[last]) && exists|i: int| 0 <= i < entries.len() && is_vmx_file(#[trigger] entries[i]) {
            let k = choose|i: int| 0 <= i < entries.len() && is_vmx_file(#[trigger] entries[i]);
            assert(is_vmx_file(t[k]));
            let i = choose|i: int|
                0 <= i < t.len() && is_vmx_file(#[trigger] t[i])
                    && scan_state(t).1 == Some((t[i].path@, t[i].file_name@))
                    && forall|j: int| i < j < t.len() ==> !is_vmx_file(#[trigger] t[j]);
            assert(entries[i] == t[i]);
            assert forall|j: int| i < j < entries.len() implies !is_vmx_file(#[trigger] entries[j]) by {
                if j < last {
                    assert(entries[j] == t[j]);
                }
            }
        }
    }
}

/// A listing holding a regular `.vmx` file always yields a VMware machine,
/// configured by the last such file, where no `.vmx` or `.alias` file name
/// starts with a dot.
pub proof fn lemma_scan_finds_vmx(entries: Seq<FileEntry>)
    requires
        forall|i: int|
            0 <= i < entries.len() && (is_alias_file(entries[i]) || is_vmx_file(entries[i]))
                ==> first_segment(#[trigger] entries[i].file_name@, '.').len() > 0,
        exists|i: int| 0 <= i < entries.len() && is_vmx_file(#[trigger] entries[i]),
    ensures
        vm_found(entries) is Some,
        exists|i: int|
            0 <= i < entries.len() && is_vmx_file(#[trigger] entries[i])
                && vm_found(entries)->Some_0.1 == (entries[i].path@, VMType::VMware)
                && forall|j: int| i < j < entries.len() ==> !is_vmx_file(#[trigger] entries[j]),
{
    lemma_scan_conf(entries);
    lemma_scan_naming(entries);
    lemma_scan_conf_is_vmx(entries);
    let st = scan_state(entries);
    if exists|i: int| 0 <= i < entries.len() && is_alias_file(#[trigger] entries[i]) {
        let i = choose|i: int|
            0 <= i < entries.len() && is_alias_file(#[trigger] entries[i])
                && st.0 == first_segment(entries[i].file_name@, '.')
                && forall|j: int| i < j < entries.len() ==> !is_alias_file(#[trigger] entries[j]);
        assert(st.0.len() > 0);
    } else {
        let i = choose|i: int|
            0 <= i < entries.len() && is_vmx_file(#[trigger] entries[i])
                && st.0 == first_segment(entries[i].file_name@, '.')
                && forall|j: int| 0 <= j < i ==> !is_vmx_file(#[trigger] entries[j]);
        assert(st.0.len() > 0);
    }
}

/// Finding machines.
#[derive(Debug)]
pub struct Scan;

impl Scan {
    /// The machines found in the given directories, each given by its listing.
    pub fn get_vms(dirs: &Vec<Vec<FileEntry>>) -> (r: VMS)
        ensures
            r.vms@ == vms_found(dirs@),
    {
        let mut vms = VMS::new();
        let n = dirs.len();
        let mut i: usize = 0;
        while i < n
            invariant
                n == dirs@.len(),
                i <= n,
                vms.vms@ == vms_found(dirs@.take(i as int)),
            decreases n - i,
        {
            proof {
                assert(dirs@.take(i + 1).drop_last() =~= dirs@.take(i as int));
                assert(dirs@.take(i + 1).last() == dirs@[i as int]);
            }
            match Scan::get_vm(&dirs[i]) {
                Some((name, vm)) => {
                    vms.vms.insert(name, vm);
                },
                None => {},
            }
            i = i + 1;
        }
        assert(dirs@.take(n as int) =~= dirs@);
        vms
    }

    /// Paths of the sub-directories in a directory's listing.
    pub fn get_sub_path(entries: &Vec<FileEntry>) -> (r: Vec<String>)
        ensures
            string_views(r@) == sub_paths(entries@),
    {
        let mut list: Vec<String> = Vec::new();
        let n = entries.len();
        let mut i: usize = 0;
        while i < n
            invariant
                n == entries@.len(),
                i <= n,
                string_views(list@) == sub_paths(entries@.take(i as int)),
            decreases n - i,
        {
            proof {
                assert(entries@.take(i + 1).drop_last() =~= entries@.take(i as int));
            }
            let ghost before = string_views(list@);
            if entries[i].is_dir {
                list.push(entries[i].path.clone());
                assert(string_views(list@) =~= before.push(entries@[i as int].path@));
            }
            i = i + 1;
        }
        assert(entries@.take(n as int) =~= entries@);
        list
    }

    /// The machine that a directory's listing describes, if any.
    pub fn get_vm(entries: &Vec<FileEntry>) -> (r: Option<(String, VM)>)
        ensures
            match r {
                Some(found) => vm_found(entries@) == Some((found.0@, found.1@)),
                None => vm_found(entries@).is_none(),
            },
    {
        let mut name = String::new();
        let mut conf: Option<(String, String)> = None;
        let n = entries.len();
        let mut i: usize = 0;
        while i < n
            invariant
                n == entries@.len(),
                i <= n,
                scan_state(entries@.take(i as int)) == (name@, match conf {
                    Some(c) => Some((c.0@, c.1@)),
                    None => None::<(Seq<char>, Seq<char>)>,
                }),
            decreases n - i,
        {
            proof {
                assert(entries@.take(i + 1).drop_last() =~= entries@.take(i as int));
            }
            let e = &entries[i];
            if e.is_file {
                if ends_with(e.file_name.as_str(), ".vmx") {
                    if name.unicode_len() == 0 {
                        name = first_segment_of(e.file_name.as_str(), '.');
                    }
                    conf = Some((e.path.clone(), e.file_name.clone()));
                }
                if ends_with(e.file_name.as_str(), ".alias") {
                    name = first_segment_of(e.file_name.as_str(), '.');
                }
            }
            i = i + 1;
        }
        assert(entries@.take(n as int) =~= entries@);
        match conf {
            Some((path, file_name)) => {
                if name.unicode_len() > 0 {
                    let vmtype = Scan::get_type(file_name.as_str());
                    Some((name, VM::new(path, vmtype)))
                } else {
                    None
                }
            },
            None => None,
        }
    }

    /// The kind of machine whose configuration file has this name.
    pub fn get_type(file_name: &str) -> (r: VMType)
        ensures
            r == type_of(file_name@),
    {
        if ends_with(file_name, ".vmx") {
            VMType::VMware
        } else {
            VMType::VirtualBox
        }
    }
}

} // verus!
