//! Discovery of work directories by scanning a build-output root.
//!
//! The caller lists the root and, for the entries that
//! [`classify_root_entry`] says to descend into, their children; the choice
//! of directories from those listings is made here.
use vstd::prelude::*;

use crate::dirset::{
    insert_path, lemma_union_upto_step, lemma_union_upto_zero, path_set, strictly_sorted,
    union_upto,
};
use crate::text::{join, join_path, same_text};

verus! {

/// Number of occurrences of `c` in `s`.
pub open spec fn count_char(s: Seq<char>, c: char) -> nat
    decreases s.len(),
{
    if s.len() == 0 {
        0
    } else {
        count_char(s.drop_last(), c) + if s.last() == c {
            1nat
        } else {
            0nat
        }
    }
}

pub open spec fn hidden(name: Seq<char>) -> bool {
    name.len() > 0 && name[0] == '.'
}

/// A name with at least two dashes is taken for a target triple such as
/// `x86_64-apple-darwin`.  This is a heuristic, not a check against known
/// targets.
pub open spec fn target_triple_like(name: Seq<char>) -> bool {
    count_char(name, '-') >= 2
}

/// Entries of the output root that never hold build output.
pub open spec fn skipped_root(name: Seq<char>) -> bool {
    hidden(name) || name == "doc"@ || name == "package"@ || name == "tmp"@
}

/// Entries of a target directory that are bookkeeping, not profiles.
pub open spec fn skipped_profile(name: Seq<char>) -> bool {
    hidden(name) || name == ".fingerprint"@ || name == "build"@ || name == "deps"@
        || name == "examples"@ || name == "incremental"@
}

fn is_hidden(name: &str) -> (r: bool)
    ensures
        r == hidden(name@),
{
    name.unicode_len() > 0 && name.get_char(0) == '.'
}

fn looks_like_target_triple(name: &str) -> (r: bool)
    ensures
        r == target_triple_like(name@),
{
    let n = name.unicode_len();
    let mut count: usize = 0;
    let mut i: usize = 0;
    while i < n
        invariant
            n == name@.len(),
            i <= n,
            count == count_char(name@.subrange(0, i as int), '-'),
            count <= i,
        decreases n - i,
    {
        assert(name@.subrange(0, i + 1).drop_last() =~= name@.subrange(0, i as int));
        if name.get_char(i) == '-' {
            count = count + 1;
        }
        i = i + 1;
    }
    assert(name@.subrange(0, n as int) =~= name@);
    count >= 2
}

fn should_skip_root_dir(name: &str) -> (r: bool)
    ensures
        r == skipped_root(name@),
{
    is_hidden(name) || same_text(name, "doc") || same_text(name, "package") || same_text(
        name,
        "tmp",
    )
}

fn should_skip_profile_dir(name: &str) -> (r: bool)
    ensures
        r == skipped_profile(name@),
{
    is_hidden(name) || same_text(name, ".fingerprint") || same_text(name, "build") || same_text(
        name,
        "deps",
    ) || same_text(name, "examples") || same_text(name, "incremental")
}

/// One entry of a directory listing.
pub struct DirEntryInfo {
    pub name: String,
    pub is_dir: bool,
}

/// An entry of the output root, with the listing of its children where it
/// was descended into (empty otherwise).
pub struct RootListing {
    pub entry: DirEntryInfo,
    pub children: Vec<DirEntryInfo>,
}

/// What discovery does with an entry of the output root.
#[derive(PartialEq, Eq, Structural, Debug, Clone, Copy)]
pub enum RootAction {
    /// Not a build directory.
    Skip,
    /// The entry is itself a profile directory.
    AddSelf,
    /// The entry is a target directory: its profile directories count.
    AddChildren,
}

pub open spec fn names_contain(names: Seq<String>, name: Seq<char>) -> bool {
    exists|i: int| 0 <= i < names.len() && #[trigger] names[i]@ == name
}

pub open spec fn root_action(name: Seq<char>, is_dir: bool, targets: Seq<String>) -> RootAction {
    if !is_dir || skipped_root(name) {
        RootAction::Skip
    } else if targets.len() > 0 {
        if names_contain(targets, name) {
            RootAction::AddChildren
        } else {
            RootAction::Skip
        }
    } else if target_triple_like(name) {
        RootAction::AddChildren
    } else {
        RootAction::AddSelf
    }
}

fn contains_name(names: &[String], name: &str) -> (r: bool)
    ensures
        r == names_contain(names@, name@),
{
    let n = names.len();
    let mut i: usize = 0;
    while i < n
        invariant
            n == names@.len(),
            i <= n,
            forall|j: int| 0 <= j < i ==> (#[trigger] names@[j])@ != name@,
        decreases n - i,
    {
        if same_text(names[i].as_str(), name) {
            return true;
        }
        i = i + 1;
    }
    false
}

/// Decides what to do with an entry of the output root: with target
/// filters, descend only into the named targets; without, descend into
/// entries that look like target triples and take the others as profile
/// directories.
pub fn classify_root_entry(entry: &DirEntryInfo, targets: &[String]) -> (r: RootAction)
    ensures
        r == root_action(entry.name@, entry.is_dir, targets@),
{
    if !entry.is_dir || should_skip_root_dir(entry.name.as_str()) {
        RootAction::Skip
    } else if targets.len() > 0 {
        if contains_name(targets, entry.name.as_str()) {
            RootAction::AddChildren
        } else {
            RootAction::Skip
        }
    } else if looks_like_target_triple(entry.name.as_str()) {
        RootAction::AddChildren
    } else {
        RootAction::AddSelf
    }
}

/// The directory that child `c` of `parent` contributes: itself if it is a
/// directory that is not skipped, else nothing.
pub open spec fn child_dirs(parent: Seq<char>, children: Seq<DirEntryInfo>) -> spec_fn(int) -> Set<
    Seq<char>,
> {
    |c: int|
        if children[c].is_dir && !skipped_profile(children[c].name@) {
            set![join_path(parent, children[c].name@)]
        } else {
            Set::empty()
        }
}

/// The work directories that one entry of the root contributes.
pub open spec fn listing_dirs(root: Seq<char>, l: RootListing, targets: Seq<String>) -> Set<
    Seq<char>,
> {
    let dir = join_path(root, l.entry.name@);
    match root_action(l.entry.name@, l.entry.is_dir, targets) {
        RootAction::Skip => Set::empty(),
        RootAction::AddSelf => set![dir],
        RootAction::AddChildren => union_upto(l.children.len() as int, child_dirs(dir, l.children@)),
    }
}

pub open spec fn discovered_dirs(root: Seq<char>, listings: Seq<RootListing>, targets: Seq<String>) -> Set<
    Seq<char>,
> {
    union_upto(listings.len() as int, |i: int| listing_dirs(root, listings[i], targets))
}

/// The work directories found under `target_dir`, sorted and without
/// duplicates, given the listing of its entries.
pub fn discover_work_dirs(target_dir: &str, listings: &[RootListing], targets: &[String]) -> (r: Vec<
    String,
>)
    ensures
        strictly_sorted(r@),
        path_set(r@) == discovered_dirs(target_dir@, listings@, targets@),
{
    let ghost f = |i: int| listing_dirs(target_dir@, listings@[i], targets@);
    let mut out: Vec<String> = Vec::new();
    let n = listings.len();
    let mut i: usize = 0;
    proof {
        lemma_union_upto_zero(f);
        assert(path_set(out@) =~= Set::<Seq<char>>::empty());
    }
    while i < n
        invariant
            n == listings@.len(),
            i <= n,
            f == (|i: int| listing_dirs(target_dir@, listings@[i], targets@)),
            strictly_sorted(out@),
            path_set(out@) == union_upto(i as int, f),
        decreases n - i,
    {
        let l = &listings[i];
        let ghost done = path_set(out@);
        let dir = join(target_dir, l.entry.name.as_str());
        match classify_root_entry(&l.entry, targets) {
            RootAction::Skip => {},
            RootAction::AddSelf => {
                insert_path(&mut out, dir);
            },
            RootAction::AddChildren => {
                let ghost g = child_dirs(dir@, l.children@);
                let m = l.children.len();
                let mut c: usize = 0;
                proof {
                    lemma_union_upto_zero(g);
                    assert(done =~= done + Set::<Seq<char>>::empty());
                }
                while c < m
                    invariant
                        m == l.children@.len(),
                        c <= m,
                        g == child_dirs(dir@, l.children@),
                        strictly_sorted(out@),
                        path_set(out@) == done + union_upto(c as int, g),
                    decreases m - c,
                {
                    let child = &l.children[c];
                    proof {
                        lemma_union_upto_step(c as int, g);
                    }
                    if child.is_dir && !should_skip_profile_dir(child.name.as_str()) {
                        let p = join(dir.as_str(), child.name.as_str());
                        insert_path(&mut out, p);
                        assert(path_set(out@) =~= done + union_upto(c + 1, g));
                    } else {
                        assert(path_set(out@) =~= done + union_upto(c + 1, g));
                    }
                    c = c + 1;
                }
            },
        }
        proof {
            lemma_union_upto_step(i as int, f);
            assert(path_set(out@) =~= union_upto(i + 1, f));
        }
        i = i + 1;
    }
    out
}

} // verus!
