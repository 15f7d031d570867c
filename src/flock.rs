//! Advisory locking of a directory through a sentinel file.
//!
//! Opening the file and the operating system's lock calls are made by the
//! caller, who hands them in as closures; the order of the attempts and what
//! each of their outcomes means is decided here.
use vstd::prelude::*;

use crate::discover::DirEntryInfo;
use crate::text::{join, join_path, lemma_join_injective, relative, same_text};

verus! {

/// A directory, named by its path, that locks are taken in.
#[derive(Clone, Debug)]
pub struct Filesystem {
    root: String,
}

impl View for Filesystem {
    type V = Seq<char>;

    closed spec fn view(&self) -> Seq<char> {
        self.root@
    }
}

impl Filesystem {
    pub fn new(path: String) -> (r: Filesystem)
        ensures
            r@ == path@,
    {
        Filesystem { root: path }
    }

    /// The directory `other` below this one.
    pub fn join(&self, other: &str) -> (r: Filesystem)
        ensures
            r@ == join_path(self@, other@),
    {
        Filesystem::new(join(self.root.as_str(), other))
    }

    /// Moves down to `other` below this directory.
    pub fn push(&mut self, other: &str)
        ensures
            final(self)@ == join_path(old(self)@, other@),
    {
        self.root = join(self.root.as_str(), other);
    }

    pub fn into_path_unlocked(self) -> (r: String)
        ensures
            r@ == self@,
    {
        self.root
    }

    pub fn as_path_unlocked(&self) -> (r: &str)
        ensures
            r@ == self@,
    {
        self.root.as_str()
    }

    /// The path, for showing to a user.
    pub fn display(&self) -> (r: String)
        ensures
            r@ == self@,
    {
        self.root.clone()
    }

    /// The path of the file `name` inside this directory.
    pub fn file_path(&self, name: &str) -> (r: String)
        ensures
            r@ == join_path(self@, name@),
    {
        join(self.root.as_str(), name)
    }
}

/// What clearing a locked directory removes: every entry but the lock file,
/// joined to the directory, with whether it is a directory.
pub open spec fn sibling_removals(dir: Seq<char>, lock_name: Seq<char>, entries: Seq<DirEntryInfo>) -> Seq<
    (Seq<char>, bool),
>
    decreases entries.len(),
{
    if entries.len() == 0 {
        Seq::empty()
    } else {
        let rest = sibling_removals(dir, lock_name, entries.drop_last());
        if entries.last().name@ == lock_name {
            rest
        } else {
            rest.push((join_path(dir, entries.last().name@), entries.last().is_dir))
        }
    }
}

/// Chooses what to remove from the locked directory `dir`, whose entries
/// are `entries`, so that only the lock file `lock_name` survives.
pub fn siblings_to_remove(dir: &str, lock_name: &str, entries: &[DirEntryInfo]) -> (r: Vec<(String, bool)>)
    ensures
        r@.map_values(|e: (String, bool)| (e.0@, e.1)) == sibling_removals(dir@, lock_name@, entries@),
{
    let mut out: Vec<(String, bool)> = Vec::new();
    let n = entries.len();
    let mut i: usize = 0;
    while i < n
        invariant
            n == entries@.len(),
            i <= n,
            out@.map_values(|e: (String, bool)| (e.0@, e.1)) == sibling_removals(
                dir@,
                lock_name@,
                entries@.subrange(0, i as int),
            ),
        decreases n - i,
    {
        let ghost next = entries@.subrange(0, i + 1);
        assert(next.drop_last() =~= entries@.subrange(0, i as int));
        assert(next.last() == entries@[i as int]);
        if !same_text(entries[i].name.as_str(), lock_name) {
            out.push((join(dir, entries[i].name.as_str()), entries[i].is_dir));
            assert(out@.map_values(|e: (String, bool)| (e.0@, e.1)) =~= sibling_removals(dir@, lock_name@, next));
        }
        i = i + 1;
    }
    assert(entries@.subrange(0, n as int) =~= entries@);
    out
}

/// Clearing a locked directory never removes its lock file, and removes
/// every other entry.
pub proof fn lemma_lock_file_survives(dir: Seq<char>, lock_name: Seq<char>, entries: Seq<DirEntryInfo>)
    requires
        relative(lock_name),
        forall|i: int| 0 <= i < entries.len() ==> relative((#[trigger] entries[i]).name@),
    ensures
        forall|k: int|
            0 <= k < sibling_removals(dir, lock_name, entries).len() ==> (#[trigger] sibling_removals(
                dir,
                lock_name,
                entries,
            )[k]).0 != join_path(dir, lock_name),
        forall|i: int|
            0 <= i < entries.len() && (#[trigger] entries[i]).name@ != lock_name ==> sibling_removals(
                dir,
                lock_name,
                entries,
            ).contains((join_path(dir, entries[i].name@), entries[i].is_dir)),
    decreases entries.len(),
{
    if entries.len() > 0 {
        let shorter = entries.drop_last();
        assert forall|i: int| 0 <= i < shorter.len() implies relative((#[trigger] shorter[i]).name@) by {
            assert(shorter[i] == entries[i]);
        }
        lemma_lock_file_survives(dir, lock_name, shorter);
        let rest = sibling_removals(dir, lock_name, shorter);
        let all = sibling_removals(dir, lock_name, entries);
        let last = entries.last();
        assert(last == entries[entries.len() - 1]);
        if last.name@ != lock_name {
            assert(all == rest.push((join_path(dir, last.name@), last.is_dir)));
            if join_path(dir, last.name@) == join_path(dir, lock_name) {
                lemma_join_injective(dir, last.name@, lock_name);
            }
        }
        assert forall|k: int| 0 <= k < all.len() implies (#[trigger] all[k]).0 != join_path(dir, lock_name) by {
            if k < rest.len() {
                assert(all[k] == rest[k]);
            }
        }
        assert forall|i: int| 0 <= i < entries.len() && (#[trigger] entries[i]).name@ != lock_name implies all.contains(
            (join_path(dir, entries[i].name@), entries[i].is_dir),
        ) by {
            if i < entries.len() - 1 {
                assert(shorter[i] == entries[i]);
                let e = (join_path(dir, entries[i].name@), entries[i].is_dir);
                let k = choose|k: int| 0 <= k < rest.len() && rest[k] == e;
                assert(all[k] == rest[k]);
            } else {
                assert(all[all.len() - 1] == (join_path(dir, entries[i].name@), entries[i].is_dir));
            }
        }
    }
}

/// The kinds of I/O error that locking tells apart.
#[derive(PartialEq, Eq, Structural, Debug, Clone, Copy)]
pub enum IoErrorKind {
    NotFound,
    Unsupported,
    Other,
}

/// What a non-blocking attempt at an exclusive lock came to.
#[derive(PartialEq, Eq, Structural, Debug, Clone, Copy)]
pub enum TryLockOutcome {
    Locked,
    WouldBlock,
    Failed(IoErrorKind),
}

/// A lock that could not be taken: the sentinel's path and the cause.
pub struct LockError {
    pub path: String,
    pub kind: IoErrorKind,
}

/// Whether opening a file that failed with `kind` should be retried after
/// creating its parent directories.
pub fn creates_parent_on(kind: IoErrorKind, create: bool) -> (r: bool)
    ensures
        r == (kind == IoErrorKind::NotFound && create),
{
    kind == IoErrorKind::NotFound && create
}

/// Paths on a network filesystem that needs no process-level locking.  No
/// path is recognised as such.
pub open spec fn on_nfs_mount(path: Seq<char>) -> bool {
    false
}

pub fn is_on_nfs_mount(path: &str) -> (r: bool)
    ensures
        r == on_nfs_mount(path@),
{
    false
}

/// Whether an error means that the filesystem does not support locking.
pub fn error_unsupported(kind: IoErrorKind) -> (r: bool)
    ensures
        r == (kind == IoErrorKind::Unsupported),
{
    kind == IoErrorKind::Unsupported
}

/// The result of a non-blocking attempt: `Ok(true)` when the lock is held or
/// locking is unsupported, `Ok(false)` when another holder has it, else the
/// error.
pub open spec fn try_outcome(o: TryLockOutcome) -> Result<bool, IoErrorKind> {
    match o {
        TryLockOutcome::Locked => Ok(true),
        TryLockOutcome::WouldBlock => Ok(false),
        TryLockOutcome::Failed(IoErrorKind::Unsupported) => Ok(true),
        TryLockOutcome::Failed(k) => Err(k),
    }
}

/// The notice given before waiting on a held lock: what is locked and the
/// lock file's path.
pub open spec fn blocking_notice(msg: Seq<char>, path: Seq<char>) -> Seq<char> {
    "Blocking waiting for file lock on "@ + msg + " at "@ + path
}

/// Tries once to lock `path` without blocking.
pub fn try_acquire<T: Fn() -> TryLockOutcome>(path: &str, lock_try: &T) -> (r: Result<bool, LockError>)
    requires
        lock_try.requires(()),
    ensures
        on_nfs_mount(path@) ==> r matches Ok(true),
        !on_nfs_mount(path@) ==> exists|o: TryLockOutcome|
            #[trigger] lock_try.ensures((), o) && match try_outcome(o) {
                Ok(b) => r matches Ok(x) && x == b,
                Err(k) => r matches Err(e) && e.path@ == path@ && e.kind == k,
            },
{
    if is_on_nfs_mount(path) {
        return Ok(true);
    }
    let o = lock_try();
    match o {
        TryLockOutcome::Locked => Ok(true),
        TryLockOutcome::WouldBlock => Ok(false),
        TryLockOutcome::Failed(k) => {
            if error_unsupported(k) {
                Ok(true)
            } else {
                Err(LockError { path: path.to_owned(), kind: k })
            }
        },
    }
}

/// Takes the lock on `path`: first without blocking; if another holder has
/// it, gives `notify` the notice for `msg` and then waits with
/// `lock_block`.
pub fn acquire<T, N, B>(msg: &str, path: &str, lock_try: &T, notify: &N, lock_block: &B) -> (r: Result<(), LockError>) where
    T: Fn() -> TryLockOutcome,
    N: Fn(String),
    B: Fn() -> Result<(), IoErrorKind>,

    requires
        lock_try.requires(()),
        forall|s: String| #[trigger] notify.requires((s,)),
        lock_block.requires(()),
    ensures
        on_nfs_mount(path@) ==> r is Ok,
        !on_nfs_mount(path@) ==> exists|o: TryLockOutcome|
            #[trigger] lock_try.ensures((), o) && match try_outcome(o) {
                Ok(true) => r is Ok,
                Ok(false) => {
                    &&& exists|s: String| #[trigger] notify.ensures((s,), ()) && s@ == blocking_notice(msg@, path@)
                    &&& exists|b: Result<(), IoErrorKind>|
                        #[trigger] lock_block.ensures((), b) && match b {
                            Ok(()) => r is Ok,
                            Err(k) => r matches Err(e) && e.path@ == path@ && e.kind == k,
                        }
                },
                Err(k) => r matches Err(e) && e.path@ == path@ && e.kind == k,
            },
{
    match try_acquire(path, lock_try) {
        Ok(true) => return Ok(()),
        Ok(false) => {},
        Err(e) => return Err(e),
    }
    let prefix = "Blocking waiting for file lock on ";
    let notice = prefix.to_owned().concat(msg).concat(" at ").concat(path);
    notify(notice);
    match lock_block() {
        Ok(()) => Ok(()),
        Err(k) => Err(LockError { path: path.to_owned(), kind: k }),
    }
}

} // verus!
