//! Processing of one work directory, and the outcome of a whole run.
use vstd::prelude::*;

use crate::text::{join, join_path, lemma_join_injective, relative, same_text};

verus! {

/// The sentinel file that each processed directory is locked through.
pub const LOCK_FILE_NAME: &'static str = ".cargo-lock";

/// What to do with a work directory, given what is on disk.
#[derive(PartialEq, Eq, Structural, Debug, Clone, Copy)]
pub enum WorkDirPlan {
    /// Nothing there: a combination that was never built.  Not an error.
    SkipMissing,
    /// Something that is not a directory: this directory fails.
    NotADirectory,
    /// Lock it, list it and compress what it holds.
    Process,
}

pub fn plan_work_dir(exists: bool, is_dir: bool) -> (r: WorkDirPlan)
    ensures
        !exists ==> r == WorkDirPlan::SkipMissing,
        exists && !is_dir ==> r == WorkDirPlan::NotADirectory,
        exists && is_dir ==> r == WorkDirPlan::Process,
{
    if !exists {
        WorkDirPlan::SkipMissing
    } else if !is_dir {
        WorkDirPlan::NotADirectory
    } else {
        WorkDirPlan::Process
    }
}

/// The paths handed to the compressor for a directory whose entries are
/// `names`: every entry but the sentinel, in listing order.
pub open spec fn input_paths(dir: Seq<char>, names: Seq<String>) -> Seq<Seq<char>>
    decreases names.len(),
{
    if names.len() == 0 {
        Seq::empty()
    } else {
        let rest = input_paths(dir, names.drop_last());
        if names.last()@ == LOCK_FILE_NAME@ {
            rest
        } else {
            rest.push(join_path(dir, names.last()@))
        }
    }
}

pub open spec fn views(s: Seq<String>) -> Seq<Seq<char>> {
    s.map_values(|x: String| x@)
}

pub open spec fn names_have(names: Seq<String>, name: Seq<char>) -> bool {
    exists|i: int| 0 <= i < names.len() && #[trigger] names[i]@ == name
}

/// The entries of a directory to compress.
pub struct CompressionInputs {
    pub paths: Vec<String>,
    /// Whether the sentinel was among the entries and left out.
    pub excluded_lock: bool,
}

/// Chooses the compressor's inputs from the names of a directory's entries.
pub fn compression_inputs(dir: &str, names: &[String]) -> (r: CompressionInputs)
    ensures
        views(r.paths@) == input_paths(dir@, names@),
        r.excluded_lock == names_have(names@, LOCK_FILE_NAME@),
{
    let mut paths: Vec<String> = Vec::new();
    let mut excluded_lock = false;
    let n = names.len();
    let mut i: usize = 0;
    while i < n
        invariant
            n == names@.len(),
            i <= n,
            views(paths@) == input_paths(dir@, names@.subrange(0, i as int)),
            excluded_lock == names_have(names@.subrange(0, i as int), LOCK_FILE_NAME@),
        decreases n - i,
    {
        let ghost prev = names@.subrange(0, i as int);
        let ghost next = names@.subrange(0, i + 1);
        assert(next.drop_last() =~= prev);
        if same_text(names[i].as_str(), LOCK_FILE_NAME) {
            excluded_lock = true;
            assert(next[i as int] == names@[i as int]);
        } else {
            paths.push(join(dir, names[i].as_str()));
            assert(views(paths@) =~= input_paths(dir@, next));
            assert forall|j: int| 0 <= j < next.len() && #[trigger] next[j]@ == LOCK_FILE_NAME@ implies names_have(prev, LOCK_FILE_NAME@) by {
                assert(next[j] == prev[j]);
            }
        }
        assert(names_have(prev, LOCK_FILE_NAME@) ==> names_have(next, LOCK_FILE_NAME@)) by {
            if names_have(prev, LOCK_FILE_NAME@) {
                let j = choose|j: int| 0 <= j < prev.len() && #[trigger] prev[j]@ == LOCK_FILE_NAME@;
                assert(next[j] == prev[j]);
            }
        }
        i = i + 1;
    }
    assert(names@.subrange(0, n as int) =~= names@);
    CompressionInputs { paths, excluded_lock }
}

proof fn lemma_lock_file_name_relative()
    ensures
        relative(LOCK_FILE_NAME@),
{
    reveal_strlit(".cargo-lock");
    assert(LOCK_FILE_NAME@ == ".cargo-lock"@);
}

/// The compressor's inputs for a directory are exactly its entries but the
/// sentinel, each once, and never the sentinel's path (entry names being
/// relative and distinct).
pub proof fn lemma_inputs_are_the_other_entries(dir: Seq<char>, names: Seq<String>)
    requires
        forall|i: int| 0 <= i < names.len() ==> relative((#[trigger] names[i])@),
        forall|i: int, j: int| 0 <= i < j < names.len() ==> (#[trigger] names[i])@ != (#[trigger] names[j])@,
    ensures
        input_paths(dir, names).no_duplicates(),
        !input_paths(dir, names).contains(join_path(dir, LOCK_FILE_NAME@)),
        forall|q: Seq<char>|
            #[trigger] input_paths(dir, names).contains(q) <==> exists|i: int|
                0 <= i < names.len() && (#[trigger] names[i])@ != LOCK_FILE_NAME@ && q == join_path(
                    dir,
                    names[i]@,
                ),
    decreases names.len(),
{
    lemma_lock_file_name_relative();
    if names.len() > 0 {
        let shorter = names.drop_last();
        assert forall|i: int| 0 <= i < shorter.len() implies relative((#[trigger] shorter[i])@) by {
            assert(shorter[i] == names[i]);
        }
        assert forall|i: int, j: int| 0 <= i < j < shorter.len() implies (#[trigger] shorter[i])@ != (#[trigger] shorter[j])@ by {
            assert(shorter[i] == names[i] && shorter[j] == names[j]);
        }
        lemma_inputs_are_the_other_entries(dir, shorter);
        let rest = input_paths(dir, shorter);
        let all = input_paths(dir, names);
        let last = names.last();
        assert(last == names[names.len() - 1]);
        let lp = join_path(dir, last@);
        if last@ != LOCK_FILE_NAME@ {
            assert(all == rest.push(lp));
            if rest.contains(lp) {
                let i = choose|i: int| 0 <= i < shorter.len() && (#[trigger] shorter[i])@ != LOCK_FILE_NAME@ && lp == join_path(dir, shorter[i]@);
                lemma_join_injective(dir, shorter[i]@, last@);
                assert(shorter[i] == names[i]);
            }
            if lp == join_path(dir, LOCK_FILE_NAME@) {
                lemma_join_injective(dir, last@, LOCK_FILE_NAME@);
            }
            assert forall|a: int, b: int| 0 <= a < b < all.len() implies all[a] != all[b] by {
                if b == all.len() - 1 {
                    assert(all[a] == rest[a]);
                    assert(rest.contains(all[a]));
                } else {
                    assert(all[a] == rest[a] && all[b] == rest[b]);
                }
            }
            assert(all.no_duplicates());
        }
        assert forall|q: Seq<char>| #[trigger] all.contains(q) <==> exists|i: int|
            0 <= i < names.len() && (#[trigger] names[i])@ != LOCK_FILE_NAME@ && q == join_path(dir, names[i]@) by {
            if all.contains(q) {
                let k = choose|k: int| 0 <= k < all.len() && all[k] == q;
                if k < rest.len() {
                    assert(all[k] == rest[k]);
                    assert(rest.contains(q));
                    let i = choose|i: int| 0 <= i < shorter.len() && (#[trigger] shorter[i])@ != LOCK_FILE_NAME@ && q == join_path(dir, shorter[i]@);
                    assert(shorter[i] == names[i]);
                }
            }
            if exists|i: int| 0 <= i < names.len() && (#[trigger] names[i])@ != LOCK_FILE_NAME@ && q == join_path(dir, names[i]@) {
                let i = choose|i: int| 0 <= i < names.len() && (#[trigger] names[i])@ != LOCK_FILE_NAME@ && q == join_path(dir, names[i]@);
                if i < names.len() - 1 {
                    assert(shorter[i] == names[i]);
                    assert(rest.contains(q));
                    let k = choose|k: int| 0 <= k < rest.len() && rest[k] == q;
                    assert(all[k] == rest[k]);
                } else {
                    assert(all[all.len() - 1] == q);
                }
            }
        }
    }
}

/// How processing one work directory ended: `error` holds the cause of a
/// failure and is `None` on success.
pub struct DirOutcome {
    pub dir: String,
    pub error: Option<String>,
}

/// The line that reports one directory's outcome.
pub open spec fn report_text(o: DirOutcome) -> Seq<char> {
    match o.error {
        None => "ok "@ + o.dir@,
        Some(cause) => "error "@ + o.dir@ + ": "@ + cause@,
    }
}

pub fn outcome_report(o: &DirOutcome) -> (r: String)
    ensures
        r@ == report_text(*o),
{
    match &o.error {
        None => "ok ".to_owned().concat(o.dir.as_str()),
        Some(cause) => "error ".to_owned().concat(o.dir.as_str()).concat(": ").concat(cause.as_str()),
    }
}

/// A run in which at least one directory failed.
#[derive(PartialEq, Eq, Structural, Debug, Clone, Copy)]
pub enum RunError {
    DirectoriesFailed,
}

impl RunError {
    pub fn message(&self) -> (r: String)
        ensures
            r@ == "one or more directories failed"@,
    {
        "one or more directories failed".to_owned()
    }
}

pub open spec fn all_succeeded(outcomes: Seq<DirOutcome>) -> bool {
    forall|i: int| 0 <= i < outcomes.len() ==> (#[trigger] outcomes[i]).error is None
}

/// The result of a whole run: success exactly when every directory
/// succeeded.
pub fn overall_result(outcomes: &[DirOutcome]) -> (r: Result<(), RunError>)
    ensures
        r is Ok <==> all_succeeded(outcomes@),
        r is Err ==> r == Err::<(), RunError>(RunError::DirectoriesFailed),
{
    let n = outcomes.len();
    let mut i: usize = 0;
    while i < n
        invariant
            n == outcomes@.len(),
            i <= n,
            forall|j: int| 0 <= j < i ==> (#[trigger] outcomes@[j]).error is None,
        decreases n - i,
    {
        if outcomes[i].error.is_some() {
            return Err(RunError::DirectoriesFailed);
        }
        i = i + 1;
    }
    Ok(())
}

/// When one directory fails and another succeeds, the run fails, and the
/// one that succeeded is still reported as a success.
pub proof fn lemma_failure_does_not_bleed(outcomes: Seq<DirOutcome>, failed: int, succeeded: int)
    requires
        0 <= failed < outcomes.len(),
        0 <= succeeded < outcomes.len(),
        outcomes[failed].error is Some,
        outcomes[succeeded].error is None,
    ensures
        !all_succeeded(outcomes),
        report_text(outcomes[succeeded]) == "ok "@ + outcomes[succeeded].dir@,
{
}

} // verus!
