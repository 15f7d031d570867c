//! Profile names, their on-disk directory names, and the work directories
//! that explicit profile and target filters select.
use vstd::prelude::*;

use crate::dirset::{insert_path, lemma_sorted_unique, path_set, strictly_sorted};
use crate::text::text_lt;
use crate::text::{join, join_path, same_text};

verus! {

/// The map that a list of (profile, directory name) pairs stands for: a
/// later pair for the same profile replaces an earlier one.
pub open spec fn entries_map(s: Seq<(String, String)>) -> Map<Seq<char>, Seq<char>>
    decreases s.len(),
{
    if s.len() == 0 {
        Map::empty()
    } else {
        entries_map(s.drop_last()).insert(s.last().0@, s.last().1@)
    }
}

proof fn lemma_entries_map_found(s: Seq<(String, String)>, k: Seq<char>, i: int)
    requires
        0 <= i < s.len(),
        s[i].0@ == k,
        forall|j: int| i < j < s.len() ==> (#[trigger] s[j]).0@ != k,
    ensures
        entries_map(s).contains_key(k),
        entries_map(s)[k] == s[i].1@,
    decreases s.len(),
{
    if i < s.len() - 1 {
        assert(s.drop_last()[i] == s[i]);
        assert forall|j: int| i < j < s.drop_last().len() implies (#[trigger] s.drop_last()[j]).0@ != k by {
            assert(s.drop_last()[j] == s[j]);
        }
        lemma_entries_map_found(s.drop_last(), k, i);
        assert(s[s.len() - 1].0@ != k);
    }
}

proof fn lemma_entries_map_absent(s: Seq<(String, String)>, k: Seq<char>)
    requires
        forall|j: int| 0 <= j < s.len() ==> (#[trigger] s[j]).0@ != k,
    ensures
        !entries_map(s).contains_key(k),
    decreases s.len(),
{
    if s.len() > 0 {
        assert forall|j: int| 0 <= j < s.drop_last().len() implies (#[trigger] s.drop_last()[j]).0@ != k by {
            assert(s.drop_last()[j] == s[j]);
        }
        lemma_entries_map_absent(s.drop_last(), k);
        assert(s[s.len() - 1].0@ != k);
    }
}

/// Directory names that configuration gives to profiles, by profile name.
pub struct ProfileOverrides {
    entries: Vec<(String, String)>,
}

impl View for ProfileOverrides {
    type V = Map<Seq<char>, Seq<char>>;

    closed spec fn view(&self) -> Map<Seq<char>, Seq<char>> {
        entries_map(self.entries@)
    }
}

impl ProfileOverrides {
    /// A table with no overrides.
    pub fn new() -> (r: ProfileOverrides)
        ensures
            r@ == Map::<Seq<char>, Seq<char>>::empty(),
    {
        ProfileOverrides { entries: Vec::new() }
    }

    /// Sets the directory name of `profile`, replacing any earlier one.
    pub fn insert(&mut self, profile: String, dir_name: String)
        ensures
            final(self)@ == old(self)@.insert(profile@, dir_name@),
    {
        let ghost before = self.entries@;
        self.entries.push((profile, dir_name));
        assert(self.entries@.drop_last() =~= before);
    }

    /// The directory name configured for `profile`, if any.
    pub fn get(&self, profile: &str) -> (r: Option<&String>)
        ensures
            r matches Some(d) ==> self@.contains_key(profile@) && self@[profile@] == d@,
            r is None ==> !self@.contains_key(profile@),
    {
        let mut i: usize = self.entries.len();
        while i > 0
            invariant
                i <= self.entries@.len(),
                forall|j: int| i <= j < self.entries@.len() ==> (#[trigger] self.entries@[j]).0@ != profile@,
            decreases i,
        {
            i = i - 1;
            if same_text(self.entries[i].0.as_str(), profile) {
                proof {
                    lemma_entries_map_found(self.entries@, profile@, i as int);
                }
                return Some(&self.entries[i].1);
            }
        }
        proof {
            lemma_entries_map_absent(self.entries@, profile@);
        }
        None
    }
}

/// The directory name of a profile: the configured override if there is
/// one; otherwise `dev` and `test` build into `debug`, `bench` and `release`
/// into `release`, and any other profile into a directory of its own name.
pub open spec fn profile_dir(profile: Seq<char>, overrides: Map<Seq<char>, Seq<char>>) -> Seq<char> {
    if overrides.contains_key(profile) {
        overrides[profile]
    } else if profile == "dev"@ || profile == "test"@ {
        "debug"@
    } else if profile == "bench"@ || profile == "release"@ {
        "release"@
    } else {
        profile
    }
}

/// Resolves the on-disk directory name of `profile`.
pub fn resolve_profile_dir_name(profile: &str, overrides: &ProfileOverrides) -> (r: String)
    ensures
        r@ == profile_dir(profile@, overrides@),
{
    if let Some(dir) = overrides.get(profile) {
        return dir.clone();
    }
    if same_text(profile, "dev") || same_text(profile, "test") {
        "debug".to_owned()
    } else if same_text(profile, "bench") || same_text(profile, "release") {
        "release".to_owned()
    } else {
        profile.to_owned()
    }
}

/// The directories of `profile` under each of `targets`.
pub open spec fn target_dirs(
    root: Seq<char>,
    profile: Seq<char>,
    targets: Seq<String>,
    overrides: Map<Seq<char>, Seq<char>>,
) -> Set<Seq<char>> {
    Set::new(
        |q: Seq<char>|
            exists|t: int|
                0 <= t < targets.len() && q == join_path(
                    join_path(root, (#[trigger] targets[t])@),
                    profile_dir(profile, overrides),
                ),
    )
}

/// The directories of one profile: directly under `root` when no target is
/// given, else under each target.
pub open spec fn dirs_for_profile(
    root: Seq<char>,
    profile: Seq<char>,
    targets: Seq<String>,
    overrides: Map<Seq<char>, Seq<char>>,
) -> Set<Seq<char>> {
    if targets.len() == 0 {
        set![join_path(root, profile_dir(profile, overrides))]
    } else {
        target_dirs(root, profile, targets, overrides)
    }
}

/// Every directory that the given profiles and targets select.
pub open spec fn work_dir_candidates(
    root: Seq<char>,
    profiles: Seq<String>,
    targets: Seq<String>,
    overrides: Map<Seq<char>, Seq<char>>,
) -> Set<Seq<char>> {
    Set::new(
        |q: Seq<char>|
            exists|i: int|
                0 <= i < profiles.len() && #[trigger] dirs_for_profile(
                    root,
                    profiles[i]@,
                    targets,
                    overrides,
                ).contains(q),
    )
}

/// The work directories for explicit profiles and targets, sorted and
/// without duplicates.
pub fn resolve_work_dirs(
    target_dir: &str,
    profiles: &[String],
    targets: &[String],
    overrides: &ProfileOverrides,
) -> (r: Vec<String>)
    ensures
        strictly_sorted(r@),
        path_set(r@) == work_dir_candidates(target_dir@, profiles@, targets@, overrides@),
{
    let mut out: Vec<String> = Vec::new();
    let n = profiles.len();
    let m = targets.len();
    let mut i: usize = 0;
    while i < n
        invariant
            n == profiles@.len(),
            m == targets@.len(),
            i <= n,
            strictly_sorted(out@),
            path_set(out@) == work_dir_candidates(
                target_dir@,
                profiles@.subrange(0, i as int),
                targets@,
                overrides@,
            ),
        decreases n - i,
    {
        let ghost done = path_set(out@);
        let profile_dir_name = resolve_profile_dir_name(profiles[i].as_str(), overrides);
        if m == 0 {
            let p = join(target_dir, profile_dir_name.as_str());
            insert_path(&mut out, p);
        } else {
            let mut t: usize = 0;
            while t < m
                invariant
                    m == targets@.len(),
                    t <= m,
                    i < n,
                    n == profiles@.len(),
                    profile_dir_name@ == profile_dir(profiles@[i as int]@, overrides@),
                    strictly_sorted(out@),
                    path_set(out@) == done + target_dirs(
                        target_dir@,
                        profiles@[i as int]@,
                        targets@.subrange(0, t as int),
                        overrides@,
                    ),
                decreases m - t,
            {
                let base = join(target_dir, targets[t].as_str());
                let p = join(base.as_str(), profile_dir_name.as_str());
                let ghost prev = targets@.subrange(0, t as int);
                let ghost next = targets@.subrange(0, t + 1);
                insert_path(&mut out, p);
                assert(target_dirs(target_dir@, profiles@[i as int]@, next, overrides@) =~= target_dirs(
                    target_dir@,
                    profiles@[i as int]@,
                    prev,
                    overrides@,
                ).insert(p@)) by {
                    assert(next[t as int] == targets@[t as int]);
                    assert forall|q: Seq<char>| target_dirs(target_dir@, profiles@[i as int]@, prev, overrides@).contains(q) implies
                        target_dirs(target_dir@, profiles@[i as int]@, next, overrides@).contains(q) by {
                        let k = choose|k: int| 0 <= k < prev.len() && q == join_path(
                            join_path(target_dir@, (#[trigger] prev[k])@),
                            profile_dir(profiles@[i as int]@, overrides@),
                        );
                        assert(next[k] == prev[k]);
                    }
                    assert forall|q: Seq<char>| target_dirs(target_dir@, profiles@[i as int]@, next, overrides@).contains(q) implies
                        target_dirs(target_dir@, profiles@[i as int]@, prev, overrides@).insert(p@).contains(q) by {
                        let k = choose|k: int| 0 <= k < next.len() && q == join_path(
                            join_path(target_dir@, (#[trigger] next[k])@),
                            profile_dir(profiles@[i as int]@, overrides@),
                        );
                        if k < t {
                            assert(next[k] == prev[k]);
                        }
                    }
                }
                t = t + 1;
            }
            assert(targets@.subrange(0, m as int) =~= targets@);
        }
        let ghost prev = profiles@.subrange(0, i as int);
        let ghost next = profiles@.subrange(0, i + 1);
        let ghost here = dirs_for_profile(target_dir@, profiles@[i as int]@, targets@, overrides@);
        assert(path_set(out@) =~= done + here);
        assert(work_dir_candidates(target_dir@, next, targets@, overrides@) =~= work_dir_candidates(
            target_dir@,
            prev,
            targets@,
            overrides@,
        ) + here) by {
            assert(next[i as int] == profiles@[i as int]);
            assert forall|q: Seq<char>| work_dir_candidates(target_dir@, prev, targets@, overrides@).contains(q) implies
                work_dir_candidates(target_dir@, next, targets@, overrides@).contains(q) by {
                let k = choose|k: int| 0 <= k < prev.len() && #[trigger] dirs_for_profile(
                    target_dir@,
                    prev[k]@,
                    targets@,
                    overrides@,
                ).contains(q);
                assert(next[k] == prev[k]);
            }
            assert forall|q: Seq<char>| work_dir_candidates(target_dir@, next, targets@, overrides@).contains(q) implies
                work_dir_candidates(target_dir@, prev, targets@, overrides@).contains(q) || here.contains(q) by {
                let k = choose|k: int| 0 <= k < next.len() && #[trigger] dirs_for_profile(
                    target_dir@,
                    next[k]@,
                    targets@,
                    overrides@,
                ).contains(q);
                if k < i {
                    assert(next[k] == prev[k]);
                }
            }
        }
        i = i + 1;
    }
    assert(profiles@.subrange(0, n as int) =~= profiles@);
    out
}

/// Without overrides, `dev` and `test` resolve to `debug`, `bench` and
/// `release` to `release`, and every other profile to its own name.
pub proof fn lemma_builtin_profile_dirs(other: Seq<char>)
    requires
        other != "dev"@,
        other != "test"@,
        other != "bench"@,
        other != "release"@,
    ensures
        profile_dir("dev"@, Map::empty()) == "debug"@,
        profile_dir("test"@, Map::empty()) == "debug"@,
        profile_dir("bench"@, Map::empty()) == "release"@,
        profile_dir("release"@, Map::empty()) == "release"@,
        profile_dir(other, Map::empty()) == other,
{
    reveal_strlit("dev");
    reveal_strlit("test");
    reveal_strlit("bench");
    reveal_strlit("release");
    assert("bench"@ != "dev"@ && "bench"@ != "test"@) by {
        assert("bench"@[0] != "dev"@[0] && "bench"@[0] != "test"@[0]);
    }
    assert("release"@ != "dev"@ && "release"@ != "test"@) by {
        assert("release"@[0] != "dev"@[0] && "release"@[0] != "test"@[0]);
    }
}

/// A configured directory name for a profile wins over the built-in names.
pub proof fn lemma_override_wins(profile: Seq<char>, overrides: Map<Seq<char>, Seq<char>>)
    requires
        overrides.contains_key(profile),
    ensures
        profile_dir(profile, overrides) == overrides[profile],
{
}

/// Two profiles without targets that resolve to the same directory name
/// give a single work directory.
pub proof fn lemma_same_dir_profiles_collapse(
    root: Seq<char>,
    profiles: Seq<String>,
    overrides: Map<Seq<char>, Seq<char>>,
    r: Seq<String>,
)
    requires
        profiles.len() == 2,
        profile_dir(profiles[0]@, overrides) == profile_dir(profiles[1]@, overrides),
        strictly_sorted(r),
        path_set(r) == work_dir_candidates(root, profiles, Seq::empty(), overrides),
    ensures
        r.len() == 1,
        r[0]@ == join_path(root, profile_dir(profiles[0]@, overrides)),
{
    let x = join_path(root, profile_dir(profiles[0]@, overrides));
    let empty = Seq::<String>::empty();
    assert(dirs_for_profile(root, profiles[0]@, empty, overrides).contains(x));
    assert(path_set(r).contains(x));
    assert forall|k: int| 0 <= k < r.len() implies #[trigger] r[k]@ == x by {
        assert(path_set(r).contains(r[k]@));
        let i = choose|i: int| 0 <= i < profiles.len() && #[trigger] dirs_for_profile(
            root,
            profiles[i]@,
            empty,
            overrides,
        ).contains(r[k]@);
    }
    if r.len() >= 2 {
        lemma_sorted_unique(r, 0, 1);
    }
}

/// One profile under two targets gives exactly the profile's directory under
/// each target, in lexicographic order.
pub proof fn lemma_profile_under_two_targets(
    root: Seq<char>,
    profile: String,
    t1: String,
    t2: String,
    overrides: Map<Seq<char>, Seq<char>>,
    r: Seq<String>,
)
    requires
        strictly_sorted(r),
        path_set(r) == work_dir_candidates(root, seq![profile], seq![t1, t2], overrides),
    ensures
        ({
            let a = join_path(join_path(root, t1@), profile_dir(profile@, overrides));
            let b = join_path(join_path(root, t2@), profile_dir(profile@, overrides));
            &&& path_set(r) == set![a, b]
            &&& a == b ==> r.len() == 1 && r[0]@ == a
            &&& text_lt(a, b) ==> r.len() == 2 && r[0]@ == a && r[1]@ == b
            &&& text_lt(b, a) ==> r.len() == 2 && r[0]@ == b && r[1]@ == a
        }),
{
    let a = join_path(join_path(root, t1@), profile_dir(profile@, overrides));
    let b = join_path(join_path(root, t2@), profile_dir(profile@, overrides));
    let ps = seq![profile];
    let ts = seq![t1, t2];
    assert(ps[0] == profile);
    assert(ts[0] == t1 && ts[1] == t2);
    assert(path_set(r) =~= set![a, b]) by {
        assert(target_dirs(root, profile@, ts, overrides).contains(a));
        assert(target_dirs(root, profile@, ts, overrides).contains(b));
        assert(dirs_for_profile(root, ps[0]@, ts, overrides).contains(a));
        assert(dirs_for_profile(root, ps[0]@, ts, overrides).contains(b));
    }
    assert(path_set(r).contains(a) && path_set(r).contains(b));
    assert forall|k: int| 0 <= k < r.len() implies #[trigger] r[k]@ == a || r[k]@ == b by {
        assert(path_set(r).contains(r[k]@));
    }
    let ia = choose|i: int| 0 <= i < r.len() && #[trigger] r[i]@ == a;
    let ib = choose|i: int| 0 <= i < r.len() && #[trigger] r[i]@ == b;
    if r.len() >= 3 {
        if r[0]@ == r[1]@ {
            lemma_sorted_unique(r, 0, 1);
        } else if r[0]@ == r[2]@ {
            lemma_sorted_unique(r, 0, 2);
        } else {
            lemma_sorted_unique(r, 1, 2);
        }
    }
    assert(r.len() <= 2);
    if a == b {
        if r.len() == 2 {
            assert(r[0]@ == a && r[1]@ == a);
            lemma_sorted_unique(r, 0, 1);
        }
        assert(r.len() == 1 && r[0]@ == a);
        crate::text::lemma_text_lt_irreflexive(a);
    } else {
        if text_lt(a, b) && text_lt(b, a) {
            crate::text::lemma_text_lt_transitive(a, b, a);
            crate::text::lemma_text_lt_irreflexive(a);
        }
        assert(ia != ib);
        assert(r.len() == 2);
        if text_lt(a, b) {
            if ia == 1 {
                assert(r[0]@ == b);
                assert(text_lt(r[0]@, r[1]@));
                crate::text::lemma_text_lt_transitive(a, b, a);
                crate::text::lemma_text_lt_irreflexive(a);
            }
            assert(r[0]@ == a && r[1]@ == b);
        }
        if text_lt(b, a) {
            if ib == 1 {
                assert(r[0]@ == a);
                assert(text_lt(r[0]@, r[1]@));
                crate::text::lemma_text_lt_transitive(a, b, a);
                crate::text::lemma_text_lt_irreflexive(a);
            }
            assert(r[0]@ == b && r[1]@ == a);
        }
    }
}

} // verus!
