//! An ordered set of paths, kept as a strictly increasing `Vec<String>`.
use vstd::prelude::*;

use crate::text::{lemma_text_lt_irreflexive, lemma_text_lt_total, lemma_text_lt_transitive, same_text, text_less, text_lt};

verus! {

/// Every path comes strictly before every later one: sorted and free of
/// duplicates.
pub open spec fn strictly_sorted(s: Seq<String>) -> bool {
    forall|i: int, j: int| 0 <= i < j < s.len() ==> text_lt(#[trigger] s[i]@, #[trigger] s[j]@)
}

/// The paths that `s` holds.
pub open spec fn path_set(s: Seq<String>) -> Set<Seq<char>> {
    Set::new(|p: Seq<char>| exists|i: int| 0 <= i < s.len() && #[trigger] s[i]@ == p)
}

/// Adds `p` to the ordered set `set`, keeping it strictly sorted.
pub fn insert_path(set: &mut Vec<String>, p: String)
    requires
        strictly_sorted(old(set)@),
    ensures
        strictly_sorted(final(set)@),
        path_set(final(set)@) == path_set(old(set)@).insert(p@),
{
    let n = set.len();
    let mut i: usize = 0;
    while i < n && text_less(set[i].as_str(), p.as_str())
        invariant
            n == set@.len(),
            i <= n,
            forall|j: int| 0 <= j < i ==> text_lt(#[trigger] set@[j]@, p@),
        decreases n - i,
    {
        i = i + 1;
    }
    if i < n && same_text(set[i].as_str(), p.as_str()) {
        assert(path_set(set@) =~= path_set(set@).insert(p@)) by {
            assert(set@[i as int]@ == p@);
        }
        return;
    }
    if i < n {
        proof {
            lemma_text_lt_total(set@[i as int]@, p@);
        }
        assert forall|j: int| i <= j < n implies text_lt(p@, #[trigger] set@[j]@) by {
            if j > i {
                lemma_text_lt_transitive(p@, set@[i as int]@, set@[j]@);
            }
        }
    }
    let ghost before = set@;
    set.insert(i, p);
    assert(set@ =~= before.insert(i as int, p));
    assert forall|a: int, b: int| 0 <= a < b < set@.len() implies text_lt(
        #[trigger] set@[a]@,
        #[trigger] set@[b]@,
    ) by {
        if b < i {
        } else if b == i {
        } else if a < i {
            lemma_text_lt_transitive(set@[a]@, p@, set@[b]@);
        } else if a == i {
        } else {
            assert(set@[a] == before[a - 1]);
            assert(set@[b] == before[b - 1]);
        }
    }
    assert(path_set(set@) =~= path_set(before).insert(p@)) by {
        assert forall|q: Seq<char>| path_set(before).insert(p@).contains(q) implies path_set(
            set@,
        ).contains(q) by {
            if q == p@ {
                assert(set@[i as int]@ == q);
            } else {
                let k = choose|k: int| 0 <= k < before.len() && #[trigger] before[k]@ == q;
                if k < i {
                    assert(set@[k]@ == q);
                } else {
                    assert(set@[k + 1]@ == q);
                }
            }
        }
        assert forall|q: Seq<char>| path_set(set@).contains(q) implies path_set(
            before,
        ).insert(p@).contains(q) by {
            let k = choose|k: int| 0 <= k < set@.len() && #[trigger] set@[k]@ == q;
            if k < i {
                assert(before[k]@ == q);
            } else if k > i {
                assert(before[k - 1]@ == q);
            }
        }
    }
}

/// A strictly sorted sequence holds each of its paths once: the number of
/// its entries is the number of distinct paths in it.
pub proof fn lemma_sorted_unique(s: Seq<String>, i: int, j: int)
    requires
        strictly_sorted(s),
        0 <= i < s.len(),
        0 <= j < s.len(),
        s[i]@ == s[j]@,
    ensures
        i == j,
{
    if i < j {
        lemma_text_lt_irreflexive(s[i]@);
    } else if j < i {
        lemma_text_lt_irreflexive(s[i]@);
    }
}

/// The union of `f(0)`, ..., `f(n - 1)`.
pub open spec fn union_upto(n: int, f: spec_fn(int) -> Set<Seq<char>>) -> Set<Seq<char>> {
    Set::new(|q: Seq<char>| exists|i: int| 0 <= i < n && #[trigger] f(i).contains(q))
}

pub proof fn lemma_union_upto_step(n: int, f: spec_fn(int) -> Set<Seq<char>>)
    requires
        0 <= n,
    ensures
        union_upto(n + 1, f) == union_upto(n, f) + f(n),
{
    assert(union_upto(n + 1, f) =~= union_upto(n, f) + f(n));
}

pub proof fn lemma_union_upto_zero(f: spec_fn(int) -> Set<Seq<char>>)
    ensures
        union_upto(0, f) == Set::<Seq<char>>::empty(),
{
    assert(union_upto(0, f) =~= Set::<Seq<char>>::empty());
}

} // verus!
