//! Small association lists keyed by target, used for the fingerprint
//! tables of the build cache and the scheduler's compare memo. The
//! spec view reads from the end, so the last entry for a key wins;
//! with distinct keys that is the unique entry.

use vstd::prelude::*;

use crate::target::Target;

verus! {

/// The value associated with a target, reading from the end.
pub open spec fn alist_get<V>(s: Seq<(Target, V)>, t: Target) -> Option<V>
    decreases s.len(),
{
    if s.len() == 0 {
        None
    } else if s.last().0 == t {
        Some(s.last().1)
    } else {
        alist_get(s.drop_last(), t)
    }
}

/// Whether the keys of an association list are pairwise distinct.
pub open spec fn alist_distinct<V>(s: Seq<(Target, V)>) -> bool {
    forall|i: int, j: int| 0 <= i < j < s.len() ==> (#[trigger] s[i]).0 != (#[trigger] s[j]).0
}

/// Appending an entry changes exactly the looked-up key.
pub proof fn lemma_alist_get_push<V>(s: Seq<(Target, V)>, k: Target, v: V)
    ensures
        forall|t: Target| #[trigger]
            alist_get(s.push((k, v)), t) == if t == k {
                Some(v)
            } else {
                alist_get(s, t)
            },
{
    assert forall|t: Target| #[trigger]
        alist_get(s.push((k, v)), t) == if t == k {
            Some(v)
        } else {
            alist_get(s, t)
        } by {
        assert(s.push((k, v)).drop_last() =~= s);
    }
}

/// A key that looks up to nothing occurs nowhere in the list.
pub proof fn lemma_alist_get_none<V>(s: Seq<(Target, V)>, t: Target)
    requires
        alist_get(s, t) is None,
    ensures
        forall|m: int| 0 <= m < s.len() ==> (#[trigger] s[m]).0 != t,
    decreases s.len(),
{
    if s.len() > 0 {
        assert(s.last().0 != t);
        lemma_alist_get_none(s.drop_last(), t);
        assert forall|m: int| 0 <= m < s.len() implies (#[trigger] s[m]).0 != t by {
            if m < s.len() - 1 {
                assert(s.drop_last()[m] == s[m]);
            } else {
                assert(s[m] == s.last());
            }
        }
    }
}

/// Under distinct keys, a key present in the list looks up to the
/// value stored beside it.
pub proof fn lemma_alist_get_present<V>(s: Seq<(Target, V)>, m: int)
    requires
        alist_distinct(s),
        0 <= m < s.len(),
    ensures
        alist_get(s, s[m].0) == Some(s[m].1),
    decreases s.len(),
{
    if m == s.len() - 1 {
    } else {
        lemma_alist_get_present(s.drop_last(), m);
        assert(s.drop_last()[m] == s[m]);
    }
}

/// Looks up the value of a target in an association list.
pub fn alist_lookup<V: Copy>(v: &Vec<(Target, V)>, t: Target) -> (r: Option<V>)
    ensures
        r == alist_get(v@, t),
{
    let mut i: usize = v.len();
    assert(v@.subrange(0, v@.len() as int) =~= v@);
    while i > 0
        invariant
            i <= v@.len(),
            alist_get(v@, t) == alist_get(v@.subrange(0, i as int), t),
        decreases i,
    {
        i = i - 1;
        if v[i].0 == t {
            assert(alist_get(v@.subrange(0, i as int + 1), t) == Some(v@[i as int].1));
            return Some(v[i].1);
        }
        assert(v@.subrange(0, i as int + 1).drop_last() =~= v@.subrange(0, i as int));
    }
    assert(v@.subrange(0, 0) =~= Seq::<(Target, V)>::empty());
    None
}

/// Copies an association list, leaving out every entry for the given
/// key.
pub fn alist_remove<V: Copy>(v: &Vec<(Target, V)>, t: Target) -> (r: Vec<(Target, V)>)
    requires
        alist_distinct(v@),
    ensures
        alist_distinct(r@),
        forall|t2: Target| #[trigger]
            alist_get(r@, t2) == if t2 == t {
                None
            } else {
                alist_get(v@, t2)
            },
{
    let mut out: Vec<(Target, V)> = Vec::new();
    let mut i: usize = 0;
    assert(v@.subrange(0, 0) =~= Seq::<(Target, V)>::empty());
    while i < v.len()
        invariant
            i <= v@.len(),
            alist_distinct(v@),
            alist_distinct(out@),
            forall|m: int| 0 <= m < out@.len() ==> exists|n: int|
                0 <= n < i && #[trigger] out@[m] == v@[n],
            forall|t2: Target| #[trigger]
                alist_get(out@, t2) == if t2 == t {
                    None
                } else {
                    alist_get(v@.subrange(0, i as int), t2)
                },
        decreases v@.len() - i,
    {
        assert(v@.subrange(0, i as int + 1).drop_last() =~= v@.subrange(0, i as int));
        if v[i].0 != t {
            proof {
                lemma_alist_get_push(out@, v@[i as int].0, v@[i as int].1);
            }
            let ghost old_out = out@;
            out.push(v[i]);
            assert forall|m: int| 0 <= m < out@.len() implies exists|n: int|
                0 <= n < i + 1 && #[trigger] out@[m] == v@[n] by {
                if m < out@.len() - 1 {
                    assert(out@[m] == old_out[m]);
                } else {
                    assert(out@[m] == v@[i as int]);
                }
            }
            assert forall|a: int, b: int| 0 <= a < b < out@.len() implies (#[trigger] out@[a]).0
                != (#[trigger] out@[b]).0 by {
                if b == out@.len() - 1 {
                    let n = choose|n: int| 0 <= n < i && old_out[a] == v@[n];
                    assert(out@[a] == v@[n]);
                    assert(out@[b] == v@[i as int]);
                }
            }
        }
        i = i + 1;
    }
    assert(v@.subrange(0, v@.len() as int) =~= v@);
    out
}

} // verus!
