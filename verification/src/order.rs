//! The live allocations of a map from address to length, in address order.
//!
//! A free-list allocator keeps its allocations in a map and walks them from
//! the lowest address up. This module says what that walk yields
//! (`entries_in_order`), how many bytes the entries hold (`total_len`), and
//! proves that both follow an insertion or a removal in the way one expects.

use std::collections::BTreeMap;
use vstd::prelude::*;
use vstd::std_specs::btree::increasing_seq;
use vstd::std_specs::cmp::OrdSpec;

verus! {

/// Whether the addresses of `s` ascend strictly.
pub open spec fn ascending(s: Seq<(usize, usize)>) -> bool {
    forall|i: int, j: int| 0 <= i < j < s.len() ==> (#[trigger] s[i]).0 < (#[trigger] s[j]).0
}

/// Whether `s` holds exactly the entries of `m`, lowest address first.
pub open spec fn lists(s: Seq<(usize, usize)>, m: Map<usize, usize>) -> bool {
    &&& ascending(s)
    &&& forall|i: int| 0 <= i < s.len() ==> m.contains_pair((#[trigger] s[i]).0, s[i].1)
    &&& forall|k: usize| #[trigger]
        m.contains_key(k) ==> exists|i: int| 0 <= i < s.len() && (#[trigger] s[i]).0 == k
}

/// The entries of `m` whose address is below `bound`, lowest address first.
pub open spec fn entries_below(m: Map<usize, usize>, bound: nat) -> Seq<(usize, usize)>
    decreases bound,
{
    if bound == 0 {
        Seq::empty()
    } else {
        let below = entries_below(m, (bound - 1) as nat);
        let k = (bound - 1) as usize;
        if bound - 1 <= usize::MAX && m.contains_key(k) {
            below.push((k, m[k]))
        } else {
            below
        }
    }
}

/// All entries of `m`, lowest address first.
pub open spec fn entries_in_order(m: Map<usize, usize>) -> Seq<(usize, usize)> {
    entries_below(m, (usize::MAX + 1) as nat)
}

/// The lengths of the entries of `m` whose address is below `bound`, added
/// up.
pub open spec fn len_below(m: Map<usize, usize>, bound: nat) -> nat
    decreases bound,
{
    if bound == 0 {
        0
    } else {
        let below = len_below(m, (bound - 1) as nat);
        let k = (bound - 1) as usize;
        if bound - 1 <= usize::MAX && m.contains_key(k) {
            below + m[k] as nat
        } else {
            below
        }
    }
}

/// The lengths of all entries of `m`, added up.
pub open spec fn total_len(m: Map<usize, usize>) -> nat {
    len_below(m, (usize::MAX + 1) as nat)
}

/// `entries_below(m, bound)` ascends, holds only entries of `m` below
/// `bound`, and holds each of them.
pub proof fn lemma_entries_below(m: Map<usize, usize>, bound: nat)
    requires
        bound <= usize::MAX + 1,
    ensures
        ascending(entries_below(m, bound)),
        forall|i: int|
            0 <= i < entries_below(m, bound).len() ==> {
                let e = #[trigger] entries_below(m, bound)[i];
                m.contains_pair(e.0, e.1) && e.0 < bound
            },
        forall|k: usize| #[trigger]
            m.contains_key(k) && k < bound ==> exists|i: int|
                0 <= i < entries_below(m, bound).len() && (#[trigger] entries_below(
                    m,
                    bound,
                )[i]).0 == k,
    decreases bound,
{
    if bound > 0 {
        let below = entries_below(m, (bound - 1) as nat);
        let all = entries_below(m, bound);
        lemma_entries_below(m, (bound - 1) as nat);
        let top = (bound - 1) as usize;
        assert forall|k: usize| #[trigger] m.contains_key(k) && k < bound implies exists|i: int|
            0 <= i < all.len() && (#[trigger] all[i]).0 == k by {
            if k == top {
                assert(all[all.len() - 1].0 == k);
            } else {
                let i = choose|i: int| 0 <= i < below.len() && (#[trigger] below[i]).0 == k;
                assert(all[i].0 == k);
            }
        }
    }
}

/// The walk in address order lists the map.
pub proof fn lemma_entries_in_order(m: Map<usize, usize>)
    ensures
        lists(entries_in_order(m), m),
{
    lemma_entries_below(m, (usize::MAX + 1) as nat);
}

/// Only one sequence lists a map.
pub proof fn lemma_lists_unique(s1: Seq<(usize, usize)>, s2: Seq<(usize, usize)>, m: Map<
    usize,
    usize,
>)
    requires
        lists(s1, m),
        lists(s2, m),
    ensures
        s1 == s2,
    decreases s1.len(),
{
    if s1.len() == 0 {
        if s2.len() > 0 {
            assert(m.contains_key(s2[0].0));
        }
        assert(s1 =~= s2);
    } else {
        let last1 = s1[s1.len() - 1];
        assert(m.contains_key(last1.0));
        let j = choose|j: int| 0 <= j < s2.len() && (#[trigger] s2[j]).0 == last1.0;
        let last2 = s2[s2.len() - 1];
        assert(m.contains_key(last2.0));
        let i = choose|i: int| 0 <= i < s1.len() && (#[trigger] s1[i]).0 == last2.0;
        assert(last1.0 == last2.0) by {
            if i < s1.len() - 1 {
                assert(s1[i].0 < last1.0);
            }
            if j < s2.len() - 1 {
                assert(s2[j].0 < last2.0);
            }
        }
        let top = last1.0;
        let rest = m.remove(top);
        let t1 = s1.drop_last();
        let t2 = s2.drop_last();
        lemma_drop_last_lists(s1, m);
        lemma_drop_last_lists(s2, m);
        lemma_lists_unique(t1, t2, rest);
        assert(s1 =~= t1.push(last1));
        assert(s2 =~= t2.push(last2));
    }
}

/// Without its last entry a listing lists the map without its highest
/// address.
proof fn lemma_drop_last_lists(s: Seq<(usize, usize)>, m: Map<usize, usize>)
    requires
        lists(s, m),
        s.len() > 0,
    ensures
        lists(s.drop_last(), m.remove(s[s.len() - 1].0)),
{
    let t = s.drop_last();
    let top = s[s.len() - 1].0;
    let rest = m.remove(top);
    assert forall|i: int| 0 <= i < t.len() implies rest.contains_pair((#[trigger] t[i]).0, t[i].1) by {
        assert(t[i] == s[i]);
        assert(s[i].0 < s[s.len() - 1].0);
    }
    assert forall|k: usize| #[trigger] rest.contains_key(k) implies exists|i: int|
        0 <= i < t.len() && (#[trigger] t[i]).0 == k by {
        assert(m.contains_key(k));
        let i = choose|i: int| 0 <= i < s.len() && (#[trigger] s[i]).0 == k;
        assert(t[i] == s[i]);
    }
    assert forall|i: int, j: int| 0 <= i < j < t.len() implies (#[trigger] t[i]).0 < (
    #[trigger] t[j]).0 by {
        assert(t[i] == s[i] && t[j] == s[j]);
    }
}

/// A sequence that lists a map is the walk in address order.
pub proof fn lemma_lists_is_in_order(s: Seq<(usize, usize)>, m: Map<usize, usize>)
    requires
        lists(s, m),
    ensures
        s == entries_in_order(m),
{
    lemma_entries_in_order(m);
    lemma_lists_unique(s, entries_in_order(m), m);
}

/// How the sum below a bound follows the map: an entry counts with its own
/// length, whatever the other entries are.
pub proof fn lemma_len_below_remove(m: Map<usize, usize>, k: usize, bound: nat)
    requires
        bound <= usize::MAX + 1,
    ensures
        len_below(m, bound) == len_below(m.remove(k), bound) + if m.contains_key(k) && k < bound {
            m[k] as int
        } else {
            0
        },
    decreases bound,
{
    if bound > 0 {
        lemma_len_below_remove(m, k, (bound - 1) as nat);
    }
}

/// Two maps that agree but for one address have the same sum once that
/// address is taken out.
pub proof fn lemma_len_below_insert(m: Map<usize, usize>, k: usize, v: usize, bound: nat)
    requires
        bound <= usize::MAX + 1,
    ensures
        len_below(m.insert(k, v), bound) == len_below(m.remove(k), bound) + if k < bound {
            v as int
        } else {
            0
        },
    decreases bound,
{
    if bound > 0 {
        lemma_len_below_insert(m, k, v, (bound - 1) as nat);
    }
}

/// Removing an entry takes its length off the total.
pub proof fn lemma_total_len_remove(m: Map<usize, usize>, k: usize)
    ensures
        total_len(m.remove(k)) == total_len(m) - if m.contains_key(k) {
            m[k] as int
        } else {
            0
        },
{
    lemma_len_below_remove(m, k, (usize::MAX + 1) as nat);
}

/// Inserting an entry puts its length in the place of what the address held
/// before.
pub proof fn lemma_total_len_insert(m: Map<usize, usize>, k: usize, v: usize)
    ensures
        total_len(m.insert(k, v)) == total_len(m) + v - if m.contains_key(k) {
            m[k] as int
        } else {
            0
        },
{
    lemma_len_below_insert(m, k, v, (usize::MAX + 1) as nat);
    lemma_len_below_remove(m, k, (usize::MAX + 1) as nat);
}

/// A map without entries has the total zero.
pub proof fn lemma_total_len_empty()
    ensures
        total_len(Map::<usize, usize>::empty()) == 0,
{
    lemma_len_below_empty((usize::MAX + 1) as nat);
}

proof fn lemma_len_below_empty(bound: nat)
    ensures
        len_below(Map::<usize, usize>::empty(), bound) == 0,
    decreases bound,
{
    if bound > 0 {
        lemma_len_below_empty((bound - 1) as nat);
    }
}

/// Integers of machine-word size are ordered as `Ord` promises, which is
/// what the contracts of an ordered map over them ask for.
pub proof fn lemma_word_keys_ordered()
    ensures
        vstd::laws_cmp::obeys_cmp::<usize>(),
        vstd::std_specs::btree::key_obeys_cmp_spec::<usize>(),
{
    broadcast use vstd::laws_cmp::group_laws_cmp;
    broadcast use vstd::std_specs::btree::group_btree_axioms;

}

/// What an ordered map's iterator yields lists the map.
pub proof fn lemma_iter_lists(m: &BTreeMap<usize, usize>, r: Seq<(&usize, &usize)>)
    requires
        increasing_seq(r.map_values(|kv: (&usize, &usize)| *kv.0)),
        r.unref().to_set() == m@.kv_pairs(),
    ensures
        lists(r.unref(), m@),
        r.unref() == entries_in_order(m@),
{
    broadcast use vstd::laws_cmp::group_laws_cmp;
    broadcast use vstd::std_specs::btree::group_btree_axioms;

    let keys = r.map_values(|kv: (&usize, &usize)| *kv.0);
    let s = r.unref();
    assert forall|i: int, j: int| 0 <= i < j < s.len() implies (#[trigger] s[i]).0 < (
    #[trigger] s[j]).0 by {
        assert(keys[i] == s[i].0);
        assert(keys[j] == s[j].0);
        assert(keys[i].cmp_spec(&keys[j]) is Less);
    }
    assert forall|i: int| 0 <= i < s.len() implies m@.contains_pair((#[trigger] s[i]).0, s[i].1) by {
        assert(s.to_set().contains(s[i]));
        assert(m@.kv_pairs().contains(s[i]));
    }
    assert forall|k: usize| #[trigger] m@.contains_key(k) implies exists|i: int|
        0 <= i < s.len() && (#[trigger] s[i]).0 == k by {
        assert(m@.kv_pairs().contains((k, m@[k])));
        assert(s.to_set().contains((k, m@[k])));
        let i = choose|i: int| 0 <= i < s.len() && s[i] == (k, m@[k]);
        assert(s[i].0 == k);
    }
    lemma_lists_is_in_order(s, m@);
}

} // verus!
