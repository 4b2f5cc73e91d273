//! The sum of the stakes held by a finite map.

use vstd::prelude::*;

verus! {

/// The sum of all values of `m`; zero for a map that is empty or not finite.
pub open spec fn map_sum<K>(m: Map<K, u64>) -> nat
    decreases m.dom().len(),
{
    if m.dom().finite() && m.dom().len() > 0 {
        let k = m.dom().choose();
        m[k] as nat + map_sum(m.remove(k))
    } else {
        0
    }
}

/// Any one key can be taken out of the sum first.
pub proof fn lemma_map_sum_remove<K>(m: Map<K, u64>, key: K)
    requires
        m.dom().finite(),
        m.contains_key(key),
    ensures
        map_sum(m) == m[key] as nat + map_sum(m.remove(key)),
    decreases m.dom().len(),
{
    let k = m.dom().choose();
    if k != key {
        let rest = m.remove(k);
        lemma_map_sum_remove(rest, key);
        lemma_map_sum_remove(m.remove(key), k);
        assert(rest.remove(key) =~= m.remove(key).remove(k));
    }
}

/// Writing `value` under `key` replaces what `key` held before in the sum.
pub proof fn lemma_map_sum_insert<K>(m: Map<K, u64>, key: K, value: u64)
    requires
        m.dom().finite(),
    ensures
        map_sum(m.insert(key, value)) == map_sum(m) + value - (if m.contains_key(key) {
            m[key] as nat
        } else {
            0
        }),
{
    let after = m.insert(key, value);
    lemma_map_sum_remove(after, key);
    assert(after.remove(key) =~= m.remove(key));
    if m.contains_key(key) {
        lemma_map_sum_remove(m, key);
    } else {
        assert(m.remove(key) =~= m);
    }
}

/// No single stake exceeds the sum.
pub proof fn lemma_map_sum_bounds_entry<K>(m: Map<K, u64>, key: K)
    requires
        m.dom().finite(),
        m.contains_key(key),
    ensures
        m[key] <= map_sum(m),
{
    lemma_map_sum_remove(m, key);
}

/// A map that holds part of another, with the same stakes, sums to no more.
pub proof fn lemma_map_sum_submap<K>(part: Map<K, u64>, whole: Map<K, u64>)
    requires
        whole.dom().finite(),
        part.submap_of(whole),
    ensures
        part.dom().finite(),
        map_sum(part) <= map_sum(whole),
    decreases whole.dom().len(),
{
    assert(part.dom().subset_of(whole.dom()));
    vstd::set_lib::lemma_len_subset(part.dom(), whole.dom());
    if part.dom().len() > 0 {
        let k = part.dom().choose();
        lemma_map_sum_remove(part, k);
        lemma_map_sum_remove(whole, k);
        assert(part.remove(k).submap_of(whole.remove(k)));
        lemma_map_sum_submap(part.remove(k), whole.remove(k));
    }
}

/// A map that holds part of another sums to the same where every stake that
/// it leaves out is zero.
pub proof fn lemma_map_sum_submap_rest_zero<K>(part: Map<K, u64>, whole: Map<K, u64>)
    requires
        whole.dom().finite(),
        part.submap_of(whole),
        forall|key: K| whole.contains_key(key) && !part.contains_key(key) ==> whole[key] == 0,
    ensures
        map_sum(part) == map_sum(whole),
    decreases whole.dom().len(),
{
    assert(part.dom().subset_of(whole.dom()));
    vstd::set_lib::lemma_len_subset(part.dom(), whole.dom());
    if whole.dom().len() > 0 {
        let k = whole.dom().choose();
        lemma_map_sum_remove(whole, k);
        if part.contains_key(k) {
            lemma_map_sum_remove(part, k);
            assert(part.remove(k).submap_of(whole.remove(k)));
            lemma_map_sum_submap_rest_zero(part.remove(k), whole.remove(k));
        } else {
            assert(part.submap_of(whole.remove(k)));
            lemma_map_sum_submap_rest_zero(part, whole.remove(k));
        }
    } else {
        assert(part.dom() =~= Set::empty());
    }
}

} // verus!
