//! An index from names to positions, kept in an `IndexMap`.

use crate::text::text_le;
use indexmap::IndexMap;
use vstd::prelude::*;

verus! {

/// The type `indexmap::IndexMap`, a hash map that keeps its entries in an
/// order. Nothing is said of what a value of it holds but through
/// `index_map_entries`.
#[verifier::external_type_specification]
#[verifier::external_body]
#[verifier::reject_recursive_types(K)]
#[verifier::reject_recursive_types(V)]
#[verifier::reject_recursive_types(S)]
pub struct ExIndexMap<K, V, S>(IndexMap<K, V, S>);

/// The entries of an `IndexMap` from paths to positions, in the order of the
/// map: each key by its text, with its value.
pub uninterp spec fn index_map_entries(m: IndexMap<String, usize>) -> Seq<(Seq<char>, usize)>;

/// Calls `IndexMap::new`, which makes a map without entries.
#[verifier::external_body]
pub(crate) fn index_new() -> (m: IndexMap<String, usize>)
    ensures
        index_map_entries(m) == Seq::<(Seq<char>, usize)>::empty(),
{
    IndexMap::new()
}

/// Calls `IndexMap::get`, which returns the value stored for the key, if the
/// map has an entry with an equal key, and nothing otherwise.
#[verifier::external_body]
pub(crate) fn index_get(m: &IndexMap<String, usize>, key: &str) -> (r: Option<usize>)
    ensures
        match r {
            Some(v) => index_map_entries(*m).contains((key@, v)),
            None => forall|i: int|
                0 <= i < index_map_entries(*m).len() ==> (#[trigger] index_map_entries(*m)[i]).0
                    != key@,
        },
{
    m.get(key).copied()
}

/// Calls `IndexMap::insert`. Where the map has no entry with an equal key,
/// the pair becomes its last entry; where it has one, that entry keeps its
/// place and takes the new value.
#[verifier::external_body]
pub(crate) fn index_insert(m: &mut IndexMap<String, usize>, key: String, value: usize)
    ensures
        (forall|i: int|
            0 <= i < index_map_entries(*old(m)).len() ==> (#[trigger] index_map_entries(
                *old(m),
            )[i]).0 != key@) ==> index_map_entries(*final(m)) == index_map_entries(*old(m)).push(
            (key@, value),
        ),
        forall|i: int|
            0 <= i < index_map_entries(*old(m)).len() && (#[trigger] index_map_entries(
                *old(m),
            )[i]).0 == key@ ==> exists|j: int|
                0 <= j < index_map_entries(*old(m)).len() && (#[trigger] index_map_entries(
                    *old(m),
                )[j]).0 == key@ && index_map_entries(*final(m)) == index_map_entries(
                    *old(m),
                ).update(j, (key@, value)),
{
    m.insert(key, value);
}

/// Calls `IndexMap::sort_keys`, which sorts the entries by the order of
/// their keys. The entries stay the same, each as often as before; the keys
/// of `String` stand in the order of texts afterwards, which is the order
/// that the standard library documents for strings.
#[verifier::external_body]
pub(crate) fn index_sort_keys(m: &mut IndexMap<String, usize>)
    ensures
        index_map_entries(*final(m)).to_multiset() == index_map_entries(*old(m)).to_multiset(),
        forall|a: int, b: int|
            0 <= a < b < index_map_entries(*final(m)).len() ==> text_le(
                (#[trigger] index_map_entries(*final(m))[a]).0,
                (#[trigger] index_map_entries(*final(m))[b]).0,
            ),
{
    m.sort_keys();
}

/// Calls `IndexMap::values`, which walks the values in the order of the
/// map, and gathers them.
#[verifier::external_body]
pub(crate) fn index_values(m: &IndexMap<String, usize>) -> (r: Vec<usize>)
    ensures
        r@ == index_map_entries(*m).map_values(|e: (Seq<char>, usize)| e.1),
{
    m.values().copied().collect()
}

/// One of the entries has the value `v`.
pub open spec fn has_value(entries: Seq<(Seq<char>, usize)>, v: int) -> bool {
    exists|t: int| 0 <= t < entries.len() && (#[trigger] entries[t]).1 == v
}

/// What holds of the entries of an index after its entries were put into
/// another order: every entry is one of those before, none stands twice, and
/// none is missing.
pub proof fn lemma_rearranged(before: Seq<(Seq<char>, usize)>, after: Seq<(Seq<char>, usize)>)
    requires
        after.to_multiset() == before.to_multiset(),
        forall|i: int| 0 <= i < before.len() ==> (#[trigger] before[i]).1 == i,
    ensures
        after.len() == before.len(),
        forall|t: int|
            0 <= t < after.len() ==> (#[trigger] after[t]).1 < before.len() && after[t]
                == before[after[t].1 as int],
        forall|s: int, t: int|
            0 <= s < t < after.len() ==> (#[trigger] after[s]).1 != (#[trigger] after[t]).1,
        forall|i: int| 0 <= i < before.len() ==> #[trigger] has_value(after, i),
{
    broadcast use vstd::seq_lib::to_multiset_len, vstd::seq_lib::to_multiset_contains;

    assert(after.len() == after.to_multiset().len());
    assert(before.len() == before.to_multiset().len());
    assert forall|t: int| 0 <= t < after.len() implies (#[trigger] after[t]).1 < before.len()
        && after[t] == before[after[t].1 as int] by {
        assert(after.contains(after[t]));
        assert(before.to_multiset().contains(after[t]));
        assert(before.contains(after[t]));
        let i = choose|i: int| 0 <= i < before.len() && before[i] == after[t];
        assert(before[i].1 == i);
    }
    assert(before.no_duplicates()) by {
        assert forall|i: int, j: int|
            0 <= i < before.len() && 0 <= j < before.len() && i != j implies before[i]
            != before[j] by {
            assert(before[i].1 == i);
            assert(before[j].1 == j);
        }
    }
    before.lemma_multiset_has_no_duplicates();
    after.lemma_multiset_has_no_duplicates_conv();
    assert forall|s: int, t: int| 0 <= s < t < after.len() implies (#[trigger] after[s]).1 != (
    #[trigger] after[t]).1 by {
        if after[s].1 == after[t].1 {
            assert(after[s] == before[after[s].1 as int]);
            assert(after[t] == before[after[t].1 as int]);
            assert(after[s] == after[t]);
        }
    }
    assert forall|i: int| 0 <= i < before.len() implies #[trigger] has_value(after, i) by {
        assert(before.contains(before[i]));
        assert(after.to_multiset().contains(before[i]));
        assert(after.contains(before[i]));
        let t = choose|t: int| 0 <= t < after.len() && after[t] == before[i];
        assert(after[t].1 == i);
    }
}

} // verus!
