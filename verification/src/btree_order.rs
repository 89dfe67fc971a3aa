//! The order in which a `BTreeMap` keyed by `u32` hands out its entries.

use vstd::prelude::*;

verus! {

broadcast use {vstd::std_specs::btree::group_btree_axioms, vstd::laws_cmp::group_laws_cmp};

/// Entries come out of the map by strictly increasing key.
pub proof fn lemma_u32_keys_increase<V>(s: Seq<(&u32, &V)>)
    requires
        vstd::std_specs::btree::increasing_seq(s.map_values(|kv: (&u32, &V)| *kv.0)),
    ensures
        forall|i: int, j: int| 0 <= i < j < s.len() ==> *s[i].0 < *s[j].0,
{
    let keys = s.map_values(|kv: (&u32, &V)| *kv.0);
    assert(vstd::laws_cmp::obeys_cmp::<u32>());
    assert forall|i: int, j: int| 0 <= i < j < s.len() implies *s[i].0 < *s[j].0 by {
        assert(keys[i] == *s[i].0 && keys[j] == *s[j].0);
        assert(vstd::std_specs::cmp::OrdSpec::cmp_spec(&keys[i], &keys[j]) is Less);
    }
}

} // verus!
