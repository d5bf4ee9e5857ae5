//! Ordered maps from indices to texts, and their entries in key order.

use vstd::prelude::*;
use vstd::std_specs::iter::IteratorSpec;
use vstd::std_specs::cmp::OrdSpec;
use std::collections::BTreeMap;

verus! {

/// `map.insert(k, v)`.
pub fn insert_entry(m: &mut BTreeMap<usize, String>, k: usize, v: String)
    ensures
        final(m)@ == old(m)@.insert(k, v),
{
    broadcast use vstd::laws_cmp::group_laws_cmp;
    m.insert(k, v);
}

/// `map.get(&k)`.
pub fn get_entry(m: &BTreeMap<usize, String>, k: usize) -> (r: Option<&String>)
    ensures
        match r {
            Some(v) => m@.contains_key(k) && m@[k] == *v,
            None => !m@.contains_key(k),
        },
{
    broadcast use vstd::laws_cmp::group_laws_cmp;
    broadcast use vstd::std_specs::btree::group_btree_axioms;
    m.get(&k)
}

/// The entries of `m` in increasing key order.
pub fn entries_in_order(m: &std::collections::BTreeMap<usize, String>) -> (out: Vec<(usize, String)>)
    ensures
        out@.len() == m@.dom().len(),
        forall|i: int, j: int| 0 <= i < j < out@.len() ==> out@[i].0 < out@[j].0,
        forall|i: int| 0 <= i < out@.len() ==> m@.contains_key(#[trigger] out@[i].0) && m@[out@[i].0]@ == out@[i].1@,
        forall|k: usize| m@.contains_key(k) ==> exists|i: int| 0 <= i < out@.len() && #[trigger] out@[i].0 == k,
{
    broadcast use vstd::std_specs::btree::group_btree_axioms;
    broadcast use vstd::laws_cmp::group_laws_cmp;
    let mut out: Vec<(usize, String)> = Vec::new();
    let it0 = m.iter();
    let ghost rem = it0.remaining();
    assert(rem.len() == m@.dom().len());
    assert(vstd::std_specs::btree::increasing_seq(rem.map_values(|kv: (&usize, &String)| *kv.0)));
    assert(forall|i: int, j: int| 0 <= i < j < rem.len() ==> *rem[i].0 < *rem[j].0) by {
        assert forall|i: int, j: int| 0 <= i < j < rem.len() implies *rem[i].0 < *rem[j].0 by {
            let ks = rem.map_values(|kv: (&usize, &String)| *kv.0);
            assert(ks[i] == *rem[i].0 && ks[j] == *rem[j].0);
            assert(ks[i].cmp_spec(&ks[j]) is Less);
        }
    }
    for (k, v) in it: it0
        invariant
            it.seq() == rem,
            out@.len() == it.index(),
            forall|i: int| 0 <= i < out@.len() ==> #[trigger] out@[i] == (*rem[i].0, *rem[i].1),
    {
        assert((k, v) == rem[it.index()]);
        out.push((*k, v.clone()));
    }
    assert forall|k: usize| m@.contains_key(k) implies exists|i: int| 0 <= i < out@.len() && #[trigger] out@[i].0 == k by {
        assert(rem.contains((&k, &m@[k])));
        let i = choose|i: int| 0 <= i < rem.len() && rem[i] == (&k, &m@[k]);
        assert(out@[i].0 == k);
    }
    out
}

} // verus!
