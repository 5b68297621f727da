use crate::collections::{
    overwrite_renamed, same_text, strict_outcome, strict_renamed, MapExt, ReplaceKeyErr,
};
use std::collections::BTreeMap;
use vstd::laws_cmp::obeys_cmp;
use vstd::laws_eq::obeys_concrete_eq;
use vstd::prelude::*;
use vstd::std_specs::btree::{
    borrowed_key_removed, contains_borrowed_key, maps_borrowed_key_to_value,
};

verus! {

/// Whether tree maps keyed by `K` behave as maps of keys to values: the
/// order on keys is a total order and `==` on keys is equality.
pub open spec fn tree_keys_model<K: Ord>() -> bool {
    &&& obeys_cmp::<K>()
    &&& obeys_concrete_eq::<K>()
}

/// Keys of 64 bits meet the model, as the other primitive integers do.
pub proof fn u64_keys_meet_tree_model()
    ensures
        tree_keys_model::<u64>(),
{
    broadcast use vstd::laws_eq::group_laws_eq;
    broadcast use vstd::laws_cmp::group_laws_cmp;

}

/// Tree maps looked up by a key of the type they store.
impl<K: Ord, V> MapExt<K> for BTreeMap<K, V> {
    fn replace_key(&mut self, k1: &K, k2: K) -> (r: Result<(), ReplaceKeyErr>)
        ensures
            tree_keys_model::<K>() ==> r == strict_outcome(old(self)@, *k1, k2),
            tree_keys_model::<K>() ==> final(self)@ == strict_renamed(old(self)@, *k1, k2),
    {
        broadcast use vstd::std_specs::btree::group_btree_axioms;
        proof {
            reveal(obeys_concrete_eq);
        }
        if !self.contains_key(k1) {
            return Err(ReplaceKeyErr::OldKeyNotExist);
        }
        if *k1 == k2 {
            return Ok(());
        }
        if self.contains_key(&k2) {
            return Err(ReplaceKeyErr::NewKeyOccupied);
        }
        match self.remove(k1) {
            Some(v) => {
                self.insert(k2, v);
                Ok(())
            },
            None => Err(ReplaceKeyErr::OldKeyNotExist),
        }
    }

    fn replace_key_overwrite(&mut self, k1: &K, k2: K) -> (found: bool)
        ensures
            tree_keys_model::<K>() ==> found == old(self)@.contains_key(*k1),
            tree_keys_model::<K>() ==> final(self)@ == overwrite_renamed(old(self)@, *k1, k2),
    {
        broadcast use vstd::std_specs::btree::group_btree_axioms;
        match self.remove(k1) {
            Some(v) => {
                self.insert(k2, v);
                true
            },
            None => false,
        }
    }
}

/// Whether tree maps keyed by `String` behave as maps of keys to values.
pub open spec fn text_keys_model() -> bool {
    obeys_cmp::<String>()
}

/// What a strict rename answers on a map keyed by text, where the old key
/// is looked up by a text slice.
pub open spec fn text_outcome<V>(m: Map<String, V>, k1: &str, k2: String) -> Result<
    (),
    ReplaceKeyErr,
> {
    if !contains_borrowed_key(m, k1) {
        Err(ReplaceKeyErr::OldKeyNotExist)
    } else if k1@ != k2@ && m.contains_key(k2) {
        Err(ReplaceKeyErr::NewKeyOccupied)
    } else {
        Ok(())
    }
}

/// Whether `after` is `m` with the entry that the text slice `k1` finds
/// moved to the key `k2`.
pub open spec fn text_moved<V>(m: Map<String, V>, k1: &str, k2: String, after: Map<String, V>) -> bool {
    exists|without: Map<String, V>, v: V|
        {
            &&& maps_borrowed_key_to_value(m, k1, v)
            &&& borrowed_key_removed(m, without, k1)
            &&& after == without.insert(k2, v)
        }
}

/// Whether `after` is what a strict rename leaves of `m`: the entry moved
/// where the rename succeeds with two different keys, and `m` itself in
/// every other case.
pub open spec fn text_renamed<V>(m: Map<String, V>, k1: &str, k2: String, after: Map<String, V>) -> bool {
    if text_outcome(m, k1, k2) is Ok && k1@ != k2@ {
        text_moved(m, k1, k2, after)
    } else {
        after == m
    }
}

/// Whether `after` is what a permissive rename leaves of `m`: the entry
/// moved where the old key is found, and `m` itself where it is not.
pub open spec fn text_overwritten<V>(
    m: Map<String, V>,
    k1: &str,
    k2: String,
    after: Map<String, V>,
) -> bool {
    if contains_borrowed_key(m, k1) {
        text_moved(m, k1, k2, after)
    } else {
        after == m
    }
}

/// Tree maps keyed by `String`, looked up by a text slice.
impl<V> MapExt<String, str> for BTreeMap<String, V> {
    fn replace_key(&mut self, k1: &str, k2: String) -> (r: Result<(), ReplaceKeyErr>)
        ensures
            text_keys_model() ==> r == text_outcome(old(self)@, k1, k2),
            text_keys_model() ==> text_renamed(old(self)@, k1, k2, final(self)@),
    {
        broadcast use vstd::std_specs::btree::group_btree_axioms;

        if !self.contains_key(k1) {
            return Err(ReplaceKeyErr::OldKeyNotExist);
        }
        if same_text(k1, k2.as_str()) {
            return Ok(());
        }
        if self.contains_key(&k2) {
            return Err(ReplaceKeyErr::NewKeyOccupied);
        }
        match self.remove(k1) {
            Some(v) => {
                let ghost without = self@;
                self.insert(k2, v);
                assert(text_keys_model() ==> text_moved(old(self)@, k1, k2, self@)) by {
                    if text_keys_model() {
                        assert(maps_borrowed_key_to_value(old(self)@, k1, v));
                        assert(borrowed_key_removed(old(self)@, without, k1));
                        assert(self@ == without.insert(k2, v));
                    }
                }
                Ok(())
            },
            None => Err(ReplaceKeyErr::OldKeyNotExist),
        }
    }

    fn replace_key_overwrite(&mut self, k1: &str, k2: String) -> (found: bool)
        ensures
            text_keys_model() ==> found == contains_borrowed_key(old(self)@, k1),
            text_keys_model() ==> text_overwritten(old(self)@, k1, k2, final(self)@),
    {
        broadcast use vstd::std_specs::btree::group_btree_axioms;

        if !self.contains_key(k1) {
            return false;
        }
        match self.remove(k1) {
            Some(v) => {
                let ghost without = self@;
                self.insert(k2, v);
                assert(text_keys_model() ==> text_moved(old(self)@, k1, k2, self@)) by {
                    if text_keys_model() {
                        assert(maps_borrowed_key_to_value(old(self)@, k1, v));
                        assert(borrowed_key_removed(old(self)@, without, k1));
                        assert(self@ == without.insert(k2, v));
                    }
                }
                true
            },
            None => false,
        }
    }
}

} // verus!
