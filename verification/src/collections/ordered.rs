use crate::collections::{overwrite_renamed, strict_outcome, strict_renamed, MapExt, ReplaceKeyErr};
use indexmap::{Equivalent, IndexMap};
use vstd::prelude::*;

verus! {

/// `indexmap::IndexMap`, the map that keeps its entries in the order of
/// their insertion. Nothing inside it is visible to the verifier; what it
/// holds is told by [`entries`].
#[verifier::external_type_specification]
#[verifier::external_body]
#[verifier::reject_recursive_types(K)]
#[verifier::reject_recursive_types(V)]
#[verifier::reject_recursive_types(S)]
pub struct ExIndexMap<K, V, S>(IndexMap<K, V, S>);

/// The entries of an insertion-ordered map, first to last, each as the
/// characters of its key and its value.
pub uninterp spec fn entries(m: IndexMap<String, i32>) -> Seq<(Seq<char>, i32)>;

/// Whether some entry of `s` stands under `key`.
pub open spec fn has_key(s: Seq<(Seq<char>, i32)>, key: Seq<char>) -> bool {
    exists|i: int| 0 <= i < s.len() && (#[trigger] s[i]).0 == key
}

/// A position at which `key` stands in `s`; the only one where the keys of
/// `s` are distinct.
pub open spec fn position(s: Seq<(Seq<char>, i32)>, key: Seq<char>) -> int {
    choose|i: int| 0 <= i < s.len() && (#[trigger] s[i]).0 == key
}

/// Whether no key stands at two positions of `s`, as in every
/// insertion-ordered map.
pub open spec fn distinct_keys(s: Seq<(Seq<char>, i32)>) -> bool {
    forall|i: int, j: int|
        0 <= i < s.len() && 0 <= j < s.len() && i != j ==> (#[trigger] s[i]).0 != (#[trigger] s[j]).0
}

/// Whether `key` stands at position `i` of `s` and nowhere else.
pub open spec fn only_at(s: Seq<(Seq<char>, i32)>, key: Seq<char>, i: int) -> bool {
    &&& 0 <= i < s.len()
    &&& s[i].0 == key
    &&& forall|j: int| 0 <= j < s.len() && (#[trigger] s[j]).0 == key ==> j == i
}

/// What a strict rename of `k1` to `k2` answers on the entries `s`.
pub open spec fn ordered_outcome(s: Seq<(Seq<char>, i32)>, k1: Seq<char>, k2: Seq<char>) -> Result<
    (),
    ReplaceKeyErr,
> {
    if !has_key(s, k1) {
        Err(ReplaceKeyErr::OldKeyNotExist)
    } else if k1 != k2 && has_key(s, k2) {
        Err(ReplaceKeyErr::NewKeyOccupied)
    } else {
        Ok(())
    }
}

/// The entries that a strict rename of `k1` to `k2` leaves behind: where the
/// old key is present and the new key is free, the entry gets the new key at
/// the position it stands at; in every other case nothing changes.
pub open spec fn ordered_renamed(s: Seq<(Seq<char>, i32)>, k1: Seq<char>, k2: Seq<char>) -> Seq<
    (Seq<char>, i32),
> {
    if has_key(s, k1) && !has_key(s, k2) {
        s.update(position(s, k1), (k2, s[position(s, k1)].1))
    } else {
        s
    }
}

/// The entries that a permissive rename of `k1` to `k2` leaves behind: the
/// entry under `k1` gets the new key where it stands, and another entry that
/// held `k2` leaves the sequence, the rest keeping their order.
pub open spec fn ordered_overwritten(
    s: Seq<(Seq<char>, i32)>,
    k1: Seq<char>,
    k2: Seq<char>,
) -> Seq<(Seq<char>, i32)> {
    if !has_key(s, k1) || k1 == k2 {
        s
    } else {
        let t = s.update(position(s, k1), (k2, s[position(s, k1)].1));
        if has_key(s, k2) {
            t.remove(position(s, k2))
        } else {
            t
        }
    }
}

/// `IndexMap::get_index_of`, for a text key: the one position at which an
/// entry has the characters of `key` as its key, or `None` where no entry
/// has them.
#[verifier::external_body]
fn index_of(m: &IndexMap<String, i32>, key: &str) -> (r: Option<usize>)
    ensures
        match r {
            Some(i) => only_at(entries(*m), key@, i as int),
            None => !has_key(entries(*m), key@),
        },
{
    m.get_index_of(key)
}

/// `IndexMap::contains_key`, for a text key: whether an entry has the
/// characters of `key` as its key.
#[verifier::external_body]
fn holds(m: &IndexMap<String, i32>, key: &str) -> (b: bool)
    ensures
        b == has_key(entries(*m), key@),
{
    m.contains_key(key)
}

/// `Equivalent::equivalent` of a text slice and a string: whether the two
/// have the same characters.
#[verifier::external_body]
fn same_key(q: &str, k: &String) -> (b: bool)
    ensures
        b == (q@ == k@),
{
    q.equivalent(k)
}

/// `IndexMap::swap_remove_index`: the entry at `index` leaves the map and is
/// handed out, and the last entry takes its place; `None`, and no change,
/// where `index` is past the end.
#[verifier::external_body]
fn take_swapping(m: &mut IndexMap<String, i32>, index: usize) -> (r: Option<(String, i32)>)
    ensures
        match r {
            Some(e) => {
                &&& index < entries(*old(m)).len()
                &&& (e.0@, e.1) == entries(*old(m))[index as int]
                &&& entries(*final(m)) == entries(*old(m)).update(
                    index as int,
                    entries(*old(m)).last(),
                ).drop_last()
            },
            None => index >= entries(*old(m)).len() && entries(*final(m)) == entries(*old(m)),
        },
{
    m.swap_remove_index(index)
}

/// `IndexMap::shift_remove_index`: the entry at `index` leaves the map and is
/// handed out, and the entries behind it move up by one; `None`, and no
/// change, where `index` is past the end.
#[verifier::external_body]
fn take_shifting(m: &mut IndexMap<String, i32>, index: usize) -> (r: Option<(String, i32)>)
    ensures
        match r {
            Some(e) => {
                &&& index < entries(*old(m)).len()
                &&& (e.0@, e.1) == entries(*old(m))[index as int]
                &&& entries(*final(m)) == entries(*old(m)).remove(index as int)
            },
            None => index >= entries(*old(m)).len() && entries(*final(m)) == entries(*old(m)),
        },
{
    m.shift_remove_index(index)
}

/// `IndexMap::insert_full`: a key that the map does not hold is appended
/// with its value, and the answer is the new last position and `None`; for a
/// key that it holds, the value at that position is replaced, and the answer
/// is the position and the value that stood there.
#[verifier::external_body]
fn put(m: &mut IndexMap<String, i32>, key: String, value: i32) -> (r: (usize, Option<i32>))
    ensures
        match r.1 {
            None => {
                &&& !has_key(entries(*old(m)), key@)
                &&& r.0 == entries(*old(m)).len()
                &&& entries(*final(m)) == entries(*old(m)).push((key@, value))
            },
            Some(before) => {
                &&& r.0 < entries(*old(m)).len()
                &&& entries(*old(m))[r.0 as int] == (key@, before)
                &&& entries(*final(m)) == entries(*old(m)).update(r.0 as int, (key@, value))
            },
        },
{
    m.insert_full(key, value)
}

/// `IndexMap::swap_indices`: the entries at `a` and `b` change places.
#[verifier::external_body]
fn swap(m: &mut IndexMap<String, i32>, a: usize, b: usize)
    requires
        a < entries(*old(m)).len(),
        b < entries(*old(m)).len(),
    ensures
        entries(*final(m)) == entries(*old(m)).update(a as int, entries(*old(m))[b as int]).update(
            b as int,
            entries(*old(m))[a as int],
        ),
{
    m.swap_indices(a, b)
}

/// A key that stands at one place only has that place as its position.
pub proof fn position_of_only(s: Seq<(Seq<char>, i32)>, key: Seq<char>, i: int)
    requires
        only_at(s, key, i),
    ensures
        has_key(s, key),
        position(s, key) == i,
{
}

/// Gives the entry at `index` the key `k2`, which no entry holds, without
/// moving it: the entry leaves by a swap with the last one, comes back at
/// the end under its new key, and a second swap puts both in place.
fn rekey_at(m: &mut IndexMap<String, i32>, index: usize, k2: String)
    requires
        index < entries(*old(m)).len(),
        !has_key(entries(*old(m)), k2@),
    ensures
        entries(*final(m)) == entries(*old(m)).update(
            index as int,
            (k2@, entries(*old(m))[index as int].1),
        ),
{
    let ghost before = entries(*m);
    if let Some((_, v)) = take_swapping(m, index) {
        let ghost without = entries(*m);
        assert forall|j: int| 0 <= j < without.len() implies (#[trigger] without[j]).0 != k2@ by {
            if j == index {
                assert(without[j] == before[before.len() - 1]);
            } else {
                assert(without[j] == before[j]);
            }
        }
        let (last, _) = put(m, k2, v);
        swap(m, index, last);
        assert(entries(*m) =~= before.update(index as int, (k2@, before[index as int].1)));
    }
}

/// Insertion-ordered maps from `String` to `i32`, looked up by a text slice.
/// The renamed entry keeps its place in the order.
impl MapExt<String, str> for IndexMap<String, i32> {
    fn replace_key(&mut self, k1: &str, k2: String) -> (r: Result<(), ReplaceKeyErr>)
        ensures
            r == ordered_outcome(entries(*old(self)), k1@, k2@),
            entries(*final(self)) == ordered_renamed(entries(*old(self)), k1@, k2@),
            has_key(entries(*old(self)), k1@) ==> only_at(
                entries(*old(self)),
                k1@,
                position(entries(*old(self)), k1@),
            ),
            distinct_keys(entries(*old(self))) ==> distinct_keys(entries(*final(self))),
    {
        let found = index_of(self, k1);
        proof {
            if distinct_keys(entries(*self)) {
                ordered_rename_is_map_rename(entries(*self), k1@, k2@);
            }
        }
        let i = match found {
            Some(i) => i,
            None => {
                return Err(ReplaceKeyErr::OldKeyNotExist);
            },
        };
        proof {
            position_of_only(entries(*self), k1@, i as int);
        }
        if same_key(k1, &k2) {
            return Ok(());
        }
        if holds(self, k2.as_str()) {
            return Err(ReplaceKeyErr::NewKeyOccupied);
        }
        rekey_at(self, i, k2);
        Ok(())
    }

    fn replace_key_overwrite(&mut self, k1: &str, k2: String) -> (found: bool)
        ensures
            found == has_key(entries(*old(self)), k1@),
            entries(*final(self)) == ordered_overwritten(entries(*old(self)), k1@, k2@),
            found ==> only_at(entries(*old(self)), k1@, position(entries(*old(self)), k1@)),
            found && k1@ != k2@ && has_key(entries(*old(self)), k2@) ==> only_at(
                entries(*old(self)),
                k2@,
                position(entries(*old(self)), k2@),
            ),
            distinct_keys(entries(*old(self))) ==> distinct_keys(entries(*final(self))),
    {
        let ghost before = entries(*self);
        let found = index_of(self, k1);
        proof {
            if distinct_keys(before) {
                ordered_overwrite_is_map_overwrite(before, k1@, k2@);
            }
        }
        let i = match found {
            Some(i) => i,
            None => {
                return false;
            },
        };
        proof {
            position_of_only(before, k1@, i as int);
        }
        if same_key(k1, &k2) {
            return true;
        }
        let at = match index_of(self, k2.as_str()) {
            Some(j) => {
                proof {
                    position_of_only(before, k2@, j as int);
                }
                take_shifting(self, j);
                if j < i {
                    i - 1
                } else {
                    i
                }
            },
            None => i,
        };
        let ghost cleared = entries(*self);
        assert(!has_key(cleared, k2@) && at < cleared.len() && cleared[at as int]
            == before[i as int]) by {
            if has_key(before, k2@) {
                let j = position(before, k2@);
                assert forall|n: int| 0 <= n < cleared.len() implies (#[trigger] cleared[n]).0
                    != k2@ by {
                    assert(cleared[n] == before[if n < j { n } else { n + 1 }]);
                }
            }
        }
        rekey_at(self, at, k2);
        assert(entries(*self) =~= ordered_overwritten(before, k1@, k2@));
        true
    }
}

/// The entries as a map from key to value, the order left aside.
pub open spec fn entry_map(s: Seq<(Seq<char>, i32)>) -> Map<Seq<char>, i32> {
    Map::new(|key: Seq<char>| has_key(s, key), |key: Seq<char>| s[position(s, key)].1)
}

/// In an insertion-ordered map, renaming a key that is present, at its one
/// place, to a different key that is absent succeeds, and the entry stays
/// where it was: the new key stands at the position of the old one and
/// nowhere else, with the same value, the old key is gone, and every other
/// position holds what it held. Keys that were distinct stay distinct.
pub proof fn ordered_rename_keeps_place(s: Seq<(Seq<char>, i32)>, k1: Seq<char>, k2: Seq<char>)
    requires
        k1 != k2,
        only_at(s, k1, position(s, k1)),
        !has_key(s, k2),
    ensures
        ordered_outcome(s, k1, k2) == Ok::<(), ReplaceKeyErr>(()),
        ordered_renamed(s, k1, k2).len() == s.len(),
        only_at(ordered_renamed(s, k1, k2), k2, position(s, k1)),
        position(ordered_renamed(s, k1, k2), k2) == position(s, k1),
        ordered_renamed(s, k1, k2)[position(s, k1)] == (k2, s[position(s, k1)].1),
        !has_key(ordered_renamed(s, k1, k2), k1),
        forall|i: int|
            0 <= i < s.len() && i != position(s, k1) ==> ordered_renamed(s, k1, k2)[i] == s[i],
        distinct_keys(s) ==> distinct_keys(ordered_renamed(s, k1, k2)),
{
    let p = position(s, k1);
    let t = ordered_renamed(s, k1, k2);
    assert(t[p].0 == k2);
    assert forall|j: int| 0 <= j < t.len() && (#[trigger] t[j]).0 == k2 implies j == p by {
        if j != p {
            assert(t[j] == s[j]);
        }
    }
    position_of_only(t, k2, p);
    if distinct_keys(s) {
        assert forall|a: int, b: int| 0 <= a < t.len() && 0 <= b < t.len() && a != b implies (
        #[trigger] t[a]).0 != (#[trigger] t[b]).0 by {
            if a != p {
                assert(t[a] == s[a]);
            }
            if b != p {
                assert(t[b] == s[b]);
            }
        }
    }
    assert forall|j: int| 0 <= j < t.len() implies (#[trigger] t[j]).0 != k1 by {
        if j != p {
            assert(t[j] == s[j]);
        }
    }
}

/// Among distinct keys, a key that is present stands at its position and
/// nowhere else.
pub proof fn distinct_keys_stand_once(s: Seq<(Seq<char>, i32)>, key: Seq<char>)
    requires
        distinct_keys(s),
        has_key(s, key),
    ensures
        only_at(s, key, position(s, key)),
{
}

/// In an insertion-ordered map, renaming a key that is present to itself
/// succeeds and changes nothing.
pub proof fn ordered_rename_to_itself(s: Seq<(Seq<char>, i32)>, k: Seq<char>)
    requires
        has_key(s, k),
    ensures
        ordered_outcome(s, k, k) == Ok::<(), ReplaceKeyErr>(()),
        ordered_renamed(s, k, k) == s,
{
}

/// In an insertion-ordered map, renaming a key that is absent is refused
/// for want of the old key, whatever the new key is, and changes nothing.
pub proof fn ordered_rename_needs_old_key(s: Seq<(Seq<char>, i32)>, k1: Seq<char>, k2: Seq<char>)
    requires
        !has_key(s, k1),
    ensures
        ordered_outcome(s, k1, k2) == Err::<(), ReplaceKeyErr>(ReplaceKeyErr::OldKeyNotExist),
        ordered_renamed(s, k1, k2) == s,
{
}

/// In an insertion-ordered map, renaming a key that is present to a
/// different key that is present too is refused because the new key is
/// occupied, and changes nothing.
pub proof fn ordered_rename_refuses_taken_key(
    s: Seq<(Seq<char>, i32)>,
    k1: Seq<char>,
    k2: Seq<char>,
)
    requires
        k1 != k2,
        has_key(s, k1),
        has_key(s, k2),
    ensures
        ordered_outcome(s, k1, k2) == Err::<(), ReplaceKeyErr>(ReplaceKeyErr::NewKeyOccupied),
        ordered_renamed(s, k1, k2) == s,
{
}

/// Among distinct keys, the entries read as a map hold a key exactly where
/// the sequence has it, with the value that stands beside it.
pub proof fn entry_map_reads_entries(s: Seq<(Seq<char>, i32)>, i: int)
    requires
        distinct_keys(s),
        0 <= i < s.len(),
    ensures
        entry_map(s).contains_key(s[i].0),
        entry_map(s)[s[i].0] == s[i].1,
        position(s, s[i].0) == i,
{
}

/// Read as maps, the strict renames agree: what the rename in place does to
/// the entries of an insertion-ordered map is what the strict rename does
/// to a map, with the same answer.
pub proof fn ordered_rename_is_map_rename(s: Seq<(Seq<char>, i32)>, k1: Seq<char>, k2: Seq<char>)
    requires
        distinct_keys(s),
    ensures
        ordered_outcome(s, k1, k2) == strict_outcome(entry_map(s), k1, k2),
        entry_map(ordered_renamed(s, k1, k2)) == strict_renamed(entry_map(s), k1, k2),
        distinct_keys(ordered_renamed(s, k1, k2)),
{
    if has_key(s, k1) && !has_key(s, k2) {
        distinct_keys_stand_once(s, k1);
        ordered_rename_keeps_place(s, k1, k2);
        let p = position(s, k1);
        let t = ordered_renamed(s, k1, k2);
        let m = strict_renamed(entry_map(s), k1, k2);
        assert forall|key: Seq<char>| entry_map(t).contains_key(key) <==> m.contains_key(
            key,
        ) by {
            if has_key(t, key) {
                let j = position(t, key);
                if j != p {
                    assert(s[j].0 == key);
                }
            }
            if key != k2 && key != k1 && has_key(s, key) {
                let j = position(s, key);
                assert(t[j].0 == key);
            }
        }
        assert forall|key: Seq<char>| entry_map(t).contains_key(key) implies entry_map(t)[key]
            == m[key] by {
            let j = position(t, key);
            entry_map_reads_entries(t, j);
            if j != p {
                entry_map_reads_entries(s, j);
            }
        }
        assert(entry_map(t) =~= m);
    }
}

/// Read as maps, the permissive renames agree, and the rename in place
/// keeps the order of the entries that stay: the renamed entry stands where
/// it stood among them.
pub proof fn ordered_overwrite_is_map_overwrite(
    s: Seq<(Seq<char>, i32)>,
    k1: Seq<char>,
    k2: Seq<char>,
)
    requires
        distinct_keys(s),
    ensures
        entry_map(ordered_overwritten(s, k1, k2)) == overwrite_renamed(entry_map(s), k1, k2),
        distinct_keys(ordered_overwritten(s, k1, k2)),
        has_key(s, k1) && k1 != k2 && has_key(s, k2) ==> ordered_overwritten(s, k1, k2)
            == ordered_renamed(s.remove(position(s, k2)), k1, k2),
        !has_key(s, k2) ==> ordered_overwritten(s, k1, k2) == ordered_renamed(s, k1, k2),
{
    let m = entry_map(s);
    if !has_key(s, k1) {
    } else if k1 == k2 {
        assert(m.remove(k1).insert(k1, m[k1]) =~= m);
    } else if !has_key(s, k2) {
        ordered_rename_is_map_rename(s, k1, k2);
    } else {
        let p = position(s, k1);
        let q = position(s, k2);
        let cut = s.remove(q);
        let at = if q < p { p - 1 } else { p };
        assert forall|a: int, b: int| 0 <= a < cut.len() && 0 <= b < cut.len() && a != b implies (
        #[trigger] cut[a]).0 != (#[trigger] cut[b]).0 by {
            assert(cut[a] == s[if a < q { a } else { a + 1 }]);
            assert(cut[b] == s[if b < q { b } else { b + 1 }]);
        }
        assert forall|j: int| 0 <= j < cut.len() implies (#[trigger] cut[j]).0 != k2 by {
            assert(cut[j] == s[if j < q { j } else { j + 1 }]);
        }
        assert(cut[at] == s[p]);
        entry_map_reads_entries(cut, at);
        assert(ordered_overwritten(s, k1, k2) =~= ordered_renamed(cut, k1, k2));
        ordered_rename_is_map_rename(cut, k1, k2);
        assert forall|key: Seq<char>| entry_map(cut).contains_key(key) <==> m.remove(
            k2,
        ).contains_key(key) by {
            if has_key(cut, key) {
                let j = position(cut, key);
                assert(cut[j] == s[if j < q { j } else { j + 1 }]);
            }
            if key != k2 && has_key(s, key) {
                let j = position(s, key);
                assert(cut[if j < q { j } else { j - 1 }] == s[j]);
            }
        }
        assert forall|key: Seq<char>| entry_map(cut).contains_key(key) implies entry_map(cut)[key]
            == m.remove(k2)[key] by {
            let j = position(cut, key);
            entry_map_reads_entries(cut, j);
            entry_map_reads_entries(s, if j < q { j } else { j + 1 });
        }
        assert(entry_map(cut) =~= m.remove(k2));
        assert(strict_renamed(m.remove(k2), k1, k2) =~= overwrite_renamed(m, k1, k2));
    }
}

} // verus!
