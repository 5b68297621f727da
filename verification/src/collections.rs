use std::borrow::Borrow;
use vstd::prelude::*;

/// The rename on `std::collections::BTreeMap`.
pub mod btree;
/// The rename on `std::collections::HashMap`.
pub mod hash;
/// The rename on `indexmap::IndexMap`, which keeps the entry in its place.
pub mod ordered;

verus! {

/// Why a strict rename was refused.
#[derive(Debug, Copy, Clone, PartialEq, Eq, Structural, Hash)]
pub enum ReplaceKeyErr {
    /// The old key does not exist.
    OldKeyNotExist,
    /// The new key is already occupied.
    NewKeyOccupied,
}

impl ReplaceKeyErr {
    /// The reason in words.
    pub fn message(&self) -> (text: String)
        ensures
            text@ == match *self {
                ReplaceKeyErr::OldKeyNotExist => "replace_key: the old key does not exist"@,
                ReplaceKeyErr::NewKeyOccupied => "replace_key: the new key is already occupied"@,
            },
    {
        match self {
            ReplaceKeyErr::OldKeyNotExist => "replace_key: the old key does not exist".to_owned(),
            ReplaceKeyErr::NewKeyOccupied => {
                "replace_key: the new key is already occupied".to_owned()
            },
        }
    }
}

/// What a strict rename of `k1` to `k2` answers on the map `m`.
///
/// An absent old key is reported first, whatever the new key is. Renaming a
/// key to itself succeeds. A new key that another entry holds is refused.
pub open spec fn strict_outcome<K, V>(m: Map<K, V>, k1: K, k2: K) -> Result<(), ReplaceKeyErr> {
    if !m.contains_key(k1) {
        Err(ReplaceKeyErr::OldKeyNotExist)
    } else if k1 != k2 && m.contains_key(k2) {
        Err(ReplaceKeyErr::NewKeyOccupied)
    } else {
        Ok(())
    }
}

/// The map that a strict rename of `k1` to `k2` leaves behind.
///
/// The entry moves only when the old key is present and the new key is free;
/// in every other case the map stays as it is.
pub open spec fn strict_renamed<K, V>(m: Map<K, V>, k1: K, k2: K) -> Map<K, V> {
    if m.contains_key(k1) && !m.contains_key(k2) {
        m.remove(k1).insert(k2, m[k1])
    } else {
        m
    }
}

/// The map that a permissive rename of `k1` to `k2` leaves behind: the entry
/// under `k1`, if there is one, moves to `k2` and replaces what stood there.
pub open spec fn overwrite_renamed<K, V>(m: Map<K, V>, k1: K, k2: K) -> Map<K, V> {
    if m.contains_key(k1) {
        m.remove(k1).insert(k2, m[k1])
    } else {
        m
    }
}

/// `==` on text slices: whether the two have the same characters.
#[verifier::external_body]
pub(crate) fn same_text(a: &str, b: &str) -> (same: bool)
    ensures
        same == (a@ == b@),
{
    a == b
}

/// Renaming a key that is present to a different key that is absent
/// succeeds. Afterwards the new key holds the value that the old key held,
/// the old key is gone, and every other key holds what it held before.
pub proof fn strict_rename_moves_entry<K, V>(m: Map<K, V>, k1: K, k2: K)
    requires
        k1 != k2,
        m.contains_key(k1),
        !m.contains_key(k2),
    ensures
        strict_outcome(m, k1, k2) == Ok::<(), ReplaceKeyErr>(()),
        strict_renamed(m, k1, k2).contains_key(k2),
        strict_renamed(m, k1, k2)[k2] == m[k1],
        !strict_renamed(m, k1, k2).contains_key(k1),
        forall|k: K|
            k != k1 && k != k2 ==> (strict_renamed(m, k1, k2).contains_key(k) <==> m.contains_key(
                k,
            )),
        forall|k: K|
            k != k1 && k != k2 && m.contains_key(k) ==> strict_renamed(m, k1, k2)[k] == m[k],
{
}

/// Renaming a key that is present to itself succeeds and changes nothing.
pub proof fn strict_rename_to_itself<K, V>(m: Map<K, V>, k: K)
    requires
        m.contains_key(k),
    ensures
        strict_outcome(m, k, k) == Ok::<(), ReplaceKeyErr>(()),
        strict_renamed(m, k, k) == m,
{
}

/// Renaming a key that is absent is refused for want of the old key,
/// whatever the new key is and whether or not it is present, and changes
/// nothing.
pub proof fn strict_rename_needs_old_key<K, V>(m: Map<K, V>, k1: K, k2: K)
    requires
        !m.contains_key(k1),
    ensures
        strict_outcome(m, k1, k2) == Err::<(), ReplaceKeyErr>(ReplaceKeyErr::OldKeyNotExist),
        strict_renamed(m, k1, k2) == m,
{
}

/// Renaming a key that is present to a different key that is present too is
/// refused because the new key is occupied, and changes nothing.
pub proof fn strict_rename_refuses_taken_key<K, V>(m: Map<K, V>, k1: K, k2: K)
    requires
        k1 != k2,
        m.contains_key(k1),
        m.contains_key(k2),
    ensures
        strict_outcome(m, k1, k2) == Err::<(), ReplaceKeyErr>(ReplaceKeyErr::NewKeyOccupied),
        strict_renamed(m, k1, k2) == m,
{
}

/// A strict rename that is refused leaves the map as it was, and one that
/// succeeds does what the permissive rename does.
pub proof fn strict_rename_is_guarded_overwrite<K, V>(m: Map<K, V>, k1: K, k2: K)
    ensures
        strict_outcome(m, k1, k2) is Err ==> strict_renamed(m, k1, k2) == m,
        strict_outcome(m, k1, k2) is Ok ==> strict_renamed(m, k1, k2) == overwrite_renamed(
            m,
            k1,
            k2,
        ),
{
    if m.contains_key(k1) && k1 == k2 {
        assert(m.remove(k1).insert(k1, m[k1]) =~= m);
    }
}

/// A permissive rename of a key that is present leaves the new key with the
/// value that the old key held, removes the old key unless it is the new
/// one, and leaves every other key with what it held.
pub proof fn overwrite_moves_entry<K, V>(m: Map<K, V>, k1: K, k2: K)
    requires
        m.contains_key(k1),
    ensures
        overwrite_renamed(m, k1, k2).contains_key(k2),
        overwrite_renamed(m, k1, k2)[k2] == m[k1],
        k1 != k2 ==> !overwrite_renamed(m, k1, k2).contains_key(k1),
        forall|k: K|
            k != k1 && k != k2 ==> (overwrite_renamed(m, k1, k2).contains_key(k)
                <==> m.contains_key(k)),
        forall|k: K|
            k != k1 && k != k2 && m.contains_key(k) ==> overwrite_renamed(m, k1, k2)[k] == m[k],
{
}

/// Renaming a key of a map without touching the value stored under it.
///
/// `K` is the type of the stored keys and `Q` the type by which an entry is
/// looked up.
pub trait MapExt<K, Q: ?Sized = K> {
    /// Replace an existing key with a new one that no other entry holds.
    ///
    /// If `k1` does not exist, the answer is `Err(ReplaceKeyErr::OldKeyNotExist)`.
    /// Otherwise, if `k2` and `k1` are equal, nothing happens and the answer is `Ok(())`.
    /// Otherwise, if `k2` also exists, the answer is `Err(ReplaceKeyErr::NewKeyOccupied)`.
    /// Otherwise the entry moves to `k2` and the answer is `Ok(())`.
    ///
    /// The map changes only in the last case.
    fn replace_key(&mut self, k1: &Q, k2: K) -> Result<(), ReplaceKeyErr> where K: Borrow<Q>;

    /// Move the entry under `k1` to `k2`, replacing whatever `k2` held.
    ///
    /// The answer tells whether `k1` was found; if it was not, the map is
    /// left as it is.
    fn replace_key_overwrite(&mut self, k1: &Q, k2: K) -> bool where K: Borrow<Q>;
}

} // verus!
