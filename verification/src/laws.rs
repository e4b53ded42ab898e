//! The laws of the store model: how the operations compose.

use vstd::prelude::*;
use crate::store::{m_delete, m_ensure, m_get, m_set, StoreMap};

verus! {

/// A write followed by a read of the same key returns exactly the value
/// written, whatever the store held before.
pub proof fn lemma_set_then_get(m: StoreMap, t: Seq<char>, k: Seq<char>, v: Seq<char>)
    ensures
        m_get(m_set(m, t, k, v), t, k) == Some(v),
{
}

/// In an empty store every read misses.
pub proof fn lemma_empty_get(t: Seq<char>, k: Seq<char>)
    ensures
        m_get(Map::<Seq<char>, Map<Seq<char>, Seq<char>>>::empty(), t, k) is None,
{
}

/// A write under one key leaves a read under any other key unchanged; with
/// `lemma_empty_get`, a key that was never written always reads as absent.
pub proof fn lemma_set_preserves_other_get(
    m: StoreMap,
    t: Seq<char>,
    k: Seq<char>,
    t2: Seq<char>,
    k2: Seq<char>,
    v: Seq<char>,
)
    requires
        !(t2 == t && k2 == k),
    ensures
        m_get(m_set(m, t2, k2, v), t, k) == m_get(m, t, k),
{
}

/// Provisioning a collection leaves every read unchanged.
pub proof fn lemma_ensure_preserves_get(m: StoreMap, t: Seq<char>, k: Seq<char>, t2: Seq<char>)
    ensures
        m_get(m_ensure(m, t2), t, k) == m_get(m, t, k),
{
}

/// A deletion leaves a read under any other key unchanged.
pub proof fn lemma_delete_preserves_other_get(
    m: StoreMap,
    t: Seq<char>,
    k: Seq<char>,
    t2: Seq<char>,
    k2: Seq<char>,
)
    requires
        !(t2 == t && k2 == k),
    ensures
        m_get(m_delete(m, t2, k2), t, k) == m_get(m, t, k),
{
}

/// Deleting the same key twice leaves the same state as deleting it once:
/// the key is absent both times and the second call is a no-op, not an error.
pub proof fn lemma_delete_idempotent(m: StoreMap, t: Seq<char>, k: Seq<char>)
    ensures
        m_delete(m_delete(m, t, k), t, k) == m_delete(m, t, k),
        m_get(m_delete(m, t, k), t, k) is None,
{
    let m1 = m_delete(m, t, k);
    assert(m1[t].remove(k) =~= m1[t]);
    assert(m_delete(m1, t, k) =~= m1);
}

/// Provisioning the same collection twice is one effective creation: the
/// second call changes nothing, so racing idempotent calls resolve to one
/// storage object and one registry entry.
pub proof fn lemma_ensure_idempotent(m: StoreMap, t: Seq<char>)
    ensures
        m_ensure(m_ensure(m, t), t) == m_ensure(m, t),
{
}

/// Provisioning registers exactly the sanitized name, keeping the rest of
/// the registry as it was.
pub proof fn lemma_ensure_registers(m: StoreMap, t: Seq<char>)
    ensures
        m_ensure(m, t).dom() == m.dom().insert(t),
{
    assert(m_ensure(m, t).dom() =~= m.dom().insert(t));
}

/// Provisioning two collections yields the same store in either order, so
/// the registry after provisioning both is exactly the old one plus both
/// names, regardless of call order.
pub proof fn lemma_ensure_commutes(m: StoreMap, a: Seq<char>, b: Seq<char>)
    ensures
        m_ensure(m_ensure(m, a), b) == m_ensure(m_ensure(m, b), a),
{
    if a != b {
        assert(m_ensure(m_ensure(m, a), b) =~= m_ensure(m_ensure(m, b), a));
    }
}

} // verus!
