//! The outside collection that records are kept in.

use vstd::prelude::*;

verus! {

/// `dashmap::DashMap`. What a map holds is named by the modules that keep one;
/// each keeps it to itself and changes it through `&mut` alone, so that what it
/// holds does not change behind a shared reference.
#[verifier::external_type_specification]
#[verifier::external_body]
#[verifier::reject_recursive_types(K)]
#[verifier::reject_recursive_types(V)]
#[verifier::reject_recursive_types(S)]
pub struct ExDashMap<K, V, S>(dashmap::DashMap<K, V, S>);

/// The map holds nothing.
pub open spec fn holds_nothing<V>(map: Map<Seq<char>, V>) -> bool {
    map == Map::<Seq<char>, V>::empty()
}

/// What a map holds under `key`.
pub open spec fn lookup<V>(map: Map<Seq<char>, V>, key: Seq<char>) -> Option<V> {
    if map.dom().contains(key) {
        Some(map[key])
    } else {
        None
    }
}

/// How long ago `since` was at `now`. What lies in the future has no age.
pub open spec fn age(since: u64, now: u64) -> int {
    if now < since {
        0
    } else {
        now - since
    }
}

/// Whether something from the time `since` is younger than `ttl`.
pub open spec fn fresh(since: u64, now: u64, ttl: u64) -> bool {
    age(since, now) < ttl
}

/// Whether something from the time `since` is younger than `ttl`.
pub fn is_fresh(since: u64, now: u64, ttl: u64) -> (r: bool)
    ensures
        r == fresh(since, now, ttl),
{
    now.saturating_sub(since) < ttl
}

/// Something stays fresh for exactly as long as it is to live, and a record from
/// the future counts as new.
pub proof fn law_freshness(since: u64, now: u64, ttl: u64)
    ensures
        since <= now ==> (fresh(since, now, ttl) <==> now < since + ttl),
        now < since ==> (fresh(since, now, ttl) <==> ttl > 0),
{
}

/// What was put under a key is found there, and under no other key.
pub proof fn law_lookup<V>(map: Map<Seq<char>, V>, key: Seq<char>, other: Seq<char>, value: V)
    requires
        key != other,
    ensures
        lookup(map.insert(key, value), key) == Some(value),
        lookup(map.insert(key, value), other) == lookup(map, other),
        lookup(map.remove(key), key) is None,
        lookup(Map::<Seq<char>, V>::empty(), key) is None,
{
}

} // verus!
