//! When keys expire: a `DashMap` from keys to times.

use dashmap::DashMap;
use vstd::prelude::*;
use vstd::slice::slice_to_vec;

verus! {

#[verifier::external_type_specification]
#[verifier::external_body]
#[verifier::reject_recursive_types(K)]
#[verifier::reject_recursive_types(V)]
#[verifier::reject_recursive_types(S)]
pub struct ExDashMap<K, V, S>(DashMap<K, V, S>);

/// What a `DashMap` from keys to times holds.
pub uninterp spec fn dash_entries(m: DashMap<Vec<u8>, u128>) -> Map<Seq<u8>, u128>;

/// `DashMap::new` makes a map that holds nothing.
#[verifier::external_body]
fn dash_new() -> (m: DashMap<Vec<u8>, u128>)
    ensures
        dash_entries(m) == (Map::<Seq<u8>, u128>::empty()),
{
    DashMap::new()
}

/// `DashMap::insert` sets the value of a key, new or not.
#[verifier::external_body]
fn dash_insert(m: &mut DashMap<Vec<u8>, u128>, key: Vec<u8>, at: u128)
    ensures
        dash_entries(*final(m)) == dash_entries(*old(m)).insert(key@, at),
{
    m.insert(key, at);
}

/// `DashMap::remove` takes a key out, where it is in.
#[verifier::external_body]
fn dash_remove(m: &mut DashMap<Vec<u8>, u128>, key: &[u8])
    ensures
        dash_entries(*final(m)) == dash_entries(*old(m)).remove(key@),
{
    m.remove(key);
}

/// `DashMap::get` finds the value of a key.
#[verifier::external_body]
fn dash_get(m: &DashMap<Vec<u8>, u128>, key: &[u8]) -> (r: Option<u128>)
    ensures
        match r {
            Some(at) => dash_entries(*m).contains_key(key@) && dash_entries(*m)[key@] == at,
            None => !dash_entries(*m).contains_key(key@),
        },
{
    m.get(key).map(|e| *e.value())
}

/// `DashMap::len` counts the keys.
#[verifier::external_body]
fn dash_len(m: &DashMap<Vec<u8>, u128>) -> (n: usize)
    ensures
        n == dash_entries(*m).len(),
{
    m.len()
}

/// `DashMap::iter` hands out every key with its value once, in no order that
/// is known.
#[verifier::external_body]
fn dash_list(m: &DashMap<Vec<u8>, u128>) -> (out: Vec<(Vec<u8>, u128)>)
    ensures
        forall|i: int|
            0 <= i < out@.len() ==> dash_entries(*m).contains_key((#[trigger] out@[i]).0@)
                && dash_entries(*m)[out@[i].0@] == out@[i].1,
        forall|k: Seq<u8>| #[trigger]
            dash_entries(*m).contains_key(k) ==> exists|i: int|
                0 <= i < out@.len() && (#[trigger] out@[i]).0@ == k,
        forall|i: int, j: int|
            0 <= i < j < out@.len() ==> (#[trigger] out@[i]).0@ != (#[trigger] out@[j]).0@,
{
    m.iter().map(|e| (e.key().clone(), *e.value())).collect()
}

/// The keys of a keyspace that expire, and when (milliseconds since the Unix
/// epoch). A key that is not in it never expires.
pub struct ExpiryTable {
    map: DashMap<Vec<u8>, u128>,
}

impl View for ExpiryTable {
    type V = Map<Seq<u8>, u128>;

    closed spec fn view(&self) -> Map<Seq<u8>, u128> {
        dash_entries(self.map)
    }
}

/// Whether a key's time has come.
pub open spec fn has_expired(table: Map<Seq<u8>, u128>, key: Seq<u8>, now: u128) -> bool {
    table.contains_key(key) && table[key] <= now
}

/// The views of a list of keys.
pub open spec fn key_views(v: Seq<Vec<u8>>) -> Seq<Seq<u8>> {
    v.map_values(|k: Vec<u8>| k@)
}

impl ExpiryTable {
    pub fn new() -> (t: Self)
        ensures
            t@ == Map::<Seq<u8>, u128>::empty(),
    {
        ExpiryTable { map: dash_new() }
    }

    pub fn set(&mut self, key: &[u8], at: u128)
        ensures
            final(self)@ == old(self)@.insert(key@, at),
    {
        dash_insert(&mut self.map, slice_to_vec(key), at);
    }

    pub fn clear(&mut self, key: &[u8])
        ensures
            final(self)@ == old(self)@.remove(key@),
    {
        dash_remove(&mut self.map, key);
    }

    pub fn is_expired(&self, key: &[u8], now: u128) -> (r: bool)
        ensures
            r == has_expired(self@, key@, now),
    {
        match dash_get(&self.map, key) {
            Some(at) => now >= at,
            None => false,
        }
    }

    pub fn len(&self) -> (n: usize)
        ensures
            n == self@.len(),
    {
        dash_len(&self.map)
    }

    /// The keys whose time has come, each once.
    pub fn expired(&self, now: u128) -> (out: Vec<Vec<u8>>)
        ensures
            key_views(out@).no_duplicates(),
            forall|k: Seq<u8>| #[trigger]
                key_views(out@).contains(k) <==> has_expired(self@, k, now),
    {
        let all = dash_list(&self.map);
        let mut out: Vec<Vec<u8>> = Vec::new();
        let mut i: usize = 0;
        while i < all.len()
            invariant
                i <= all.len(),
                forall|j: int|
                    0 <= j < all@.len() ==> self@.contains_key((#[trigger] all@[j]).0@)
                        && self@[all@[j].0@] == all@[j].1,
                forall|j: int, k: int|
                    0 <= j < k < all@.len() ==> (#[trigger] all@[j]).0@ != (#[trigger] all@[k]).0@,
                key_views(out@).no_duplicates(),
                forall|k: Seq<u8>| #[trigger]
                    key_views(out@).contains(k) <==> exists|j: int|
                        0 <= j < i && (#[trigger] all@[j]).0@ == k && all@[j].1 <= now,
            decreases all.len() - i,
        {
            let ghost before = out@;
            let ghost kv = all@[i as int].0@;
            if now >= all[i].1 {
                proof {
                    if key_views(out@).contains(kv) {
                        let j = choose|j: int|
                            0 <= j < i && (#[trigger] all@[j]).0@ == kv && all@[j].1 <= now;
                        assert(all@[j].0@ != all@[i as int].0@);
                    }
                }
                out.push(slice_to_vec(all[i].0.as_slice()));
                assert(key_views(out@) =~= key_views(before).push(kv));
            }
            proof {
                let hit = all@[i as int].1 <= now;
                assert forall|k: Seq<u8>| #[trigger]
                    key_views(out@).contains(k) <==> exists|j: int|
                        0 <= j < i + 1 && (#[trigger] all@[j]).0@ == k && all@[j].1 <= now by {
                    if key_views(before).contains(k) {
                        let x = key_views(before).index_of(k);
                        assert(key_views(out@)[x] == k);
                        let j = choose|j: int|
                            0 <= j < i && (#[trigger] all@[j]).0@ == k && all@[j].1 <= now;
                        assert(all@[j].0@ == k);
                    }
                    if hit && k == kv {
                        assert(key_views(out@)[before.len() as int] == k);
                        assert(all@[i as int].0@ == k);
                    }
                    if key_views(out@).contains(k) {
                        let x = key_views(out@).index_of(k);
                        if x < before.len() {
                            assert(key_views(before)[x] == k);
                        }
                    }
                }
            }
            i = i + 1;
        }
        proof {
            assert forall|k: Seq<u8>| #[trigger]
                key_views(out@).contains(k) <==> has_expired(self@, k, now) by {
                if has_expired(self@, k, now) {
                    let j = choose|j: int| 0 <= j < all@.len() && (#[trigger] all@[j]).0@ == k;
                    assert(all@[j].0@ == k);
                }
            }
        }
        out
    }
}

/// A key expires at the time that it was given, neither earlier nor later, and
/// a key that was given none, or whose time was cleared, never. Other keys are
/// left alone.
pub proof fn law_key_expires_at_its_time(
    table: Map<Seq<u8>, u128>,
    key: Seq<u8>,
    other: Seq<u8>,
    at: u128,
    now: u128,
)
    ensures
        has_expired(table.insert(key, at), key, now) <==> now >= at,
        !has_expired(table.remove(key), key, now),
        !has_expired(Map::<Seq<u8>, u128>::empty(), key, now),
        other != key ==> has_expired(table.insert(key, at), other, now) == has_expired(
            table,
            other,
            now,
        ) && has_expired(table.remove(key), other, now) == has_expired(table, other, now),
{
}

/// Keys are listed as they are, one by one.
pub proof fn law_keys_are_listed_as_they_are(v: Seq<Vec<u8>>)
    ensures
        key_views(v).len() == v.len(),
        forall|i: int| 0 <= i < v.len() ==> #[trigger] key_views(v)[i] == v[i]@,
{
}

} // verus!
