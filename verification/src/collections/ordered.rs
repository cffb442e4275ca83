//! Walking the keys of an ordered map.
use vstd::prelude::*;
use vstd::std_specs::cmp::OrdSpec;
use vstd::std_specs::iter::IteratorSpec;
use std::collections::BTreeMap;

verus! {

/// Whether every key is smaller than all that follow it.
pub open spec fn strictly_ascending(keys: Seq<u128>) -> bool {
    forall|i: int, j: int| 0 <= i < j < keys.len() ==> keys[i] < keys[j]
}

/// Whether `keys` lists the keys of `map`, each once, from the smallest up.
pub open spec fn lists_keys<V>(keys: Seq<u128>, map: Map<u128, V>) -> bool {
    &&& strictly_ascending(keys)
    &&& forall|k: u128| keys.contains(k) <==> map.contains_key(k)
}

/// Two ascending lists of the same keys are one list.
pub proof fn lemma_ascending_list_is_unique(a: Seq<u128>, b: Seq<u128>)
    requires
        strictly_ascending(a),
        strictly_ascending(b),
        forall|k: u128| a.contains(k) <==> b.contains(k),
    ensures
        a == b,
    decreases a.len(),
{
    if a.len() == 0 {
        if b.len() > 0 {
            assert(b.contains(b[0]));
        }
        assert(a =~= b);
    } else {
        assert(a.contains(a[0]));
        assert(b.contains(a[0]));
        assert(b.len() > 0);
        assert(b.contains(b[0]));
        assert(a.contains(b[0]));
        let i = choose|i: int| 0 <= i < a.len() && a[i] == b[0];
        let j = choose|j: int| 0 <= j < b.len() && b[j] == a[0];
        assert(a[0] == b[0]) by {
            if i > 0 {
                assert(a[0] < a[i]);
            }
            if j > 0 {
                assert(b[0] < b[j]);
            }
        }
        let ta = a.drop_first();
        let tb = b.drop_first();
        assert forall|k: u128| ta.contains(k) <==> tb.contains(k) by {
            if ta.contains(k) {
                let x = choose|x: int| 0 <= x < ta.len() && ta[x] == k;
                assert(a[x + 1] == k);
                assert(a[0] < a[x + 1]);
                assert(a.contains(k));
                let y = choose|y: int| 0 <= y < b.len() && b[y] == k;
                assert(y > 0);
                assert(tb[y - 1] == k);
            }
            if tb.contains(k) {
                let x = choose|x: int| 0 <= x < tb.len() && tb[x] == k;
                assert(b[x + 1] == k);
                assert(b[0] < b[x + 1]);
                assert(b.contains(k));
                let y = choose|y: int| 0 <= y < a.len() && a[y] == k;
                assert(y > 0);
                assert(ta[y - 1] == k);
            }
        }
        assert(strictly_ascending(ta)) by {
            assert forall|x: int, y: int| 0 <= x < y < ta.len() implies ta[x] < ta[y] by {
                assert(a[x + 1] < a[y + 1]);
            }
        }
        assert(strictly_ascending(tb)) by {
            assert forall|x: int, y: int| 0 <= x < y < tb.len() implies tb[x] < tb[y] by {
                assert(b[x + 1] < b[y + 1]);
            }
        }
        lemma_ascending_list_is_unique(ta, tb);
        assert(a =~= seq![a[0]] + ta);
        assert(b =~= seq![b[0]] + tb);
    }
}

/// What the key iterator of a map of `u128` keys will yield is the ascending
/// list of the map's keys.
proof fn lemma_keys_are_listed<V>(map: &BTreeMap<u128, V>)
    ensures
        lists_keys(map.keys().remaining().unref(), map@),
        map.keys().remaining().unref().len() == map.keys().remaining().len(),
        forall|i: int|
            0 <= i < map.keys().remaining().len() ==> #[trigger] map.keys().remaining().unref()[i]
                == *map.keys().remaining()[i],
{
    broadcast use vstd::std_specs::btree::group_btree_axioms;
    broadcast use vstd::laws_cmp::group_laws_cmp;

    let refs = map.keys().remaining();
    let keys = refs.unref();
    assert(keys.to_set() == map@.dom());
    assert(vstd::laws_cmp::obeys_cmp::<&u128>());
    vstd::std_specs::btree::axiom_increasing_seq_meaning(refs);
    assert forall|i: int, j: int| 0 <= i < j < keys.len() implies keys[i] < keys[j] by {
        assert(OrdSpec::cmp_spec(&refs[i], &refs[j]) is Less);
    }
    assert forall|k: u128| keys.contains(k) <==> map@.contains_key(k) by {
        assert(keys.to_set().contains(k) <==> map@.dom().contains(k));
    }
}

/// The keys of a map can be listed from the smallest up.
pub proof fn lemma_keys_can_be_listed<V>(map: &BTreeMap<u128, V>)
    ensures
        exists|keys: Seq<u128>| #[trigger] lists_keys(keys, map@),
{
    lemma_keys_are_listed(map);
    assert(lists_keys(map.keys().remaining().unref(), map@));
}

/// Puts a value at a key, in place of what was there.
pub fn put<V>(map: &mut BTreeMap<u128, V>, key: u128, value: V)
    ensures
        final(map)@ == old(map)@.insert(key, value),
{
    broadcast use vstd::std_specs::btree::group_btree_axioms;
    broadcast use vstd::laws_cmp::group_laws_cmp;

    let _ = map.insert(key, value);
}

/// Takes the value at a key out of the map.
pub fn take<V>(map: &mut BTreeMap<u128, V>, key: u128) -> (value: Option<V>)
    ensures
        final(map)@ == old(map)@.remove(key),
        value == if old(map)@.contains_key(key) {
            Some(old(map)@[key])
        } else {
            None
        },
{
    broadcast use vstd::std_specs::btree::group_btree_axioms;
    broadcast use vstd::laws_cmp::group_laws_cmp;

    map.remove(&key)
}

/// Looks at the value at a key.
pub fn peek<V>(map: &BTreeMap<u128, V>, key: u128) -> (value: Option<&V>)
    ensures
        value == if map@.contains_key(key) {
            Some(&map@[key])
        } else {
            None
        },
{
    broadcast use vstd::std_specs::btree::group_btree_axioms;
    broadcast use vstd::laws_cmp::group_laws_cmp;

    map.get(&key)
}

/// The smallest key of the map that is not below `from`, if there is one.
pub fn first_key_from<V>(map: &BTreeMap<u128, V>, from: u128) -> (first: Option<u128>)
    ensures
        match first {
            None => forall|k: u128| map@.contains_key(k) ==> k < from,
            Some(least) => map@.contains_key(least) && from <= least && forall|k: u128|
                map@.contains_key(k) && from <= k ==> least <= k,
        },
{
    proof {
        lemma_keys_are_listed(map);
    }
    for key in it: map.keys()
        invariant
            it.seq() == map.keys().remaining(),
            lists_keys(map.keys().remaining().unref(), map@),
            map.keys().remaining().unref().len() == map.keys().remaining().len(),
            forall|i: int|
                0 <= i < map.keys().remaining().len() ==> #[trigger] map.keys().remaining().unref()[i]
                    == *map.keys().remaining()[i],
            forall|i: int| 0 <= i < it.index() ==> *it.seq()[i] < from,
    {
        if *key >= from {
            proof {
                let keys = map.keys().remaining().unref();
                let at = it.index();
                assert(keys[at] == *key);
                assert(keys.contains(*key));
                assert forall|k: u128| map@.contains_key(k) && from <= k implies *key <= k by {
                    assert(keys.contains(k));
                    let i = choose|i: int| 0 <= i < keys.len() && keys[i] == k;
                    if i < at {
                        assert(keys[i] == *it.seq()[i]);
                    } else if i > at {
                        assert(keys[at] < keys[i]);
                    }
                }
            }
            return Some(*key);
        }
    }
    proof {
        let keys = map.keys().remaining().unref();
        assert forall|k: u128| map@.contains_key(k) implies k < from by {
            assert(keys.contains(k));
            let i = choose|i: int| 0 <= i < keys.len() && keys[i] == k;
            assert(keys[i] == *map.keys().remaining()[i]);
        }
    }
    None
}

/// The largest key of the map that is not above `upto`, if there is one.
pub fn last_key_upto<V>(map: &BTreeMap<u128, V>, upto: u128) -> (last: Option<u128>)
    ensures
        match last {
            None => forall|k: u128| map@.contains_key(k) ==> upto < k,
            Some(most) => map@.contains_key(most) && most <= upto && forall|k: u128|
                map@.contains_key(k) && k <= upto ==> k <= most,
        },
{
    proof {
        lemma_keys_are_listed(map);
    }
    let mut last: Option<u128> = None;
    for key in it: map.keys()
        invariant
            it.seq() == map.keys().remaining(),
            lists_keys(map.keys().remaining().unref(), map@),
            map.keys().remaining().unref().len() == map.keys().remaining().len(),
            forall|i: int|
                0 <= i < map.keys().remaining().len() ==> #[trigger] map.keys().remaining().unref()[i]
                    == *map.keys().remaining()[i],
            match last {
                None => it.index() == 0,
                Some(most) => it.index() > 0 && most == *it.seq()[it.index() - 1] && most <= upto,
            },
    {
        if *key > upto {
            proof {
                let keys = map.keys().remaining().unref();
                let at = it.index();
                assert(keys[at] == *key);
                assert forall|k: u128| map@.contains_key(k) && k <= upto implies (last matches Some(
                    most,
                ) && k <= most) by {
                    assert(keys.contains(k));
                    let i = choose|i: int| 0 <= i < keys.len() && keys[i] == k;
                    if i > at {
                        assert(keys[at] < keys[i]);
                    }
                    assert(i < at);
                    assert(at > 0);
                    assert(keys[at - 1] == *it.seq()[at - 1]);
                    if i < at - 1 {
                        assert(keys[i] < keys[at - 1]);
                    }
                }
                if let Some(most) = last {
                    assert(keys[at - 1] == most);
                    assert(keys.contains(most));
                }
            }
            return last;
        }
        last = Some(*key);
    }
    proof {
        let keys = map.keys().remaining().unref();
        let n = keys.len() as int;
        assert forall|k: u128| map@.contains_key(k) implies (last matches Some(most) && k <= most) by {
            assert(keys.contains(k));
            let i = choose|i: int| 0 <= i < keys.len() && keys[i] == k;
            assert(keys[n - 1] == *map.keys().remaining()[n - 1]);
            if i < n - 1 {
                assert(keys[i] < keys[n - 1]);
            }
        }
        if let Some(most) = last {
            assert(keys[n - 1] == most);
            assert(keys.contains(most));
        }
    }
    last
}

/// The keys of the map from the smallest up.
pub fn all_keys<V>(map: &BTreeMap<u128, V>) -> (keys: Vec<u128>)
    ensures
        lists_keys(keys@, map@),
{
    proof {
        lemma_keys_are_listed(map);
    }
    let mut keys: Vec<u128> = Vec::new();
    for key in it: map.keys()
        invariant
            it.seq() == map.keys().remaining(),
            lists_keys(map.keys().remaining().unref(), map@),
            map.keys().remaining().unref().len() == map.keys().remaining().len(),
            forall|i: int|
                0 <= i < map.keys().remaining().len() ==> #[trigger] map.keys().remaining().unref()[i]
                    == *map.keys().remaining()[i],
            keys@.len() == it.index(),
            forall|i: int| 0 <= i < keys@.len() ==> keys@[i] == *it.seq()[i],
    {
        keys.push(*key);
    }
    proof {
        assert(keys@ =~= map.keys().remaining().unref());
    }
    keys
}

/// The keys of the map from the smallest up, as far as `limit` allows.
pub fn first_keys<V>(map: &BTreeMap<u128, V>, limit: usize) -> (keys: Vec<u128>)
    ensures
        exists|all: Seq<u128>| #[trigger]
            lists_keys(all, map@) && keys@ == all.take(
                if limit <= all.len() {
                    limit as int
                } else {
                    all.len() as int
                },
            ),
{
    proof {
        lemma_keys_are_listed(map);
    }
    let mut keys: Vec<u128> = Vec::new();
    for key in it: map.keys()
        invariant
            it.seq() == map.keys().remaining(),
            lists_keys(map.keys().remaining().unref(), map@),
            map.keys().remaining().unref().len() == map.keys().remaining().len(),
            forall|i: int|
                0 <= i < map.keys().remaining().len() ==> #[trigger] map.keys().remaining().unref()[i]
                    == *map.keys().remaining()[i],
            keys@.len() == it.index(),
            keys@.len() <= limit,
            forall|i: int| 0 <= i < keys@.len() ==> keys@[i] == *it.seq()[i],
    {
        if keys.len() >= limit {
            proof {
                let all = map.keys().remaining().unref();
                assert(keys@ =~= all.take(limit as int));
                assert(lists_keys(all, map@));
            }
            return keys;
        }
        keys.push(*key);
    }
    proof {
        let all = map.keys().remaining().unref();
        assert(keys@ =~= all.take(all.len() as int));
        assert(lists_keys(all, map@));
    }
    keys
}

} // verus!
