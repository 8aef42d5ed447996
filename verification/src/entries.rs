use vstd::prelude::*;

verus! {

/// The keys of a sequence of entries, in order.
pub open spec fn keys_of<V>(es: Seq<(Seq<char>, V)>) -> Seq<Seq<char>> {
    es.map_values(|e: (Seq<char>, V)| e.0)
}

/// The first index at or after `i` that holds key `k`.
pub open spec fn position_from(keys: Seq<Seq<char>>, k: Seq<char>, i: int) -> Option<int>
    decreases keys.len() - i,
{
    if i < 0 || i >= keys.len() {
        None
    } else if keys[i] == k {
        Some(i)
    } else {
        position_from(keys, k, i + 1)
    }
}

/// The index of key `k` among the entries, if it occurs.
pub open spec fn find_key<V>(es: Seq<(Seq<char>, V)>, k: Seq<char>) -> Option<int> {
    position_from(keys_of(es), k, 0)
}

/// The value stored under key `k`, if any.
pub open spec fn map_get<V>(es: Seq<(Seq<char>, V)>, k: Seq<char>) -> Option<V> {
    match find_key(es, k) {
        Some(i) => Some(es[i].1),
        None => None,
    }
}

/// Insertion into an insertion-ordered map: a key already present keeps its
/// place and takes the new value; a new key goes last.
pub open spec fn map_insert<V>(es: Seq<(Seq<char>, V)>, k: Seq<char>, v: V) -> Seq<(Seq<char>, V)> {
    match find_key(es, k) {
        Some(i) => es.update(i, (k, v)),
        None => es.push((k, v)),
    }
}

/// Removal from an insertion-ordered map that keeps the order of the others.
pub open spec fn map_remove<V>(es: Seq<(Seq<char>, V)>, k: Seq<char>) -> Seq<(Seq<char>, V)> {
    match find_key(es, k) {
        Some(i) => es.remove(i),
        None => es,
    }
}

/// The entries `items` inserted in order into `es`.
pub open spec fn map_insert_all<V>(es: Seq<(Seq<char>, V)>, items: Seq<(Seq<char>, V)>) -> Seq<(Seq<char>, V)>
    decreases items.len(),
{
    if items.len() == 0 {
        es
    } else {
        let prev = map_insert_all(es, items.drop_last());
        map_insert(prev, items.last().0, items.last().1)
    }
}

/// Whether no key occurs twice.
pub open spec fn keys_unique<V>(es: Seq<(Seq<char>, V)>) -> bool {
    forall|i: int, j: int| 0 <= i < j < es.len() ==> es[i].0 != es[j].0
}

pub proof fn lemma_position_from_found(keys: Seq<Seq<char>>, k: Seq<char>, i: int)
    requires
        0 <= i,
    ensures
        position_from(keys, k, i) matches Some(p) ==> i <= p < keys.len() && keys[p] == k
            && forall|q: int| i <= q < p ==> keys[q] != k,
        position_from(keys, k, i) is None ==> forall|q: int| i <= q < keys.len() ==> keys[q] != k,
    decreases keys.len() - i,
{
    if i < keys.len() && keys[i] != k {
        lemma_position_from_found(keys, k, i + 1);
    }
}

/// A key is found exactly where it first occurs.
pub proof fn lemma_find_key<V>(es: Seq<(Seq<char>, V)>, k: Seq<char>)
    ensures
        find_key(es, k) matches Some(p) ==> 0 <= p < es.len() && es[p].0 == k && forall|q: int|
            0 <= q < p ==> es[q].0 != k,
        find_key(es, k) is None ==> forall|q: int| 0 <= q < es.len() ==> es[q].0 != k,
{
    let keys = keys_of(es);
    assert(keys.len() == es.len());
    assert forall|q: int| 0 <= q < es.len() implies keys[q] == es[q].0 by {}
    lemma_position_from_found(keys, k, 0);
    match find_key(es, k) {
        Some(p) => {
            assert(keys[p] == k);
            assert forall|q: int| 0 <= q < p implies es[q].0 != k by {
                assert(keys[q] != k);
            }
        },
        None => {
            assert forall|q: int| 0 <= q < es.len() implies es[q].0 != k by {
                assert(keys[q] != k);
            }
        },
    }
}

/// Inserting keeps the keys unique.
pub proof fn lemma_insert_unique<V>(es: Seq<(Seq<char>, V)>, k: Seq<char>, v: V)
    requires
        keys_unique(es),
    ensures
        keys_unique(map_insert(es, k, v)),
        map_get(map_insert(es, k, v), k) == Some(v),
{
    lemma_find_key(es, k);
    let r = map_insert(es, k, v);
    lemma_find_key(r, k);
    match find_key(es, k) {
        Some(p) => {
            assert(r[p].0 == k);
            assert forall|q: int| 0 <= q < p implies r[q].0 != k by {
                assert(r[q] == es[q]);
            }
        },
        None => {
            assert(r[es.len() as int].0 == k);
            assert forall|q: int| 0 <= q < es.len() implies r[q].0 != k by {
                assert(r[q] == es[q]);
            }
        },
    }
}

/// The value of the last entry with key `k`, if any.
pub open spec fn last_value<V>(items: Seq<(Seq<char>, V)>, k: Seq<char>) -> Option<V>
    decreases items.len(),
{
    if items.len() == 0 {
        None
    } else if items.last().0 == k {
        Some(items.last().1)
    } else {
        last_value(items.drop_last(), k)
    }
}

/// A read after a write: the written key gives the written value, every
/// other key what it gave before.
pub proof fn lemma_insert_get<V>(es: Seq<(Seq<char>, V)>, k: Seq<char>, v: V, other: Seq<char>)
    ensures
        map_get(map_insert(es, k, v), other) == if other == k {
            Some(v)
        } else {
            map_get(es, other)
        },
{
    let r = map_insert(es, k, v);
    lemma_find_key(es, k);
    lemma_find_key(es, other);
    lemma_find_key(r, other);
    match find_key(es, k) {
        Some(p) => {
            assert forall|q: int| 0 <= q < es.len() && q != p implies r[q] == es[q] by {}
            assert(r[p] == (k, v));
            assert(r.len() == es.len());
        },
        None => {
            assert forall|q: int| 0 <= q < es.len() implies r[q] == es[q] by {}
            assert(r[es.len() as int] == (k, v));
            assert(r.len() == es.len() + 1);
        },
    }
}

/// A read after writing `items` in order: the last value written under the
/// key, or what the key gave before when none was.
pub proof fn lemma_insert_all_get<V>(es: Seq<(Seq<char>, V)>, items: Seq<(Seq<char>, V)>, k: Seq<char>)
    ensures
        map_get(map_insert_all(es, items), k) == match last_value(items, k) {
            Some(v) => Some(v),
            None => map_get(es, k),
        },
    decreases items.len(),
{
    if items.len() > 0 {
        lemma_insert_all_get(es, items.drop_last(), k);
        lemma_insert_get(map_insert_all(es, items.drop_last()), items.last().0, items.last().1, k);
    }
}

/// Writing keeps the keys unique.
pub proof fn lemma_insert_all_unique<V>(es: Seq<(Seq<char>, V)>, items: Seq<(Seq<char>, V)>)
    requires
        keys_unique(es),
    ensures
        keys_unique(map_insert_all(es, items)),
    decreases items.len(),
{
    if items.len() > 0 {
        lemma_insert_all_unique(es, items.drop_last());
        lemma_insert_unique(map_insert_all(es, items.drop_last()), items.last().0, items.last().1);
    }
}

/// Writing entries with unique keys into an empty map gives them back in
/// order.
pub proof fn lemma_insert_all_fresh<V>(items: Seq<(Seq<char>, V)>)
    requires
        keys_unique(items),
    ensures
        map_insert_all(Seq::<(Seq<char>, V)>::empty(), items) == items,
    decreases items.len(),
{
    if items.len() > 0 {
        let prev = items.drop_last();
        assert(keys_unique(prev));
        lemma_insert_all_fresh(prev);
        lemma_find_key(prev, items.last().0);
        assert(find_key(prev, items.last().0) is None) by {
            match find_key(prev, items.last().0) {
                Some(p) => {
                    assert(items[p].0 == items[items.len() - 1].0);
                },
                None => {},
            }
        }
        assert(prev.push(items.last()) =~= items);
    }
}

/// The keys of a map after writes are the keys it had or keys written.
pub proof fn lemma_insert_all_keys<V>(es: Seq<(Seq<char>, V)>, items: Seq<(Seq<char>, V)>, i: int)
    requires
        0 <= i < map_insert_all(es, items).len(),
    ensures
        keys_of(es).contains(map_insert_all(es, items)[i].0) || keys_of(items).contains(
            map_insert_all(es, items)[i].0,
        ),
    decreases items.len(),
{
    let r = map_insert_all(es, items);
    if items.len() == 0 {
        assert(keys_of(es)[i] == r[i].0);
    } else {
        let prev = map_insert_all(es, items.drop_last());
        let k = items.last().0;
        lemma_find_key(prev, k);
        if r[i].0 == k {
            assert(keys_of(items)[items.len() - 1] == k);
        } else {
            assert(i < prev.len());
            assert(r[i] == prev[i]);
            lemma_insert_all_keys(es, items.drop_last(), i);
            if keys_of(items.drop_last()).contains(prev[i].0) {
                let j = choose|j: int| 0 <= j < keys_of(items.drop_last()).len() && keys_of(items.drop_last())[j] == prev[i].0;
                assert(keys_of(items)[j] == r[i].0);
            }
        }
    }
}

/// Removing a key of a map whose keys are unique: that key gives nothing,
/// every other key what it gave before.
pub proof fn lemma_remove_get<V>(es: Seq<(Seq<char>, V)>, k: Seq<char>, other: Seq<char>)
    requires
        keys_unique(es),
    ensures
        map_get(map_remove(es, k), other) == if other == k {
            None
        } else {
            map_get(es, other)
        },
        keys_unique(map_remove(es, k)),
{
    let r = map_remove(es, k);
    lemma_find_key(es, k);
    lemma_find_key(es, other);
    lemma_find_key(r, other);
    match find_key(es, k) {
        Some(p) => {
            assert forall|q: int| 0 <= q < r.len() implies #[trigger] r[q] == if q < p {
                es[q]
            } else {
                es[q + 1]
            } by {}
            if other != k {
                match find_key(es, other) {
                    Some(o) => {
                        assert(o != p);
                        if o < p {
                            assert(r[o] == es[o]);
                        } else {
                            assert(r[o - 1] == es[o]);
                        }
                    },
                    None => {},
                }
            }
        },
        None => {},
    }
}

} // verus!
