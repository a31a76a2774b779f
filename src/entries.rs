//! Ordered key/value sequences: the mathematical form of an insertion-ordered map.
//!
//! An ordered map is modelled as a sequence of `(key, value)` pairs. The maps
//! this library uses never hold a key twice, so the position of a key is the
//! one index at which it occurs.
use vstd::prelude::*;

verus! {

/// The keys of an ordered sequence of entries, in order.
pub open spec fn keys_of<V>(s: Seq<(usize, V)>) -> Seq<usize> {
    s.map_values(|e: (usize, V)| e.0)
}

/// Whether some entry has key `k`.
pub open spec fn has_key<V>(s: Seq<(usize, V)>, k: usize) -> bool {
    keys_of(s).contains(k)
}

/// The position of key `k` (meaningful only when `has_key(s, k)`).
pub open spec fn index_of<V>(s: Seq<(usize, V)>, k: usize) -> int {
    keys_of(s).index_of(k)
}

/// The value stored under `k`, if any.
pub open spec fn lookup<V>(s: Seq<(usize, V)>, k: usize) -> Option<V> {
    if has_key(s, k) {
        Some(s[index_of(s, k)].1)
    } else {
        None
    }
}

/// Storing `v` under `k`: an existing key keeps its position, a new key goes last.
pub open spec fn with_entry<V>(s: Seq<(usize, V)>, k: usize, v: V) -> Seq<(usize, V)> {
    if has_key(s, k) {
        s.update(index_of(s, k), (k, v))
    } else {
        s.push((k, v))
    }
}

/// Removing the entry of `k`, keeping the order of the others.
pub open spec fn without_key<V>(s: Seq<(usize, V)>, k: usize) -> Seq<(usize, V)> {
    if has_key(s, k) {
        s.remove(index_of(s, k))
    } else {
        s
    }
}

/// Moving the entry at `from` to position `to`, shifting the entries in between.
pub open spec fn moved<A>(s: Seq<A>, from: int, to: int) -> Seq<A> {
    s.remove(from).insert(to, s[from])
}

/// No key occurs twice.
pub open spec fn unique_keys<V>(s: Seq<(usize, V)>) -> bool {
    keys_of(s).no_duplicates()
}

/// Applying `f` to every value, keeping keys and order.
pub open spec fn map_entries<V, W>(s: Seq<(usize, V)>, f: spec_fn(V) -> W) -> Seq<(usize, W)> {
    s.map_values(|e: (usize, V)| (e.0, f(e.1)))
}

/// Mapping values does not change the keys.
pub proof fn lemma_keys_map<V, W>(s: Seq<(usize, V)>, f: spec_fn(V) -> W)
    ensures
        keys_of(map_entries(s, f)) == keys_of(s),
{
    assert(keys_of(map_entries(s, f)) =~= keys_of(s));
}

/// The entry found for a present key has that key.
pub proof fn lemma_index_of<V>(s: Seq<(usize, V)>, k: usize)
    requires
        has_key(s, k),
    ensures
        0 <= index_of(s, k) < s.len(),
        s[index_of(s, k)].0 == k,
{
    let ks = keys_of(s);
    assert(ks.contains(k));
    let i = ks.index_of(k);
    assert(0 <= i < ks.len() && ks[i] == k);
}

/// Mapping the values commutes with replacing the value of a present key.
pub proof fn lemma_map_update<V, W>(s: Seq<(usize, V)>, k: usize, v: V, f: spec_fn(V) -> W)
    requires
        has_key(s, k),
    ensures
        has_key(map_entries(s, f), k),
        index_of(map_entries(s, f), k) == index_of(s, k),
        lookup(map_entries(s, f), k) == Some(f(s[index_of(s, k)].1)),
        map_entries(s.update(index_of(s, k), (k, v)), f) == with_entry(map_entries(s, f), k, f(v)),
{
    lemma_keys_map(s, f);
    lemma_index_of(s, k);
    assert(map_entries(s.update(index_of(s, k), (k, v)), f) =~= map_entries(s, f).update(
        index_of(s, k),
        (k, f(v)),
    ));
}

/// Looking up in mapped entries maps the value found.
pub proof fn lemma_lookup_map<V, W>(s: Seq<(usize, V)>, k: usize, f: spec_fn(V) -> W)
    ensures
        lookup(map_entries(s, f), k) == (match lookup(s, k) {
            Some(x) => Some(f(x)),
            None => None,
        }),
{
    lemma_keys_map(s, f);
}

/// Writing back the value found under a key changes nothing.
pub proof fn lemma_update_same<V>(s: Seq<(usize, V)>, k: usize)
    requires
        has_key(s, k),
    ensures
        s.update(index_of(s, k), (k, s[index_of(s, k)].1)) == s,
{
    lemma_index_of(s, k);
    assert(s.update(index_of(s, k), (k, s[index_of(s, k)].1)) =~= s);
}

/// Mapping the values commutes with replacing the value of a present key, for
/// every new value.
pub proof fn lemma_map_update_all<V, W>(s: Seq<(usize, V)>, k: usize, f: spec_fn(V) -> W)
    requires
        has_key(s, k),
    ensures
        forall|v: V|
            #[trigger] map_entries(s.update(index_of(s, k), (k, v)), f) == with_entry(
                map_entries(s, f),
                k,
                f(v),
            ),
{
    assert forall|v: V|
        #[trigger] map_entries(s.update(index_of(s, k), (k, v)), f) == with_entry(
            map_entries(s, f),
            k,
            f(v),
        ) by {
        lemma_map_update(s, k, v, f);
    }
}

/// Appending a new key keeps the keys unique.
pub proof fn lemma_unique_push<V>(s: Seq<(usize, V)>, k: usize, v: V)
    requires
        unique_keys(s),
        !has_key(s, k),
    ensures
        unique_keys(s.push((k, v))),
{
    assert(keys_of(s.push((k, v))) =~= keys_of(s).push(k));
}

/// A key that occurs before position `i` and again at `i` is not unique.
pub proof fn lemma_repeated_key<V>(s: Seq<(usize, V)>, i: int)
    requires
        0 <= i < s.len(),
        has_key(s.take(i), s[i].0),
    ensures
        !unique_keys(s),
{
    let ks = keys_of(s.take(i));
    let j = ks.index_of(s[i].0);
    assert(ks[j] == s[j].0);
    assert(keys_of(s)[j] == keys_of(s)[i]);
}

/// Storing under a key keeps the keys unique: an existing key keeps its place,
/// a new one goes last.
pub proof fn lemma_unique_with_entry<V>(s: Seq<(usize, V)>, k: usize, v: V)
    requires
        unique_keys(s),
    ensures
        unique_keys(with_entry(s, k, v)),
{
    if has_key(s, k) {
        lemma_index_of(s, k);
        assert(keys_of(s.update(index_of(s, k), (k, v))) =~= keys_of(s));
    } else {
        lemma_unique_push(s, k, v);
    }
}

/// Removing a key keeps the keys unique.
pub proof fn lemma_unique_without_key<V>(s: Seq<(usize, V)>, k: usize)
    requires
        unique_keys(s),
    ensures
        unique_keys(without_key(s, k)),
{
    if has_key(s, k) {
        lemma_index_of(s, k);
        let i = index_of(s, k);
        let r = s.remove(i);
        assert forall|a: int, b: int|
            0 <= a < r.len() && 0 <= b < r.len() && a != b implies keys_of(r)[a] != keys_of(r)[b] by {
            let a0 = if a < i {
                a
            } else {
                a + 1
            };
            let b0 = if b < i {
                b
            } else {
                b + 1
            };
            assert(keys_of(s)[a0] != keys_of(s)[b0]);
        }
    }
}

/// Moving an entry keeps the keys unique.
pub proof fn lemma_unique_moved<V>(s: Seq<(usize, V)>, from: int, to: int)
    requires
        unique_keys(s),
        0 <= from < s.len(),
        0 <= to < s.len(),
    ensures
        unique_keys(moved(s, from, to)),
{
    let r = s.remove(from);
    let m = r.insert(to, s[from]);
    // position in `s` of the entry at position `x` of `m`
    assert forall|a: int, b: int|
        0 <= a < m.len() && 0 <= b < m.len() && a != b implies keys_of(m)[a] != keys_of(m)[b] by {
        let ra = if a < to {
            a
        } else {
            a - 1
        };
        let rb = if b < to {
            b
        } else {
            b - 1
        };
        let sa = if a == to {
            from
        } else if ra < from {
            ra
        } else {
            ra + 1
        };
        let sb = if b == to {
            from
        } else if rb < from {
            rb
        } else {
            rb + 1
        };
        assert(m[a] == s[sa]);
        assert(m[b] == s[sb]);
        assert(sa != sb);
        assert(keys_of(s)[sa] != keys_of(s)[sb]);
    }
}

/// Keeping only some entries keeps the keys unique.
pub proof fn lemma_unique_filter<V>(s: Seq<(usize, V)>, p: spec_fn((usize, V)) -> bool)
    requires
        unique_keys(s),
    ensures
        unique_keys(s.filter(p)),
    decreases s.len(),
{
    reveal(Seq::filter);
    broadcast use vstd::seq_lib::group_filter_ensures;

    if s.len() > 0 {
        let d = s.drop_last();
        assert forall|a: int, b: int|
            0 <= a < d.len() && 0 <= b < d.len() && a != b implies keys_of(d)[a] != keys_of(d)[b] by {
            assert(keys_of(s)[a] != keys_of(s)[b]);
        }
        lemma_unique_filter(d, p);
        if p(s.last()) {
            if has_key(d.filter(p), s.last().0) {
                let j = keys_of(d.filter(p)).index_of(s.last().0);
                d.lemma_filter_contains_rev(p, d.filter(p)[j]);
                let k = choose|k: int| 0 <= k < d.len() && d[k] == d.filter(p)[j];
                assert(keys_of(s)[k] == keys_of(s)[s.len() - 1]);
            }
            lemma_unique_push(d.filter(p), s.last().0, s.last().1);
        }
    }
}

/// Every key is below `n`.
pub open spec fn keys_below<V>(s: Seq<(usize, V)>, n: nat) -> bool {
    forall|i: int| 0 <= i < s.len() ==> (#[trigger] s[i]).0 < n
}

/// Mapping the values keeps the bound on the keys.
pub proof fn lemma_below_map<V, W>(s: Seq<(usize, V)>, f: spec_fn(V) -> W, n: nat)
    ensures
        keys_below(map_entries(s, f), n) == keys_below(s, n),
{
    if keys_below(s, n) {
        assert forall|i: int| 0 <= i < map_entries(s, f).len() implies (#[trigger] map_entries(
            s,
            f,
        )[i]).0 < n by {
            assert(s[i].0 < n);
        }
    }
    if keys_below(map_entries(s, f), n) {
        assert forall|i: int| 0 <= i < s.len() implies (#[trigger] s[i]).0 < n by {
            assert(map_entries(s, f)[i].0 < n);
        }
    }
}

/// Storing under a key below `n` keeps every key below `n`.
pub proof fn lemma_below_with_entry<V>(s: Seq<(usize, V)>, k: usize, v: V, n: nat)
    requires
        keys_below(s, n),
        k < n,
    ensures
        keys_below(with_entry(s, k, v), n),
{
}

/// Removing a key keeps every key below `n`.
pub proof fn lemma_below_without_key<V>(s: Seq<(usize, V)>, k: usize, n: nat)
    requires
        keys_below(s, n),
    ensures
        keys_below(without_key(s, k), n),
{
    if has_key(s, k) {
        lemma_index_of(s, k);
        let r = s.remove(index_of(s, k));
        assert forall|i: int| 0 <= i < r.len() implies (#[trigger] r[i]).0 < n by {
            if i < index_of(s, k) {
                assert(r[i] == s[i]);
            } else {
                assert(r[i] == s[i + 1]);
            }
        }
    }
}

/// Moving an entry keeps every key below `n`.
pub proof fn lemma_below_moved<V>(s: Seq<(usize, V)>, from: int, to: int, n: nat)
    requires
        keys_below(s, n),
        0 <= from < s.len(),
        0 <= to < s.len(),
    ensures
        keys_below(moved(s, from, to), n),
{
    let r = s.remove(from);
    assert forall|i: int| 0 <= i < r.len() implies (#[trigger] r[i]).0 < n by {
        if i < from {
            assert(r[i] == s[i]);
        } else {
            assert(r[i] == s[i + 1]);
        }
    }
    let m = r.insert(to, s[from]);
    assert forall|i: int| 0 <= i < m.len() implies (#[trigger] m[i]).0 < n by {
        if i < to {
            assert(m[i] == r[i]);
        } else if i > to {
            assert(m[i] == r[i - 1]);
        }
    }
}

/// Keeping only some entries keeps every key below `n`.
pub proof fn lemma_below_filter<V>(s: Seq<(usize, V)>, p: spec_fn((usize, V)) -> bool, n: nat)
    requires
        keys_below(s, n),
    ensures
        keys_below(s.filter(p), n),
{
    broadcast use vstd::seq_lib::group_filter_ensures;

    assert forall|i: int| 0 <= i < s.filter(p).len() implies (#[trigger] s.filter(p)[i]).0 < n by {
        s.lemma_filter_contains_rev(p, s.filter(p)[i]);
    }
}

/// Mapping the values commutes with storing under a key.
pub proof fn lemma_map_with_entry<V, W>(s: Seq<(usize, V)>, k: usize, v: V, f: spec_fn(V) -> W)
    ensures
        map_entries(with_entry(s, k, v), f) == with_entry(map_entries(s, f), k, f(v)),
        lookup(map_entries(s, f), k) == (match lookup(s, k) {
            Some(x) => Some(f(x)),
            None => None,
        }),
{
    lemma_keys_map(s, f);
    if has_key(s, k) {
        lemma_map_update(s, k, v, f);
    } else {
        assert(map_entries(s.push((k, v)), f) =~= map_entries(s, f).push((k, f(v))));
    }
}

/// Mapping the values commutes with removing a key.
pub proof fn lemma_map_without_key<V, W>(s: Seq<(usize, V)>, k: usize, f: spec_fn(V) -> W)
    ensures
        map_entries(without_key(s, k), f) == without_key(map_entries(s, f), k),
        has_key(map_entries(s, f), k) == has_key(s, k),
{
    lemma_keys_map(s, f);
    if has_key(s, k) {
        lemma_index_of(s, k);
        assert(map_entries(s.remove(index_of(s, k)), f) =~= map_entries(s, f).remove(
            index_of(s, k),
        ));
    }
}

} // verus!
