//! A stable sort by integer keys.
//!
//! Keyframe entries are ordered by their offsets; the caller hands each entry's
//! position in that order as a key, and items with equal keys keep their order.

use vstd::prelude::*;

verus! {

/// Where an item with key `k` goes in `s`: before the first item with a
/// greater key, or at the end.
pub open spec fn insert_position<T>(s: Seq<(u32, T)>, k: u32) -> int
    decreases s.len(),
{
    if s.len() == 0 {
        0
    } else if insert_position(s.drop_last(), k) < s.len() - 1 {
        insert_position(s.drop_last(), k)
    } else if s.last().0 > k {
        s.len() - 1
    } else {
        s.len() as int
    }
}

/// `s` sorted by key, items of equal keys in the order they came in.
pub open spec fn sorted_by_key<T>(s: Seq<(u32, T)>) -> Seq<(u32, T)>
    decreases s.len(),
{
    if s.len() == 0 {
        s
    } else {
        let p = sorted_by_key(s.drop_last());
        p.insert(insert_position(p, s.last().0), s.last())
    }
}

/// Each item paired with its key.
pub open spec fn keyed<T>(keys: Seq<u32>, items: Seq<T>) -> Seq<(u32, T)> {
    Seq::new(items.len(), |i: int| (keys[i], items[i]))
}

/// Whether the keys of `s` never decrease.
pub open spec fn keys_sorted<T>(s: Seq<(u32, T)>) -> bool {
    forall|i: int, j: int| 0 <= i < j < s.len() ==> #[trigger] s[i].0 <= #[trigger] s[j].0
}

pub proof fn lemma_insert_position<T>(s: Seq<(u32, T)>, k: u32)
    ensures
        0 <= insert_position(s, k) <= s.len(),
        forall|i: int| 0 <= i < insert_position(s, k) ==> #[trigger] s[i].0 <= k,
        insert_position(s, k) < s.len() ==> s[insert_position(s, k)].0 > k,
    decreases s.len(),
{
    if s.len() > 0 {
        let p = s.drop_last();
        lemma_insert_position(p, k);
        assert forall|i: int| 0 <= i < p.len() implies #[trigger] s[i] == p[i] by {}
    }
}

/// Law: the result of the stable sort is ordered by key and holds the same
/// items.
pub proof fn lemma_sorted_by_key<T>(s: Seq<(u32, T)>)
    ensures
        keys_sorted(sorted_by_key(s)),
        sorted_by_key(s).len() == s.len(),
        sorted_by_key(s).to_multiset() == s.to_multiset(),
    decreases s.len(),
{
    if s.len() > 0 {
        let p = sorted_by_key(s.drop_last());
        lemma_sorted_by_key(s.drop_last());
        let x = s.last();
        lemma_insert_position(p, x.0);
        let q = insert_position(p, x.0);
        let r = p.insert(q, x);
        assert forall|i: int, j: int| 0 <= i < j < r.len() implies #[trigger] r[i].0
            <= #[trigger] r[j].0 by {
            if j < q {
                assert(r[i] == p[i] && r[j] == p[j]);
            } else if j == q {
                assert(r[i] == p[i]);
            } else if i < q {
                assert(r[i] == p[i] && r[j] == p[j - 1]);
                assert(p[i].0 <= x.0);
                assert(p[q].0 > x.0);
                assert(p[i].0 <= p[j - 1].0);
            } else if i == q {
                assert(r[j] == p[j - 1]);
                assert(p[q].0 > x.0);
                if j - 1 > q {
                    assert(p[q].0 <= p[j - 1].0);
                }
            } else {
                assert(r[i] == p[i - 1] && r[j] == p[j - 1]);
            }
        }
        assert(s =~= s.drop_last().push(x));
        vstd::seq_lib::to_multiset_insert(p, q, x);
        vstd::seq_lib::to_multiset_build(s.drop_last(), x);
    }
}

/// Sorts `items` by `keys` (one key per item), keeping the order of items
/// with equal keys.
pub fn sort_by_keys<T>(items: Vec<T>, keys: &[u32]) -> (r: Vec<T>)
    requires
        keys@.len() == items@.len(),
    ensures
        r@ == sorted_by_key(keyed(keys@, items@)).map_values(|p: (u32, T)| p.1),
{
    let ghost all = keyed(keys@, items@);
    let n = items.len();
    let mut rest = items;
    let ghost items_v = rest@;
    let mut sorted: Vec<(u32, T)> = Vec::new();
    let mut i: usize = 0;
    while i < n
        invariant
            0 <= i <= n,
            n == items_v.len(),
            keys@.len() == n,
            all == keyed(keys@, items_v),
            rest@ == items_v.skip(i as int),
            sorted@ == sorted_by_key(all.take(i as int)),
        decreases n - i,
    {
        let x = rest.remove(0);
        assert(items_v.skip(i as int)[0] == items_v[i as int]);
        assert(rest@ =~= items_v.skip(i + 1));
        let k = keys[i];
        let ghost p = sorted@;
        proof {
            lemma_insert_position(p, k);
        }
        let mut pos: usize = 0;
        while pos < sorted.len() && sorted[pos].0 <= k
            invariant
                0 <= pos <= sorted@.len(),
                sorted@ == p,
                forall|m: int| 0 <= m < pos ==> #[trigger] p[m].0 <= k,
                0 <= insert_position(p, k) <= p.len(),
                forall|m: int| 0 <= m < insert_position(p, k) ==> #[trigger] p[m].0 <= k,
                insert_position(p, k) < p.len() ==> p[insert_position(p, k)].0 > k,
            decreases sorted.len() - pos,
        {
            pos = pos + 1;
        }
        proof {
            let q = insert_position(p, k);
            if q < pos {
                assert(p[q].0 <= k);
            }
            if q > pos {
                assert(p[pos as int].0 <= k);
            }
        }
        sorted.insert(pos, (k, x));
        assert(all.take(i + 1).drop_last() =~= all.take(i as int));
        assert(all.take(i + 1).last() == (k, x));
        i = i + 1;
    }
    assert(all.take(n as int) =~= all);
    let ghost fin = sorted@;
    let mut out: Vec<T> = Vec::new();
    let mut j: usize = 0;
    let m = sorted.len();
    while j < m
        invariant
            0 <= j <= m,
            m == fin.len(),
            sorted@ == fin.skip(j as int),
            out@ == fin.take(j as int).map_values(|p: (u32, T)| p.1),
        decreases m - j,
    {
        let (_, x) = sorted.remove(0);
        assert(fin.skip(j as int)[0] == fin[j as int]);
        assert(sorted@ =~= fin.skip(j + 1));
        out.push(x);
        assert(fin.take(j + 1).map_values(|p: (u32, T)| p.1) =~= fin.take(j as int).map_values(
            |p: (u32, T)| p.1,
        ).push(fin[j as int].1));
        j = j + 1;
    }
    assert(fin.take(m as int) =~= fin);
    out
}

} // verus!
