//! Lists of named entries used as maps from names to values: no name occurs
//! twice, and inserting under a present name replaces its value.
use vstd::prelude::*;
use crate::text::str_eq;

verus! {

/// The models of named entries.
pub open spec fn pairs_view<V: View>(e: Seq<(String, V)>) -> Seq<(Seq<char>, V::V)> {
    Seq::new(e.len(), |i: int| (e[i].0@, e[i].1@))
}

/// No name occurs twice.
pub open spec fn names_distinct<V>(e: Seq<(Seq<char>, V)>) -> bool {
    forall|i: int, j: int| 0 <= i < j < e.len() ==> e[i].0 != e[j].0
}

/// The map that named entries stand for.
pub open spec fn entries_map<V>(e: Seq<(Seq<char>, V)>) -> Map<Seq<char>, V>
    decreases e.len(),
{
    if e.len() == 0 {
        Map::empty()
    } else {
        entries_map(e.drop_last()).insert(e.last().0, e.last().1)
    }
}

/// The map after inserting each entry in turn.
pub open spec fn insert_all<V>(m: Map<Seq<char>, V>, e: Seq<(Seq<char>, V)>) -> Map<Seq<char>, V>
    decreases e.len(),
{
    if e.len() == 0 {
        m
    } else {
        insert_all(m, e.drop_last()).insert(e.last().0, e.last().1)
    }
}

pub proof fn lemma_entries_map_dom<V>(e: Seq<(Seq<char>, V)>)
    ensures
        forall|k: Seq<char>| #[trigger] entries_map(e).contains_key(k) <==> exists|i: int| 0 <= i < e.len() && e[i].0 == k,
        entries_map(e).dom().finite(),
    decreases e.len(),
{
    if e.len() > 0 {
        lemma_entries_map_dom(e.drop_last());
        assert forall|k: Seq<char>| #[trigger] entries_map(e).contains_key(k) <==> exists|i: int| 0 <= i < e.len() && e[i].0 == k by {
            if entries_map(e).contains_key(k) && k != e.last().0 {
                let i = choose|i: int| 0 <= i < e.len() - 1 && e.drop_last()[i].0 == k;
                assert(e[i] == e.drop_last()[i]);
            }
            if exists|i: int| 0 <= i < e.len() && e[i].0 == k {
                let i = choose|i: int| 0 <= i < e.len() && e[i].0 == k;
                if i < e.len() - 1 {
                    assert(e.drop_last()[i] == e[i]);
                }
            }
        }
    }
}

/// With distinct names, the entry at `i` gives the map's value for its name.
pub proof fn lemma_entries_map_at<V>(e: Seq<(Seq<char>, V)>, i: int)
    requires
        names_distinct(e),
        0 <= i < e.len(),
    ensures
        entries_map(e).contains_key(e[i].0),
        entries_map(e)[e[i].0] == e[i].1,
    decreases e.len(),
{
    if i < e.len() - 1 {
        lemma_entries_map_at(e.drop_last(), i);
        assert(e.drop_last()[i] == e[i]);
    }
}

pub proof fn lemma_entries_map_update<V>(e: Seq<(Seq<char>, V)>, i: int, k: Seq<char>, v: V)
    requires
        names_distinct(e),
        0 <= i < e.len(),
        e[i].0 == k,
    ensures
        entries_map(e.update(i, (k, v))) == entries_map(e).insert(k, v),
        names_distinct(e.update(i, (k, v))),
    decreases e.len(),
{
    let u = e.update(i, (k, v));
    if i == e.len() - 1 {
        assert(u.drop_last() =~= e.drop_last());
        assert(entries_map(e.drop_last()).insert(k, v) =~= entries_map(e.drop_last()).insert(k, e[i].1).insert(k, v));
    } else {
        assert(u.drop_last() =~= e.drop_last().update(i, (k, v)));
        lemma_entries_map_update(e.drop_last(), i, k, v);
        assert(e.last().0 != k);
        assert(entries_map(u) =~= entries_map(e).insert(k, v));
    }
    assert forall|a: int, b: int| 0 <= a < b < u.len() implies u[a].0 != u[b].0 by {
        assert(u[a].0 == e[a].0 && u[b].0 == e[b].0);
    }
}

/// Inserting entries one by one gives the union in which the entries win.
pub proof fn lemma_insert_all_union<V>(m: Map<Seq<char>, V>, e: Seq<(Seq<char>, V)>)
    ensures
        insert_all(m, e) == m.union_prefer_right(entries_map(e)),
    decreases e.len(),
{
    if e.len() == 0 {
        assert(m.union_prefer_right(Map::empty()) =~= m);
    } else {
        lemma_insert_all_union(m, e.drop_last());
        assert(insert_all(m, e) =~= m.union_prefer_right(entries_map(e)));
    }
}

/// Finds the position of the entry named `k`.
pub fn find_entry<V: View>(e: &Vec<(String, V)>, k: &str) -> (r: Option<usize>)
    ensures
        r matches Some(i) ==> i < e@.len() && e@[i as int].0@ == k@,
        r is None ==> forall|i: int| 0 <= i < e@.len() ==> e@[i].0@ != k@,
{
    let mut i: usize = 0;
    while i < e.len()
        invariant
            i <= e@.len(),
            forall|j: int| 0 <= j < i ==> e@[j].0@ != k@,
        decreases e.len() - i,
    {
        if str_eq(e[i].0.as_str(), k) {
            return Some(i);
        }
        i = i + 1;
    }
    None
}

/// Inserts `v` under the name `k`, replacing the value of an entry so named.
pub fn put_entry<V: View>(e: &mut Vec<(String, V)>, k: String, v: V)
    requires
        names_distinct(pairs_view(old(e)@)),
    ensures
        names_distinct(pairs_view(final(e)@)),
        entries_map(pairs_view(final(e)@)) == entries_map(pairs_view(old(e)@)).insert(k@, v@),
{
    let ghost p0 = pairs_view(e@);
    let ghost kv = (k@, v@);
    match find_entry(e, k.as_str()) {
        Some(i) => {
            e.set(i, (k, v));
            proof {
                assert(pairs_view(e@) =~= p0.update(i as int, kv));
                lemma_entries_map_update(p0, i as int, kv.0, kv.1);
            }
        },
        None => {
            e.push((k, v));
            proof {
                let p1 = pairs_view(e@);
                assert(p1 =~= p0.push(kv));
                assert(p1.drop_last() =~= p0);
                assert forall|a: int, b: int| 0 <= a < b < p1.len() implies p1[a].0 != p1[b].0 by {
                    if b < p0.len() {
                        assert(p1[a] == p0[a] && p1[b] == p0[b]);
                    } else {
                        assert(p1[a] == p0[a]);
                    }
                }
            }
        },
    }
}

/// Inserts each entry of `from`, in order, into `into`.
pub fn put_all<V: View>(into: &mut Vec<(String, V)>, from: Vec<(String, V)>)
    requires
        names_distinct(pairs_view(old(into)@)),
    ensures
        names_distinct(pairs_view(final(into)@)),
        entries_map(pairs_view(final(into)@)) == insert_all(entries_map(pairs_view(old(into)@)), pairs_view(from@)),
{
    let ghost m0 = entries_map(pairs_view(into@));
    let ghost f = pairs_view(from@);
    let ghost n = f.len();
    let mut rest = from;
    let total = rest.len();
    let mut i: usize = 0;
    while rest.len() > 0
        invariant
            n == f.len(),
            n == total,
            rest@.len() + i == n,
            pairs_view(rest@) == f.subrange(i as int, n as int),
            names_distinct(pairs_view(into@)),
            entries_map(pairs_view(into@)) == insert_all(m0, f.subrange(0, i as int)),
        decreases rest@.len(),
    {
        let ghost r0 = rest@;
        let (k, v) = rest.remove(0);
        proof {
            assert(pairs_view(r0)[0] == (k@, v@));
            assert(f[i as int] == (k@, v@));
            assert(rest@ =~= r0.subrange(1, r0.len() as int));
            assert forall|j: int| 0 <= j < rest@.len() implies pairs_view(rest@)[j] == f.subrange(i as int + 1, n as int)[j] by {
                assert(rest@[j] == r0[j + 1]);
                assert(pairs_view(r0)[j + 1] == f.subrange(i as int, n as int)[j + 1]);
            }
            assert(pairs_view(rest@) =~= f.subrange(i as int + 1, n as int));
            assert(f.subrange(0, i as int + 1).drop_last() =~= f.subrange(0, i as int));
            assert(f.subrange(0, i as int + 1).last() == f[i as int]);
        }
        put_entry(&mut *into, k, v);
        i = i + 1;
    }
    assert(f.subrange(0, n as int) =~= f);
}

} // verus!
