use vstd::prelude::*;

verus! {

/// A key and a value, as the specifications see them.
pub type Entry = (Seq<char>, Seq<char>);

/// The abstract view of a list of string pairs.
pub open spec fn pairs(v: Seq<(String, String)>) -> Seq<Entry> {
    v.map_values(|p: (String, String)| (p.0@, p.1@))
}

/// The keys of a list of pairs, in order.
pub open spec fn keys(m: Seq<Entry>) -> Seq<Seq<char>> {
    m.map_values(|p: Entry| p.0)
}

/// No key occurs twice: the list is an ordered mapping.
pub open spec fn keys_unique(m: Seq<Entry>) -> bool {
    forall|i: int, j: int| 0 <= i < j < m.len() ==> m[i].0 != m[j].0
}

/// The value of the last entry with key `k`, if any.
pub open spec fn lookup(m: Seq<Entry>, k: Seq<char>) -> Option<Seq<char>>
    decreases m.len(),
{
    if m.len() == 0 {
        None
    } else if m.last().0 == k {
        Some(m.last().1)
    } else {
        lookup(m.drop_last(), k)
    }
}

/// Sets `k` to `v`: an existing key keeps its place, a new key goes last.
pub open spec fn assign(m: Seq<Entry>, k: Seq<char>, v: Seq<char>) -> Seq<Entry> {
    if exists|i: int| 0 <= i < m.len() && m[i].0 == k {
        let i = choose|i: int| 0 <= i < m.len() && m[i].0 == k;
        m.update(i, (k, v))
    } else {
        m.push((k, v))
    }
}

/// Folds `entries` into the mapping `m`, one after the other; a later entry wins.
pub open spec fn merge_onto(m: Seq<Entry>, entries: Seq<Entry>) -> Seq<Entry>
    decreases entries.len(),
{
    if entries.len() == 0 {
        m
    } else {
        let prev = merge_onto(m, entries.drop_last());
        assign(prev, entries.last().0, entries.last().1)
    }
}

/// The mapping made of three layers, folded in order: global, quest, caller.
pub open spec fn merge_layers(global: Seq<Entry>, quest: Seq<Entry>, cli: Seq<Entry>) -> Seq<
    Entry,
> {
    merge_onto(merge_onto(merge_onto(Seq::empty(), global), quest), cli)
}

/// Each key of `ks` at its first occurrence, in order.
pub open spec fn first_seen(ks: Seq<Seq<char>>) -> Seq<Seq<char>>
    decreases ks.len(),
{
    if ks.len() == 0 {
        ks
    } else {
        let prev = first_seen(ks.drop_last());
        if prev.contains(ks.last()) {
            prev
        } else {
            prev.push(ks.last())
        }
    }
}

proof fn lemma_assign(m: Seq<Entry>, k: Seq<char>, v: Seq<char>)
    requires
        keys_unique(m),
    ensures
        keys_unique(assign(m, k, v)),
        forall|k2: Seq<char>| #[trigger]
            lookup(assign(m, k, v), k2) == if k2 == k {
                Some(v)
            } else {
                lookup(m, k2)
            },
        keys(assign(m, k, v)) == if keys(m).contains(k) {
            keys(m)
        } else {
            keys(m).push(k)
        },
{
    if exists|i: int| 0 <= i < m.len() && m[i].0 == k {
        let i = choose|i: int| 0 <= i < m.len() && m[i].0 == k;
        let r = m.update(i, (k, v));
        assert(keys(r) =~= keys(m));
        assert(keys(m)[i] == k);
        assert forall|k2: Seq<char>| #[trigger] lookup(r, k2) == if k2 == k {
            Some(v)
        } else {
            lookup(m, k2)
        } by {
            lemma_lookup_update(m, i, k, v, k2);
        }
    } else {
        let r = m.push((k, v));
        assert(r.drop_last() =~= m);
        assert(keys(r) =~= keys(m).push(k));
        assert(!keys(m).contains(k)) by {
            if keys(m).contains(k) {
                let j = choose|j: int| 0 <= j < keys(m).len() && keys(m)[j] == k;
                assert(m[j].0 == k);
            }
        }
    }
}

proof fn lemma_lookup_update(m: Seq<Entry>, i: int, k: Seq<char>, v: Seq<char>, k2: Seq<char>)
    requires
        keys_unique(m),
        0 <= i < m.len(),
        m[i].0 == k,
    ensures
        lookup(m.update(i, (k, v)), k2) == if k2 == k {
            Some(v)
        } else {
            lookup(m, k2)
        },
    decreases m.len(),
{
    let r = m.update(i, (k, v));
    if i == m.len() - 1 {
        assert(r.drop_last() =~= m.drop_last());
    } else {
        assert(r.drop_last() =~= m.drop_last().update(i, (k, v)));
        lemma_lookup_update(m.drop_last(), i, k, v, k2);
    }
}

proof fn lemma_merge_onto(m: Seq<Entry>, ks: Seq<Seq<char>>, e: Seq<Entry>)
    requires
        keys_unique(m),
        keys(m) == first_seen(ks),
    ensures
        keys_unique(merge_onto(m, e)),
        keys(merge_onto(m, e)) == first_seen(ks + keys(e)),
        forall|k: Seq<char>| #[trigger]
            lookup(merge_onto(m, e), k) == match lookup(e, k) {
                Some(v) => Some(v),
                None => lookup(m, k),
            },
    decreases e.len(),
{
    if e.len() == 0 {
        assert(ks + keys(e) =~= ks);
    } else {
        let d = e.drop_last();
        lemma_merge_onto(m, ks, d);
        let prev = merge_onto(m, d);
        lemma_assign(prev, e.last().0, e.last().1);
        assert((ks + keys(e)).drop_last() =~= ks + keys(d));
        assert((ks + keys(e)).last() == e.last().0);
    }
}

/// A key of the three-layer merge takes the caller's value if the caller gave
/// one, else the quest's, else the global one; within a layer the last entry wins.
pub proof fn lemma_layer_precedence(
    global: Seq<Entry>,
    quest: Seq<Entry>,
    cli: Seq<Entry>,
    k: Seq<char>,
)
    ensures
        lookup(merge_layers(global, quest, cli), k) == match lookup(cli, k) {
            Some(v) => Some(v),
            None => match lookup(quest, k) {
                Some(v) => Some(v),
                None => lookup(global, k),
            },
        },
{
    lemma_layers(global, quest, cli);
}

/// The merged mapping lists each key once, at the place where it was first seen
/// across the global, quest and caller layers.
pub proof fn lemma_layer_order(global: Seq<Entry>, quest: Seq<Entry>, cli: Seq<Entry>)
    ensures
        keys_unique(merge_layers(global, quest, cli)),
        keys(merge_layers(global, quest, cli)) == first_seen(
            keys(global) + keys(quest) + keys(cli),
        ),
{
    lemma_layers(global, quest, cli);
}

proof fn lemma_layers(global: Seq<Entry>, quest: Seq<Entry>, cli: Seq<Entry>)
    ensures
        keys_unique(merge_layers(global, quest, cli)),
        keys(merge_layers(global, quest, cli)) == first_seen(
            keys(global) + keys(quest) + keys(cli),
        ),
        forall|k: Seq<char>| #[trigger]
            lookup(merge_layers(global, quest, cli), k) == match lookup(cli, k) {
                Some(v) => Some(v),
                None => match lookup(quest, k) {
                    Some(v) => Some(v),
                    None => lookup(global, k),
                },
            },
{
    let e: Seq<Entry> = Seq::empty();
    let ks: Seq<Seq<char>> = Seq::empty();
    assert(keys(e) =~= first_seen(ks));
    lemma_merge_onto(e, ks, global);
    assert(ks + keys(global) =~= keys(global));
    let m1 = merge_onto(e, global);
    lemma_merge_onto(m1, keys(global), quest);
    let m2 = merge_onto(m1, quest);
    lemma_merge_onto(m2, keys(global) + keys(quest), cli);
    assert forall|k: Seq<char>| #[trigger] lookup(e, k) == None::<Seq<char>> by {}
}

/// Sets `k` to `v` in the ordered mapping `m`.
pub fn assign_entry(m: &mut Vec<(String, String)>, k: String, v: String)
    requires
        keys_unique(pairs(old(m)@)),
    ensures
        pairs(final(m)@) == assign(pairs(old(m)@), k@, v@),
        keys_unique(pairs(final(m)@)),
{
    proof {
        lemma_assign(pairs(m@), k@, v@);
    }
    let ghost pm = pairs(m@);
    let mut i: usize = 0;
    while i < m.len()
        invariant
            i <= m.len(),
            pairs(m@) == pm,
            pm == pairs(old(m)@),
            keys_unique(pm),
            forall|j: int| 0 <= j < i ==> pm[j].0 != k@,
        decreases m.len() - i,
    {
        if m[i].0 == k {
            let ghost kv = k@;
            let ghost vv = v@;
            assert(0 <= i < pm.len() && pm[i as int].0 == kv);
            let ghost c = choose|c: int| 0 <= c < pm.len() && pm[c].0 == kv;
            assert(c == i);
            assert(assign(pm, kv, vv) == pm.update(i as int, (kv, vv)));
            m.set(i, (k, v));
            assert(pairs(m@) =~= pm.update(i as int, (kv, vv)));
            return;
        }
        i = i + 1;
    }
    m.push((k, v));
    assert(pairs(m@) =~= pm.push((k@, v@)));
}

/// Folds `entries` into the ordered mapping `m`, in order.
pub fn merge_into(m: &mut Vec<(String, String)>, entries: Vec<(String, String)>)
    requires
        keys_unique(pairs(old(m)@)),
    ensures
        pairs(final(m)@) == merge_onto(pairs(old(m)@), pairs(entries@)),
        keys_unique(pairs(final(m)@)),
{
    let ghost start = pairs(m@);
    let ghost pe = pairs(entries@);
    let mut i: usize = 0;
    while i < entries.len()
        invariant
            i <= entries.len(),
            pe == pairs(entries@),
            keys_unique(pairs(m@)),
            start == pairs(old(m)@),
            pairs(m@) == merge_onto(start, pe.take(i as int)),
        decreases entries.len() - i,
    {
        assert(pe.take(i + 1).drop_last() =~= pe.take(i as int));
        let k = entries[i].0.clone();
        let v = entries[i].1.clone();
        assign_entry(m, k, v);
        i = i + 1;
    }
    assert(pe.take(i as int) =~= pe);
}

} // verus!
