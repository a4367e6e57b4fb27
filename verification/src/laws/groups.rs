//! Laws of orders and groups: nothing is lost by sorting, and grouping shares everything out.

use crate::order::{
    group_at, groups_are_inhabited, groups_hold_their_keys, groups_of, larger, lemma_group_at,
    orders_are_strict_weak, placed, ranked_groups, sizes, sorted_texts, stable_order, stable_order_is_sorted,
    text_order, GroupView,
};
use vstd::prelude::*;

verus! {

proof fn lemma_placed_maps<A>(order: Seq<int>, x: int, before: spec_fn(int, int) -> bool, f: spec_fn(int) -> A)
    ensures
        placed(order, x, before).len() == order.len() + 1,
        placed(order, x, before).map_values(f).to_multiset() == order.map_values(f).to_multiset().insert(f(x)),
    decreases order.len(),
{
    broadcast use vstd::seq_lib::group_to_multiset_ensures;

    let now = placed(order, x, before);
    if order.len() == 0 || !before(x, order.last()) {
        assert(now.map_values(f) =~= order.map_values(f).push(f(x)));
    } else {
        let front = order.drop_last();
        lemma_placed_maps(front, x, before, f);
        assert(order.map_values(f) =~= front.map_values(f).push(f(order.last())));
        assert(now.map_values(f) =~= placed(front, x, before).map_values(f).push(f(order.last())));
        assert(now.map_values(f).to_multiset() =~= order.map_values(f).to_multiset().insert(f(x)));
    }
}

/// What stands in a stable order is what there is to order, each thing once.
pub proof fn ordering_loses_nothing<A>(n: nat, before: spec_fn(int, int) -> bool, f: spec_fn(int) -> A)
    ensures
        stable_order(n, before).len() == n,
        stable_order(n, before).map_values(f).to_multiset() == Seq::new(n, f).to_multiset(),
    decreases n,
{
    broadcast use vstd::seq_lib::group_to_multiset_ensures;

    if n == 0 {
        assert(stable_order(n, before).map_values(f) =~= Seq::new(n, f));
    } else {
        let m = (n - 1) as nat;
        ordering_loses_nothing(m, before, f);
        lemma_placed_maps(stable_order(m, before), n - 1, before, f);
        assert(Seq::new(n, f) =~= Seq::new(m, f).push(f(n - 1)));
    }
}

/// Every index below `n` stands in a stable order, and nothing stands there twice.
pub proof fn every_index_is_ordered_once(n: nat, before: spec_fn(int, int) -> bool)
    ensures
        stable_order(n, before).len() == n,
        stable_order(n, before).no_duplicates(),
        forall|x: int| 0 <= x < n <==> #[trigger] stable_order(n, before).contains(x),
{
    broadcast use vstd::seq_lib::group_to_multiset_ensures;

    let order = stable_order(n, before);
    let all = Seq::new(n, |i: int| i);
    ordering_loses_nothing(n, before, |i: int| i);
    assert(order.map_values(|i: int| i) =~= order);
    assert(all.no_duplicates());
    all.lemma_multiset_has_no_duplicates();
    order.lemma_multiset_has_no_duplicates_conv();
    assert forall|x: int| 0 <= x < n <==> #[trigger] order.contains(x) by {
        assert(order.contains(x) <==> order.to_multiset().count(x) > 0);
        assert(all.contains(x) <==> all.to_multiset().count(x) > 0);
        if 0 <= x < n {
            assert(all[x] == x);
        }
    }
}

/// Sorting texts loses none and adds none.
pub proof fn sorting_keeps_every_text(v: Seq<Seq<char>>)
    ensures
        sorted_texts(v).to_multiset() == v.to_multiset(),
{
    let f = |k: int| v[k];
    ordering_loses_nothing(v.len(), text_order(v), f);
    assert(Seq::new(v.len(), f) =~= v);
}

/// How often a key occurs.
pub open spec fn occurrences(keys: Seq<Seq<char>>, key: Seq<char>) -> nat {
    keys.filter(|k: Seq<char>| k == key).len()
}

proof fn lemma_occurs(keys: Seq<Seq<char>>, key: Seq<char>)
    requires
        keys.len() > 0,
    ensures
        occurrences(keys, key) == occurrences(keys.drop_last(), key) + if keys.last() == key {
            1nat
        } else {
            0nat
        },
{
    reveal(Seq::filter);
}

proof fn lemma_absent(keys: Seq<Seq<char>>, key: Seq<char>)
    requires
        !keys.contains(key),
    ensures
        occurrences(keys, key) == 0,
    decreases keys.len(),
{
    reveal(Seq::filter);
    if keys.len() > 0 {
        assert forall|k: int| 0 <= k < keys.drop_last().len() implies keys.drop_last()[k] != key by {
            assert(keys.contains(keys[k]));
        }
        lemma_absent(keys.drop_last(), key);
        assert(keys.contains(keys[keys.len() - 1]));
    }
}

proof fn lemma_groups(keys: Seq<Seq<char>>)
    ensures
        forall|g: int|
            0 <= g < groups_of(keys).len() ==> (#[trigger] groups_of(keys)[g]).members.len() == occurrences(
                keys,
                groups_of(keys)[g].key,
            ),
        forall|g: int, m: int, l: int|
            0 <= g < groups_of(keys).len() && 0 <= m < l < groups_of(keys)[g].members.len() ==> (
            #[trigger] groups_of(keys)[g].members[m]) < #[trigger] groups_of(keys)[g].members[l],
        forall|g: int, h: int|
            0 <= g < h < groups_of(keys).len() ==> (#[trigger] groups_of(keys)[g]).members[0] < (
            #[trigger] groups_of(keys)[h]).members[0],
    decreases keys.len(),
{
    if keys.len() > 0 {
        let front = keys.drop_last();
        let was = groups_of(front);
        let now = groups_of(keys);
        let key = keys.last();
        lemma_groups(front);
        groups_hold_their_keys(front);
        groups_are_inhabited(front);
        lemma_group_at(was, key);
        assert forall|g: int| 0 <= g < now.len() implies (#[trigger] now[g]).members.len() == occurrences(
            keys,
            now[g].key,
        ) by {
            lemma_occurs(keys, now[g].key);
            if g < was.len() {
                assert(was[g].members.len() == occurrences(front, was[g].key));
                assert(now[g].key == was[g].key);
                if let Some(i) = group_at(was, key) {
                    if g < i {
                        assert(was[g].key != was[i].key);
                    } else if i < g {
                        assert(was[i].key != was[g].key);
                    }
                }
            } else {
                assert(!front.contains(key)) by {
                    if front.contains(key) {
                        let x = choose|x: int| 0 <= x < front.len() && front[x] == key;
                        assert(group_at(was, front[x]) is Some);
                    }
                }
                lemma_absent(front, key);
            }
        }
        assert forall|g: int, m: int, l: int| 0 <= g < now.len() && 0 <= m < l < now[g].members.len() implies (
        #[trigger] now[g].members[m]) < #[trigger] now[g].members[l] by {
            if g < was.len() {
                if l < was[g].members.len() {
                    assert(now[g].members[m] == was[g].members[m]);
                    assert(now[g].members[l] == was[g].members[l]);
                } else {
                    assert(now[g].members[m] == was[g].members[m]);
                    let x = was[g].members[m];
                    assert(0 <= x < front.len());
                }
            }
        }
        assert forall|g: int, h: int| 0 <= g < h < now.len() implies (#[trigger] now[g]).members[0] < (
        #[trigger] now[h]).members[0] by {
            assert(was[g].members.len() > 0);
            assert(now[g].members[0] == was[g].members[0]);
            let x = was[g].members[0];
            assert(0 <= x < front.len());
            if h < was.len() {
                assert(was[h].members.len() > 0);
                assert(now[h].members[0] == was[h].members[0]);
                assert(was[g].members[0] < was[h].members[0]);
            }
        }
    }
}

/// Whether groups share out the places of keys: each holds the places of its key and no others,
/// in their order, no two have one key, and every place is in one of them.
pub open spec fn shares_out(groups: Seq<GroupView>, keys: Seq<Seq<char>>) -> bool {
    &&& forall|g: int, m: int|
        0 <= g < groups.len() && 0 <= m < groups[g].members.len() ==> {
            let x = #[trigger] groups[g].members[m];
            0 <= x < keys.len() && keys[x] == groups[g].key
        }
    &&& forall|g: int, m: int, l: int|
        0 <= g < groups.len() && 0 <= m < l < groups[g].members.len() ==> (#[trigger] groups[g].members[m])
            < #[trigger] groups[g].members[l]
    &&& forall|g: int, h: int|
        0 <= g < h < groups.len() ==> (#[trigger] groups[g]).key != (#[trigger] groups[h]).key
    &&& forall|x: int|
        0 <= x < keys.len() ==> exists|g: int|
            0 <= g < groups.len() && (#[trigger] groups[g]).key == #[trigger] keys[x] && groups[g].members.contains(x)
    &&& forall|g: int|
        0 <= g < groups.len() ==> (#[trigger] groups[g]).members.len() == occurrences(keys, groups[g].key)
}

/// Ranking keys shares out their places: every place is in the group of its key, and a group is as
/// large as its key is frequent. The larger group comes first, and of two that are equally large
/// the one whose key occurred first.
pub proof fn ranking_shares_everything_out(keys: Seq<Seq<char>>)
    ensures
        shares_out(ranked_groups(keys), keys),
        forall|g: int| 0 <= g < ranked_groups(keys).len() ==> (#[trigger] ranked_groups(keys)[g]).members.len() > 0,
        forall|g: int, h: int|
            0 <= g < h < ranked_groups(keys).len() ==> {
                let a = (#[trigger] ranked_groups(keys)[g]).members;
                let b = (#[trigger] ranked_groups(keys)[h]).members;
                a.len() > b.len() || (a.len() == b.len() && a[0] < b[0])
            },
{
    let groups = groups_of(keys);
    let counts = sizes(groups);
    let order = stable_order(groups.len(), larger(counts));
    let r = ranked_groups(keys);
    lemma_groups(keys);
    groups_hold_their_keys(keys);
    groups_are_inhabited(keys);
    orders_are_strict_weak(Seq::<Seq<char>>::empty(), counts);
    stable_order_is_sorted(groups.len(), larger(counts));
    every_index_is_ordered_once(groups.len(), larger(counts));
    assert forall|k: int| 0 <= k < r.len() implies 0 <= order[k] < groups.len() && #[trigger] r[k] == groups[order[k]] by {
        assert(order.contains(order[k]));
    }
    assert forall|g: int, m: int| 0 <= g < r.len() && 0 <= m < r[g].members.len() implies {
        let x = #[trigger] r[g].members[m];
        0 <= x < keys.len() && keys[x] == r[g].key
    } by {
        let x = groups[order[g]].members[m];
    }
    assert forall|g: int, m: int, l: int| 0 <= g < r.len() && 0 <= m < l < r[g].members.len() implies (
    #[trigger] r[g].members[m]) < #[trigger] r[g].members[l] by {
        assert(groups[order[g]].members[m] < groups[order[g]].members[l]);
    }
    assert forall|g: int, h: int| 0 <= g < h < r.len() implies (#[trigger] r[g]).key != (#[trigger] r[h]).key by {
        assert(order[g] != order[h]);
        if order[g] < order[h] {
            assert(groups[order[g]].key != groups[order[h]].key);
        } else {
            assert(groups[order[h]].key != groups[order[g]].key);
        }
    }
    assert forall|x: int| 0 <= x < keys.len() implies exists|g: int|
        0 <= g < r.len() && (#[trigger] r[g]).key == #[trigger] keys[x] && r[g].members.contains(x) by {
        let i = group_at(groups, keys[x])->0;
        lemma_group_at(groups, keys[x]);
        assert(order.contains(i));
        let g = choose|g: int| 0 <= g < order.len() && order[g] == i;
        assert(r[g] == groups[i]);
    }
    assert forall|g: int| 0 <= g < r.len() implies (#[trigger] r[g]).members.len() == occurrences(keys, r[g].key) by {
        assert(groups[order[g]].members.len() == occurrences(keys, groups[order[g]].key));
    }
    assert forall|g: int, h: int| 0 <= g < h < r.len() implies {
        let a = (#[trigger] r[g]).members;
        let b = (#[trigger] r[h]).members;
        a.len() > b.len() || (a.len() == b.len() && a[0] < b[0])
    } by {
        assert(larger(counts)(order[g], order[h]) || (!larger(counts)(order[h], order[g]) && order[g] < order[h]));
        if order[g] < order[h] {
            assert(groups[order[g]].members[0] < groups[order[h]].members[0]);
        }
    }
    assert forall|g: int| 0 <= g < r.len() implies (#[trigger] r[g]).members.len() > 0 by {
        assert(groups[order[g]].members.len() > 0);
    }
}

} // verus!
