//! Ordering and grouping: comparison of texts, a stable order by a key, and groups of equal
//! keys in the order of their first appearance.

use crate::text::{chars_of, owned, push_text, texts};
use vstd::prelude::*;

verus! {

/// Whether a text comes strictly before another one, character by character.
pub open spec fn text_before(a: Seq<char>, b: Seq<char>) -> bool
    decreases a.len(),
{
    if b.len() == 0 {
        false
    } else if a.len() == 0 {
        true
    } else if a[0] == b[0] {
        text_before(a.skip(1), b.skip(1))
    } else {
        a[0] < b[0]
    }
}

proof fn lemma_common_prefix(a: Seq<char>, b: Seq<char>, n: int)
    requires
        0 <= n <= a.len(),
        n <= b.len(),
        forall|i: int| 0 <= i < n ==> a[i] == b[i],
    ensures
        text_before(a, b) == text_before(a.skip(n), b.skip(n)),
    decreases n,
{
    if n == 0 {
        assert(a.skip(0) =~= a);
        assert(b.skip(0) =~= b);
    } else {
        lemma_common_prefix(a.skip(1), b.skip(1), n - 1);
        assert(a.skip(1).skip(n - 1) =~= a.skip(n));
        assert(b.skip(1).skip(n - 1) =~= b.skip(n));
    }
}

/// Compares two texts given as characters.
pub fn chars_before(a: &Vec<char>, b: &Vec<char>) -> (r: bool)
    ensures
        r == text_before(a@, b@),
{
    let mut i: usize = 0;
    while i < a.len() && i < b.len() && a[i] == b[i]
        invariant
            i <= a@.len(),
            i <= b@.len(),
            forall|j: int| 0 <= j < i ==> a@[j] == b@[j],
        decreases a@.len() - i,
    {
        i = i + 1;
    }
    proof {
        lemma_common_prefix(a@, b@, i as int);
    }
    if i >= b.len() {
        false
    } else if i >= a.len() {
        true
    } else {
        a[i] < b[i]
    }
}

/// Compares two texts.
pub fn is_before(a: &str, b: &str) -> (r: bool)
    ensures
        r == text_before(a@, b@),
{
    chars_before(&chars_of(a), &chars_of(b))
}

/// No text comes before itself.
pub proof fn text_before_irreflexive(a: Seq<char>)
    ensures
        !text_before(a, a),
    decreases a.len(),
{
    if a.len() > 0 {
        text_before_irreflexive(a.skip(1));
    }
}

/// Of two different texts one comes before the other.
pub proof fn text_before_total(a: Seq<char>, b: Seq<char>)
    requires
        a != b,
    ensures
        text_before(a, b) || text_before(b, a),
    decreases a.len(),
{
    if a.len() > 0 && b.len() > 0 && a[0] == b[0] {
        if a.skip(1) == b.skip(1) {
            assert(a.skip(1).len() == a.len() - 1);
            assert(b.skip(1).len() == b.len() - 1);
            assert forall|i: int| 0 <= i < a.len() implies a[i] == b[i] by {
                if i > 0 {
                    assert(a[i] == a.skip(1)[i - 1]);
                    assert(b[i] == b.skip(1)[i - 1]);
                }
            }
            assert(a =~= b);
        }
        text_before_total(a.skip(1), b.skip(1));
    } else if a.len() == 0 && b.len() == 0 {
        assert(a =~= b);
    }
}

/// The order of texts is transitive.
pub proof fn text_before_transitive(a: Seq<char>, b: Seq<char>, c: Seq<char>)
    requires
        text_before(a, b),
        text_before(b, c),
    ensures
        text_before(a, c),
    decreases a.len(),
{
    if a.len() > 0 && a[0] == b[0] && b[0] == c[0] {
        text_before_transitive(a.skip(1), b.skip(1), c.skip(1));
    }
}

/// Puts `x` into an order that `before` sorts: behind everything that it does not come
/// strictly before.
pub open spec fn placed(order: Seq<int>, x: int, before: spec_fn(int, int) -> bool) -> Seq<int>
    decreases order.len(),
{
    if order.len() == 0 || !before(x, order.last()) {
        order.push(x)
    } else {
        placed(order.drop_last(), x, before).push(order.last())
    }
}

/// The stable order of `0..n` by a strict comparison: what compares equal keeps its place.
pub open spec fn stable_order(n: nat, before: spec_fn(int, int) -> bool) -> Seq<int>
    decreases n,
{
    if n == 0 {
        Seq::<int>::empty()
    } else {
        placed(stable_order((n - 1) as nat, before), n - 1, before)
    }
}

/// Larger counts first.
pub open spec fn larger(counts: Seq<int>) -> spec_fn(int, int) -> bool {
    |i: int, j: int| counts[i] > counts[j]
}

/// Texts in their order.
pub open spec fn text_order(keys: Seq<Seq<char>>) -> spec_fn(int, int) -> bool {
    |i: int, j: int| text_before(keys[i], keys[j])
}

/// Texts in the reverse of their order.
pub open spec fn reverse_text_order(keys: Seq<Seq<char>>) -> spec_fn(int, int) -> bool {
    |i: int, j: int| text_before(keys[j], keys[i])
}

/// Indices as integers.
pub open spec fn ints(v: Seq<usize>) -> Seq<int> {
    v.map_values(|i: usize| i as int)
}

proof fn lemma_placed(order: Seq<int>, x: int, before: spec_fn(int, int) -> bool, at: int)
    requires
        0 <= at <= order.len(),
        forall|j: int| at <= j < order.len() ==> before(x, #[trigger] order[j]),
        at > 0 ==> !before(x, order[at - 1]),
    ensures
        placed(order, x, before) == order.insert(at, x),
    decreases order.len() - at,
{
    if at == order.len() {
        assert(order.insert(at, x) =~= order.push(x));
    } else {
        assert(before(x, order[order.len() - 1]));
        lemma_placed(order.drop_last(), x, before, at);
        assert(order.drop_last().insert(at, x).push(order.last()) =~= order.insert(at, x));
    }
}

/// The stable order of counts, larger ones first.
pub fn order_by_count(counts: &Vec<usize>) -> (r: Vec<usize>)
    ensures
        ints(r@) == stable_order(counts@.len(), larger(ints(counts@))),
        r@.len() == counts@.len(),
        forall|i: int| 0 <= i < r@.len() ==> r@[i] < counts@.len(),
{
    let mut order: Vec<usize> = Vec::new();
    let ghost before = larger(ints(counts@));
    assert(ints(order@) =~= stable_order(0, before));
    for x in 0..counts.len()
        invariant
            before == larger(ints(counts@)),
            order@.len() == x,
            forall|i: int| 0 <= i < order@.len() ==> order@[i] < x,
            ints(order@) == stable_order(x as nat, before),
    {
        let mut at: usize = order.len();
        while at > 0 && counts[x] > counts[order[at - 1]]
            invariant
                at <= order@.len(),
                x < counts@.len(),
                before == larger(ints(counts@)),
                forall|i: int| 0 <= i < order@.len() ==> order@[i] < x,
                forall|j: int| at <= j < order@.len() ==> before(x as int, #[trigger] ints(order@)[j]),
            decreases at,
        {
            at = at - 1;
        }
        proof {
            if at > 0 {
                assert(ints(order@)[at - 1] == order@[at - 1]);
            }
            lemma_placed(ints(order@), x as int, before, at as int);
            assert(ints(order@.insert(at as int, x)) =~= ints(order@).insert(at as int, x as int));
        }
        order.insert(at, x);
    }
    order
}

/// The views of keys given as characters.
pub open spec fn char_lists(v: Seq<Vec<char>>) -> Seq<Seq<char>> {
    v.map_values(|k: Vec<char>| k@)
}

/// The characters of each text.
pub fn all_chars(v: &Vec<String>) -> (r: Vec<Vec<char>>)
    ensures
        char_lists(r@) == texts(v@),
{
    let mut out: Vec<Vec<char>> = Vec::new();
    for i in 0..v.len()
        invariant
            char_lists(out@) == texts(v@).take(i as int),
    {
        let k = chars_of(v[i].as_str());
        let ghost so_far = char_lists(out@);
        out.push(k);
        assert(char_lists(out@) =~= so_far.push(k@));
        assert(texts(v@).take(i as int + 1) =~= texts(v@).take(i as int).push(v@[i as int]@));
    }
    assert(texts(v@).take(v@.len() as int) =~= texts(v@));
    out
}

/// The stable order of texts, or of texts reversed.
pub fn order_by_text(keys: &Vec<String>, reversed: bool) -> (r: Vec<usize>)
    ensures
        ints(r@) == stable_order(
            keys@.len(),
            if reversed {
                reverse_text_order(texts(keys@))
            } else {
                text_order(texts(keys@))
            },
        ),
        r@.len() == keys@.len(),
        forall|i: int| 0 <= i < r@.len() ==> r@[i] < keys@.len(),
{
    let chars = all_chars(keys);
    let mut order: Vec<usize> = Vec::new();
    let ghost before = if reversed {
        reverse_text_order(texts(keys@))
    } else {
        text_order(texts(keys@))
    };
    assert(chars@.len() == char_lists(chars@).len());
    assert(ints(order@) =~= stable_order(0, before));
    for x in 0..chars.len()
        invariant
            chars@.len() == keys@.len(),
            char_lists(chars@) == texts(keys@),
            before == (if reversed {
                reverse_text_order(texts(keys@))
            } else {
                text_order(texts(keys@))
            }),
            order@.len() == x,
            forall|i: int| 0 <= i < order@.len() ==> order@[i] < x,
            ints(order@) == stable_order(x as nat, before),
    {
        let mut at: usize = order.len();
        loop
            invariant_except_break
                forall|j: int| at <= j < order@.len() ==> before(x as int, #[trigger] ints(order@)[j]),
            invariant
                at <= order@.len(),
                x < chars@.len(),
                char_lists(chars@) == texts(keys@),
                before == (if reversed {
                    reverse_text_order(texts(keys@))
                } else {
                    text_order(texts(keys@))
                }),
                forall|i: int| 0 <= i < order@.len() ==> order@[i] < x,
            ensures
                forall|j: int| at <= j < order@.len() ==> before(x as int, #[trigger] ints(order@)[j]),
                at > 0 ==> !before(x as int, ints(order@)[at - 1]),
            decreases at,
        {
            if at == 0 {
                break;
            }
            let y: usize = order[at - 1];
            assert(char_lists(chars@)[x as int] == chars@[x as int]@);
            assert(char_lists(chars@)[y as int] == chars@[y as int]@);
            assert(ints(order@)[at - 1] == y);
            let moves = if reversed {
                chars_before(&chars[y], &chars[x])
            } else {
                chars_before(&chars[x], &chars[y])
            };
            if !moves {
                break;
            }
            at = at - 1;
        }
        proof {
            lemma_placed(ints(order@), x as int, before, at as int);
            assert(ints(order@.insert(at as int, x)) =~= ints(order@).insert(at as int, x as int));
        }
        order.insert(at, x);
    }
    order
}

/// A strict comparison in which "neither comes first" behaves like equality.
pub open spec fn strict_weak(n: nat, before: spec_fn(int, int) -> bool) -> bool {
    &&& forall|i: int| 0 <= i < n ==> !#[trigger] before(i, i)
    &&& forall|i: int, j: int, k: int|
        0 <= i < n && 0 <= j < n && 0 <= k < n && #[trigger] before(i, j) && #[trigger] before(j, k)
            ==> before(i, k)
    &&& forall|i: int, j: int, k: int|
        0 <= i < n && 0 <= j < n && 0 <= k < n && !#[trigger] before(i, j) && !#[trigger] before(
            j,
            k,
        ) ==> !before(i, k)
}

proof fn lemma_placed_members(order: Seq<int>, x: int, before: spec_fn(int, int) -> bool)
    ensures
        placed(order, x, before).len() == order.len() + 1,
        placed(order, x, before).to_multiset() == order.to_multiset().insert(x),
    decreases order.len(),
{
    broadcast use vstd::seq_lib::group_to_multiset_ensures;

    if order.len() == 0 || !before(x, order.last()) {
    } else {
        lemma_placed_members(order.drop_last(), x, before);
        assert(order =~= order.drop_last().push(order.last()));
        assert(placed(order, x, before).to_multiset() =~= order.to_multiset().insert(x));
    }
}

/// The stable order holds every index below `n`, each once.
pub proof fn stable_order_is_permutation(n: nat, before: spec_fn(int, int) -> bool)
    ensures
        stable_order(n, before).len() == n,
        stable_order(n, before).to_multiset() == Seq::new(n, |i: int| i).to_multiset(),
    decreases n,
{
    broadcast use vstd::seq_lib::group_to_multiset_ensures;

    if n > 0 {
        let m = (n - 1) as nat;
        stable_order_is_permutation(m, before);
        lemma_placed_members(stable_order(m, before), n - 1, before);
        assert(Seq::new(n, |i: int| i) =~= Seq::new(m, |i: int| i).push(n - 1));
    } else {
        assert(stable_order(n, before) =~= Seq::new(n, |i: int| i));
    }
}

/// Whether an order is sorted by `before`, with ties in the order of the indices.
pub open spec fn sorted_stably(order: Seq<int>, before: spec_fn(int, int) -> bool) -> bool {
    forall|i: int, j: int|
        0 <= i < j < order.len() ==> before(#[trigger] order[i], #[trigger] order[j]) || (!before(
            order[j],
            order[i],
        ) && order[i] < order[j])
}

/// Whether everything in an order stands rightly in front of `y`.
spec fn leads(order: Seq<int>, y: int, before: spec_fn(int, int) -> bool) -> bool {
    forall|i: int|
        0 <= i < order.len() ==> before(#[trigger] order[i], y) || (!before(y, order[i]) && order[i]
            < y)
}

proof fn lemma_placed_sorted(order: Seq<int>, x: int, before: spec_fn(int, int) -> bool)
    requires
        strict_weak((x + 1) as nat, before),
        x >= 0,
        sorted_stably(order, before),
        forall|i: int| 0 <= i < order.len() ==> 0 <= #[trigger] order[i] < x,
    ensures
        sorted_stably(placed(order, x, before), before),
        forall|i: int|
            0 <= i < placed(order, x, before).len() ==> 0 <= #[trigger] placed(
                order,
                x,
                before,
            )[i] <= x,
        forall|y: int|
            0 <= y < x && before(x, y) && #[trigger] leads(order, y, before) ==> leads(
                placed(order, x, before),
                y,
                before,
            ),
    decreases order.len(),
{
    let p = placed(order, x, before);
    if order.len() == 0 || !before(x, order.last()) {
        assert forall|i: int| 0 <= i < order.len() implies before(#[trigger] p[i], x) || (!before(
            x,
            p[i],
        ) && p[i] < x) by {
            assert(order[i] == p[i]);
            if i < order.len() - 1 {
                let l = order[order.len() - 1];
                assert(before(order[i], l) || !before(l, order[i]));
                assert(0 <= order[i] < x);
                assert(0 <= l < x);
                if before(x, order[i]) && before(order[i], l) {
                    assert(before(x, l));
                }
                if before(x, order[i]) && !before(l, order[i]) {
                    assert(!before(x, l));
                }
            }
        }
    } else {
        let l = order[order.len() - 1];
        let shorter = order.drop_last();
        let q = placed(shorter, x, before);
        assert(leads(shorter, l, before)) by {
            assert forall|i: int| 0 <= i < shorter.len() implies before(#[trigger] shorter[i], l) || (
            !before(l, shorter[i]) && shorter[i] < l) by {
                assert(order[i] == shorter[i]);
            }
        }
        assert(sorted_stably(shorter, before)) by {
            assert forall|i: int, j: int| 0 <= i < j < shorter.len() implies before(
                #[trigger] shorter[i],
                #[trigger] shorter[j],
            ) || (!before(shorter[j], shorter[i]) && shorter[i] < shorter[j]) by {
                assert(order[i] == shorter[i]);
                assert(order[j] == shorter[j]);
            }
        }
        assert forall|i: int| 0 <= i < shorter.len() implies 0 <= #[trigger] shorter[i] < x by {
            assert(order[i] == shorter[i]);
        }
        lemma_placed_sorted(shorter, x, before);
        assert(p == q.push(l));
        assert(leads(q, l, before));
        assert forall|y: int| 0 <= y < x && before(x, y) && #[trigger] leads(
            order,
            y,
            before,
        ) implies leads(p, y, before) by {
            assert(leads(shorter, y, before)) by {
                assert forall|i: int| 0 <= i < shorter.len() implies before(
                    #[trigger] shorter[i],
                    y,
                ) || (!before(y, shorter[i]) && shorter[i] < y) by {
                    assert(order[i] == shorter[i]);
                }
            }
            assert(before(order[order.len() - 1], y) || (!before(y, order[order.len() - 1])
                && order[order.len() - 1] < y));
        }
    }
}

/// By a strict comparison the stable order is sorted, and what compares equal stays in the
/// order it was in.
pub proof fn stable_order_is_sorted(n: nat, before: spec_fn(int, int) -> bool)
    requires
        strict_weak(n, before),
    ensures
        sorted_stably(stable_order(n, before), before),
        forall|i: int|
            0 <= i < stable_order(n, before).len() ==> 0 <= #[trigger] stable_order(n, before)[i] < n,
    decreases n,
{
    if n > 0 {
        stable_order_is_sorted((n - 1) as nat, before);
        lemma_placed_sorted(stable_order((n - 1) as nat, before), n - 1, before);
    }
}

/// A key and the places where it stands.
#[verifier::ext_equal]
pub struct GroupView {
    pub key: Seq<char>,
    pub members: Seq<int>,
}

/// Where a key's group stands.
pub open spec fn group_at(groups: Seq<GroupView>, key: Seq<char>) -> Option<int>
    decreases groups.len(),
{
    if groups.len() == 0 {
        None
    } else {
        match group_at(groups.drop_last(), key) {
            Some(i) => Some(i),
            None => if groups.last().key == key {
                Some(groups.len() - 1)
            } else {
                None
            },
        }
    }
}

/// Adds the place `x` of a key to the groups.
pub open spec fn with_member(groups: Seq<GroupView>, key: Seq<char>, x: int) -> Seq<GroupView> {
    match group_at(groups, key) {
        Some(i) => groups.update(
            i,
            GroupView { key: groups[i].key, members: groups[i].members.push(x) },
        ),
        None => groups.push(GroupView { key, members: seq![x] }),
    }
}

/// The groups of equal keys, in the order in which each key first appears.
pub open spec fn groups_of(keys: Seq<Seq<char>>) -> Seq<GroupView>
    decreases keys.len(),
{
    if keys.len() == 0 {
        Seq::<GroupView>::empty()
    } else {
        with_member(groups_of(keys.drop_last()), keys.last(), keys.len() - 1)
    }
}

/// Equal keys: the key and the places where it stands.
pub struct Group {
    pub key: String,
    pub members: Vec<usize>,
}

impl View for Group {
    type V = GroupView;

    open spec fn view(&self) -> GroupView {
        GroupView { key: self.key@, members: ints(self.members@) }
    }
}

/// The views of groups.
pub open spec fn group_views(v: Seq<Group>) -> Seq<GroupView> {
    v.map_values(|g: Group| g@)
}

fn find_group(groups: &Vec<Group>, key: &str) -> (r: Option<usize>)
    ensures
        match r {
            Some(i) => i < groups@.len() && group_at(group_views(groups@), key@) == Some(i as int),
            None => group_at(group_views(groups@), key@) is None,
        },
{
    let ghost all = group_views(groups@);
    for i in 0..groups.len()
        invariant
            all == group_views(groups@),
            group_at(all.take(i as int), key@) is None,
    {
        assert(all.take(i as int + 1).drop_last() =~= all.take(i as int));
        assert(all[i as int] == groups@[i as int]@);
        if *groups[i].key.as_str() == *key {
            proof {
                lemma_group_at_stays(all, key@, i as int + 1);
            }
            return Some(i);
        }
    }
    assert(all.take(groups@.len() as int) =~= all);
    None
}

proof fn lemma_group_at_stays(groups: Seq<GroupView>, key: Seq<char>, n: int)
    requires
        0 <= n <= groups.len(),
        group_at(groups.take(n), key) is Some,
    ensures
        group_at(groups, key) == group_at(groups.take(n), key),
    decreases groups.len(),
{
    if n < groups.len() {
        assert(groups.drop_last().take(n) =~= groups.take(n));
        lemma_group_at_stays(groups.drop_last(), key, n);
    } else {
        assert(groups.take(n) =~= groups);
    }
}

/// The group that is found for a key has that key, and where none is found no group has it.
pub proof fn lemma_group_at(groups: Seq<GroupView>, key: Seq<char>)
    ensures
        match group_at(groups, key) {
            Some(i) => 0 <= i < groups.len() && groups[i].key == key,
            None => forall|i: int| 0 <= i < groups.len() ==> (#[trigger] groups[i]).key != key,
        },
    decreases groups.len(),
{
    if groups.len() > 0 {
        lemma_group_at(groups.drop_last(), key);
        assert forall|i: int| 0 <= i < groups.len() - 1 implies groups[i] == groups.drop_last()[i] by {}
    }
}

/// Whether every group has members, all of them places below `n`.
pub open spec fn members_below(groups: Seq<GroupView>, n: int) -> bool {
    forall|g: int|
        0 <= g < groups.len() ==> (#[trigger] groups[g]).members.len() > 0 && forall|m: int|
            0 <= m < groups[g].members.len() ==> 0 <= #[trigger] groups[g].members[m] < n
}

/// Every group has members, all of them places of keys.
pub proof fn groups_are_inhabited(keys: Seq<Seq<char>>)
    ensures
        members_below(groups_of(keys), keys.len() as int),
    decreases keys.len(),
{
    if keys.len() > 0 {
        groups_are_inhabited(keys.drop_last());
        let old_groups = groups_of(keys.drop_last());
        lemma_group_at(old_groups, keys.last());
        let new_groups = groups_of(keys);
        assert forall|g: int| 0 <= g < new_groups.len() implies (#[trigger] new_groups[g]).members.len() > 0 && forall|m: int|
            0 <= m < new_groups[g].members.len() ==> 0 <= #[trigger] new_groups[g].members[m] < keys.len() by {
            if g < old_groups.len() {
                assert(old_groups[g].members.len() > 0);
            }
        }
    }
}

/// Groups equal keys in the order of their first appearance.
pub fn group_keys(keys: &Vec<String>) -> (r: Vec<Group>)
    ensures
        group_views(r@) == groups_of(texts(keys@)),
        members_below(group_views(r@), keys@.len() as int),
{
    let mut groups: Vec<Group> = Vec::new();
    let ghost all = texts(keys@);
    assert(group_views(groups@) =~= groups_of(all.take(0)));
    for x in 0..keys.len()
        invariant
            all == texts(keys@),
            group_views(groups@) == groups_of(all.take(x as int)),
    {
        assert(all.take(x as int + 1).drop_last() =~= all.take(x as int));
        assert(all[x as int] == keys@[x as int]@);
        let ghost before = group_views(groups@);
        match find_group(&groups, keys[x].as_str()) {
            Some(i) => {
                let mut g = groups.remove(i);
                assert(g@ == before[i as int]);
                let ghost m0 = g.members@;
                g.members.push(x);
                assert(ints(g.members@) =~= ints(m0).push(x as int));
                groups.insert(i, g);
                assert(group_views(groups@) =~= with_member(before, all[x as int], x as int));
            },
            None => {
                let mut members: Vec<usize> = Vec::new();
                members.push(x);
                assert(ints(members@) =~= seq![x as int]);
                groups.push(Group { key: owned(keys[x].as_str()), members });
                assert(group_views(groups@) =~= with_member(before, all[x as int], x as int));
            },
        }
    }
    assert(all.take(keys@.len() as int) =~= all);
    proof {
        groups_are_inhabited(all);
    }
    groups
}

/// The sizes of groups.
pub open spec fn sizes(groups: Seq<GroupView>) -> Seq<int> {
    groups.map_values(|g: GroupView| g.members.len() as int)
}

/// The groups of equal keys, larger ones first; groups of one size stay in the order in which
/// their keys first appear.
pub open spec fn ranked_groups(keys: Seq<Seq<char>>) -> Seq<GroupView> {
    let groups = groups_of(keys);
    stable_order(groups.len(), larger(sizes(groups))).map_values(|k: int| groups[k])
}

fn copy_group(g: &Group) -> (r: Group)
    ensures
        r@ == g@,
{
    let mut members: Vec<usize> = Vec::new();
    for i in 0..g.members.len()
        invariant
            members@ == g.members@.take(i as int),
    {
        members.push(g.members[i]);
        assert(members@ =~= g.members@.take(i as int + 1));
    }
    assert(members@ =~= g.members@);
    Group { key: owned(g.key.as_str()), members }
}

/// Groups equal keys, larger groups first.
pub fn rank_keys(keys: &Vec<String>) -> (r: Vec<Group>)
    ensures
        group_views(r@) == ranked_groups(texts(keys@)),
        members_below(group_views(r@), keys@.len() as int),
{
    let groups = group_keys(keys);
    let ghost all = group_views(groups@);
    let mut counts: Vec<usize> = Vec::new();
    for i in 0..groups.len()
        invariant
            all == group_views(groups@),
            ints(counts@) == sizes(all).take(i as int),
    {
        let ghost so_far = ints(counts@);
        assert(all[i as int] == groups@[i as int]@);
        counts.push(groups[i].members.len());
        assert(ints(counts@) =~= so_far.push(groups@[i as int].members@.len() as int));
        assert(sizes(all).take(i as int + 1) =~= so_far.push(sizes(all)[i as int]));
    }
    assert(sizes(all).take(groups@.len() as int) =~= sizes(all));
    assert(counts@.len() == ints(counts@).len());
    let order = order_by_count(&counts);
    let mut out: Vec<Group> = Vec::new();
    let ghost ranked = ranked_groups(texts(keys@));
    assert(ranked.len() == order@.len()) by {
        assert(ints(order@).len() == order@.len());
    }
    for i in 0..order.len()
        invariant
            all == group_views(groups@),
            ranked == ranked_groups(texts(keys@)),
            all == groups_of(texts(keys@)),
            ranked.len() == order@.len(),
            ints(order@) == stable_order(all.len(), larger(sizes(all))),
            forall|k: int| 0 <= k < order@.len() ==> order@[k] < groups@.len(),
            group_views(out@) == ranked.take(i as int),
            members_below(all, keys@.len() as int),
            members_below(group_views(out@), keys@.len() as int),
    {
        let ghost so_far = group_views(out@);
        let k: usize = order[i];
        assert(ints(order@)[i as int] == k);
        assert(all[k as int] == groups@[k as int]@);
        let g = copy_group(&groups[k]);
        out.push(g);
        assert(group_views(out@) =~= so_far.push(all[k as int]));
        assert(ranked.take(i as int + 1) =~= so_far.push(ranked[i as int]));
    }
    assert(ranked.take(order@.len() as int) =~= ranked);
    out
}

/// Every place of a key is in exactly the group of that key, and a group holds nothing else.
pub proof fn groups_hold_their_keys(keys: Seq<Seq<char>>)
    ensures
        forall|g: int, m: int|
            0 <= g < groups_of(keys).len() && 0 <= m < groups_of(keys)[g].members.len() ==> {
                let x = #[trigger] groups_of(keys)[g].members[m];
                0 <= x < keys.len() && keys[x] == groups_of(keys)[g].key
            },
        forall|g: int, h: int|
            0 <= g < h < groups_of(keys).len() ==> (#[trigger] groups_of(keys)[g]).key != (
            #[trigger] groups_of(keys)[h]).key,
        forall|x: int|
            0 <= x < keys.len() ==> group_at(groups_of(keys), #[trigger] keys[x]) is Some && (
            groups_of(keys)[group_at(groups_of(keys), keys[x])->0]).members.contains(x),
    decreases keys.len(),
{
    if keys.len() > 0 {
        let front = keys.drop_last();
        groups_hold_their_keys(front);
        let was = groups_of(front);
        let now = groups_of(keys);
        let n = keys.len() - 1;
        lemma_group_at(was, keys.last());
        assert forall|g: int, m: int|
            0 <= g < now.len() && 0 <= m < now[g].members.len() implies {
            let x = #[trigger] now[g].members[m];
            0 <= x < keys.len() && keys[x] == now[g].key
        } by {
            if g < was.len() && m < was[g].members.len() {
                assert(now[g].members[m] == was[g].members[m]);
                let x = was[g].members[m];
                assert(front[x] == was[g].key);
            }
        }
        assert forall|g: int, h: int| 0 <= g < h < now.len() implies (#[trigger] now[g]).key != (
        #[trigger] now[h]).key by {
            assert(now[g].key == was[g].key);
            if h < was.len() {
                assert(now[h].key == was[h].key);
                assert(was[g].key != was[h].key);
            }
        }
        assert forall|x: int| 0 <= x < keys.len() implies group_at(now, #[trigger] keys[x]) is Some && (
        now[group_at(now, keys[x])->0]).members.contains(x) by {
            lemma_group_at(now, keys[x]);
            if x < n {
                assert(front[x] == keys[x]);
                let g = group_at(was, keys[x])->0;
                lemma_group_at(was, keys[x]);
                assert(was[g].members.contains(x));
                let m = choose|m: int| 0 <= m < was[g].members.len() && was[g].members[m] == x;
                assert(now[g].members[m] == x);
                assert(now[g].key == keys[x]);
                let h = group_at(now, keys[x])->0;
                assert(now[h].key == keys[x]);
                if h < g {
                    assert(now[h].key != now[g].key);
                } else if g < h {
                    assert(now[g].key != now[h].key);
                }
            } else {
                match group_at(was, keys.last()) {
                    Some(g) => {
                        assert(now[g].members.last() == n);
                        assert(now[g].key == keys[x]);
                        let h = group_at(now, keys[x])->0;
                        if h < g {
                            assert(now[h].key != now[g].key);
                        } else if g < h {
                            assert(now[g].key != now[h].key);
                        }
                        assert(now[g].members[now[g].members.len() - 1] == x);
                    },
                    None => {
                        let g = was.len() as int;
                        assert(now[g].key == keys[x]);
                        let h = group_at(now, keys[x])->0;
                        if h < g {
                            assert(now[h].key != now[g].key);
                        }
                        assert(now[g].members[0] == x);
                    },
                }
            }
        }
    }
}

proof fn lemma_not_before(a: Seq<char>, b: Seq<char>, c: Seq<char>)
    requires
        !text_before(a, b),
        !text_before(b, c),
    ensures
        !text_before(a, c),
{
    if text_before(a, c) {
        if a == b {
        } else {
            text_before_total(a, b);
            text_before_transitive(b, a, c);
        }
    }
}

/// The orders by text, up or down, and the order by size are such that a stable sort sorts by them.
pub proof fn orders_are_strict_weak(v: Seq<Seq<char>>, counts: Seq<int>)
    ensures
        strict_weak(v.len(), text_order(v)),
        strict_weak(v.len(), reverse_text_order(v)),
        strict_weak(counts.len(), larger(counts)),
{
    let before = text_order(v);
    let after = reverse_text_order(v);
    let n = v.len();
    assert forall|i: int| 0 <= i < n implies !#[trigger] before(i, i) by {
        text_before_irreflexive(v[i]);
    }
    assert forall|i: int| 0 <= i < n implies !#[trigger] after(i, i) by {
        text_before_irreflexive(v[i]);
    }
    assert forall|i: int, j: int, k: int|
        0 <= i < n && 0 <= j < n && 0 <= k < n && #[trigger] before(i, j) && #[trigger] before(
            j,
            k,
        ) implies before(i, k) by {
        text_before_transitive(v[i], v[j], v[k]);
    }
    assert forall|i: int, j: int, k: int|
        0 <= i < n && 0 <= j < n && 0 <= k < n && #[trigger] after(i, j) && #[trigger] after(
            j,
            k,
        ) implies after(i, k) by {
        text_before_transitive(v[k], v[j], v[i]);
    }
    assert forall|i: int, j: int, k: int|
        0 <= i < n && 0 <= j < n && 0 <= k < n && !#[trigger] before(i, j) && !#[trigger] before(
            j,
            k,
        ) implies !before(i, k) by {
        lemma_not_before(v[i], v[j], v[k]);
    }
    assert forall|i: int, j: int, k: int|
        0 <= i < n && 0 <= j < n && 0 <= k < n && !#[trigger] after(i, j) && !#[trigger] after(
            j,
            k,
        ) implies !after(i, k) by {
        lemma_not_before(v[k], v[j], v[i]);
    }
}

/// Texts in ascending order.
pub open spec fn sorted_texts(v: Seq<Seq<char>>) -> Seq<Seq<char>> {
    stable_order(v.len(), text_order(v)).map_values(|k: int| v[k])
}

/// Sorts texts.
pub fn sort_texts(v: &Vec<String>) -> (r: Vec<String>)
    ensures
        texts(r@) == sorted_texts(texts(v@)),
{
    let ghost all = texts(v@);
    let order = order_by_text(v, false);
    let ghost whole = sorted_texts(all);
    let mut out: Vec<String> = Vec::new();
    assert(ints(order@).len() == order@.len());
    for i in 0..order.len()
        invariant
            all == texts(v@),
            ints(order@) == stable_order(all.len(), text_order(all)),
            whole == sorted_texts(all),
            whole.len() == order@.len(),
            forall|k: int| 0 <= k < order@.len() ==> order@[k] < v@.len(),
            texts(out@) == whole.take(i as int),
    {
        let ghost so_far = texts(out@);
        assert(ints(order@)[i as int] == order@[i as int]);
        push_text(&mut out, owned(v[order[i]].as_str()));
        assert(whole.take(i as int + 1) =~= so_far.push(whole[i as int]));
    }
    assert(whole.take(order@.len() as int) =~= whole);
    out
}

/// Sorting texts keeps their number, and puts none before one that it should follow.
pub proof fn sorted_texts_are_in_order(v: Seq<Seq<char>>)
    ensures
        sorted_texts(v).len() == v.len(),
        forall|i: int, j: int|
            0 <= i < j < v.len() ==> !text_before(#[trigger] sorted_texts(v)[j], #[trigger] sorted_texts(v)[i]),
{
    let before = text_order(v);
    orders_are_strict_weak(v, Seq::empty());
    stable_order_is_permutation(v.len(), before);
    stable_order_is_sorted(v.len(), before);
    let order = stable_order(v.len(), before);
    assert forall|i: int, j: int| 0 <= i < j < v.len() implies !text_before(
        #[trigger] sorted_texts(v)[j],
        #[trigger] sorted_texts(v)[i],
    ) by {
        assert(0 <= order[i] < v.len() && 0 <= order[j] < v.len());
        if before(order[j], order[i]) {
            assert(before(order[i], order[j]));
            assert(before(order[j], order[j]));
        }
    }
}

/// The sum of numbers.
pub open spec fn sum_of(v: Seq<int>) -> int
    decreases v.len(),
{
    if v.len() == 0 {
        0
    } else {
        sum_of(v.drop_last()) + v.last()
    }
}

proof fn lemma_sum_update(v: Seq<int>, at: int, x: int)
    requires
        0 <= at < v.len(),
    ensures
        sum_of(v.update(at, x)) == sum_of(v) - v[at] + x,
    decreases v.len(),
{
    if at == v.len() - 1 {
        assert(v.update(at, x).drop_last() =~= v.drop_last());
    } else {
        assert(v.update(at, x).drop_last() =~= v.drop_last().update(at, x));
        lemma_sum_update(v.drop_last(), at, x);
    }
}

/// Every key is counted in exactly one group: the sizes of the groups add up to the number of
/// keys.
pub proof fn groups_count_every_key(keys: Seq<Seq<char>>)
    ensures
        sum_of(sizes(groups_of(keys))) == keys.len(),
    decreases keys.len(),
{
    if keys.len() == 0 {
        assert(sizes(groups_of(keys)).len() == 0);
    } else {
        let was = groups_of(keys.drop_last());
        let now = groups_of(keys);
        groups_count_every_key(keys.drop_last());
        lemma_group_at(was, keys.last());
        match group_at(was, keys.last()) {
            Some(g) => {
                assert(sizes(now) =~= sizes(was).update(g, sizes(was)[g] + 1));
                lemma_sum_update(sizes(was), g, sizes(was)[g] + 1);
            },
            None => {
                assert(sizes(now) =~= sizes(was).push(1));
                assert(sizes(was).push(1).drop_last() =~= sizes(was));
            },
        }
    }
}

/// Ranked groups stand with the larger ones first.
pub proof fn larger_groups_come_first(keys: Seq<Seq<char>>)
    ensures
        ranked_groups(keys).len() == groups_of(keys).len(),
        forall|i: int, j: int|
            0 <= i < j < ranked_groups(keys).len() ==> (#[trigger] ranked_groups(keys)[i]).members.len() >= (
            #[trigger] ranked_groups(keys)[j]).members.len(),
{
    let groups = groups_of(keys);
    let counts = sizes(groups);
    orders_are_strict_weak(Seq::empty(), counts);
    stable_order_is_permutation(groups.len(), larger(counts));
    stable_order_is_sorted(groups.len(), larger(counts));
    let order = stable_order(groups.len(), larger(counts));
    assert forall|i: int, j: int| 0 <= i < j < ranked_groups(keys).len() implies (
    #[trigger] ranked_groups(keys)[i]).members.len() >= (#[trigger] ranked_groups(keys)[j]).members.len() by {
        assert(0 <= order[i] < groups.len() && 0 <= order[j] < groups.len());
        assert(counts[order[i]] == groups[order[i]].members.len());
        assert(counts[order[j]] == groups[order[j]].members.len());
    }
}

} // verus!
