//! Tables: texts under names, in the order of the names.

use crate::order::{is_before, text_before};
use crate::text::{owned, pairs};
use vstd::prelude::*;

verus! {

/// A table with a text put under a name, in place of the one that stood there.
pub open spec fn with_entry(
    s: Seq<(Seq<char>, Seq<char>)>,
    name: Seq<char>,
    value: Seq<char>,
) -> Seq<(Seq<char>, Seq<char>)>
    decreases s.len(),
{
    if s.len() == 0 {
        seq![(name, value)]
    } else if s.last().0 == name {
        s.drop_last().push((name, value))
    } else if text_before(s.last().0, name) {
        s.push((name, value))
    } else {
        with_entry(s.drop_last(), name, value).push(s.last())
    }
}

/// The text under a name.
pub open spec fn entry_at(s: Seq<(Seq<char>, Seq<char>)>, name: Seq<char>) -> Option<Seq<char>>
    decreases s.len(),
{
    if s.len() == 0 {
        None
    } else if s.last().0 == name {
        Some(s.last().1)
    } else {
        entry_at(s.drop_last(), name)
    }
}

/// Whether names are in ascending order, each once.
pub open spec fn in_order(s: Seq<(Seq<char>, Seq<char>)>) -> bool {
    forall|i: int, j: int| 0 <= i < j < s.len() ==> text_before(#[trigger] s[i].0, #[trigger] s[j].0)
}

/// A table holds under a name what was put there last, and under every other name what it held.
pub proof fn entry_is_what_was_put(
    s: Seq<(Seq<char>, Seq<char>)>,
    name: Seq<char>,
    value: Seq<char>,
    other: Seq<char>,
)
    ensures
        entry_at(with_entry(s, name, value), other) == if other == name {
            Some(value)
        } else {
            entry_at(s, other)
        },
    decreases s.len(),
{
    if s.len() == 0 {
        let t = seq![(name, value)];
        assert(t.last() == (name, value));
        assert(t.drop_last() =~= Seq::<(Seq<char>, Seq<char>)>::empty());
        assert(entry_at(t.drop_last(), other) is None);
    } else if s.last().0 == name {
        assert(s.drop_last().push((name, value)).drop_last() =~= s.drop_last());
    } else if text_before(s.last().0, name) {
        assert(s.push((name, value)).drop_last() =~= s);
    } else {
        entry_is_what_was_put(s.drop_last(), name, value, other);
        let w = with_entry(s.drop_last(), name, value);
        assert(w.push(s.last()).drop_last() =~= w);
    }
}

proof fn lemma_with_entry_below(
    s: Seq<(Seq<char>, Seq<char>)>,
    name: Seq<char>,
    value: Seq<char>,
    limit: Seq<char>,
)
    requires
        text_before(name, limit),
        forall|i: int| 0 <= i < s.len() ==> text_before((#[trigger] s[i]).0, limit),
    ensures
        forall|i: int|
            0 <= i < with_entry(s, name, value).len() ==> text_before(
                (#[trigger] with_entry(s, name, value)[i]).0,
                limit,
            ),
    decreases s.len(),
{
    if s.len() > 0 && s.last().0 != name && !text_before(s.last().0, name) {
        assert forall|i: int| 0 <= i < s.drop_last().len() implies text_before(
            (#[trigger] s.drop_last()[i]).0,
            limit,
        ) by {
            assert(s.drop_last()[i] == s[i]);
        }
        lemma_with_entry_below(s.drop_last(), name, value, limit);
        assert(text_before(s[s.len() - 1].0, limit));
        let inner = with_entry(s.drop_last(), name, value);
        assert forall|i: int| 0 <= i < with_entry(s, name, value).len() implies text_before(
            (#[trigger] with_entry(s, name, value)[i]).0,
            limit,
        ) by {
            if i < inner.len() {
                assert(text_before(inner[i].0, limit));
            }
        }
    } else if s.len() > 0 {
        assert forall|i: int| 0 <= i < with_entry(s, name, value).len() implies text_before(
            (#[trigger] with_entry(s, name, value)[i]).0,
            limit,
        ) by {
            if i < s.len() {
                assert(text_before(s[i].0, limit));
            }
        }
    }
}

/// Putting a text under a name keeps the names in order, each once.
pub proof fn names_stay_in_order(s: Seq<(Seq<char>, Seq<char>)>, name: Seq<char>, value: Seq<char>)
    requires
        in_order(s),
    ensures
        in_order(with_entry(s, name, value)),
    decreases s.len(),
{
    let w = with_entry(s, name, value);
    if s.len() > 0 {
        let front = s.drop_last();
        assert forall|i: int, j: int| 0 <= i < j < front.len() implies text_before(
            #[trigger] front[i].0,
            #[trigger] front[j].0,
        ) by {
            assert(text_before(s[i].0, s[j].0));
        }
        if s.last().0 == name {
            assert forall|i: int, j: int| 0 <= i < j < w.len() implies text_before(
                #[trigger] w[i].0,
                #[trigger] w[j].0,
            ) by {
                assert(text_before(s[i].0, s[j].0));
            }
        } else if text_before(s.last().0, name) {
            assert forall|i: int, j: int| 0 <= i < j < w.len() implies text_before(
                #[trigger] w[i].0,
                #[trigger] w[j].0,
            ) by {
                if j < s.len() {
                    assert(text_before(s[i].0, s[j].0));
                } else if i < s.len() - 1 {
                    assert(text_before(s[i].0, s[s.len() - 1].0));
                    crate::order::text_before_transitive(s[i].0, s.last().0, name);
                }
            }
        } else {
            names_stay_in_order(front, name, value);
            crate::order::text_before_total(s.last().0, name);
            assert forall|i: int| 0 <= i < front.len() implies text_before((#[trigger] front[i]).0, s.last().0) by {
                assert(text_before(s[i].0, s[s.len() - 1].0));
            }
            lemma_with_entry_below(front, name, value, s.last().0);
            let inner = with_entry(front, name, value);
            assert forall|i: int, j: int| 0 <= i < j < w.len() implies text_before(
                #[trigger] w[i].0,
                #[trigger] w[j].0,
            ) by {
                if j < inner.len() {
                    assert(text_before(inner[i].0, inner[j].0));
                } else {
                    assert(text_before(inner[i].0, s.last().0));
                }
            }
        }
    }
}

proof fn lemma_with_entry(
    s: Seq<(Seq<char>, Seq<char>)>,
    name: Seq<char>,
    value: Seq<char>,
    at: int,
)
    requires
        0 <= at <= s.len(),
        forall|j: int| at <= j < s.len() ==> (#[trigger] s[j]).0 != name && !text_before(s[j].0, name),
        at > 0 ==> s[at - 1].0 == name || text_before(s[at - 1].0, name),
    ensures
        with_entry(s, name, value) == if at > 0 && s[at - 1].0 == name {
            s.update(at - 1, (name, value))
        } else {
            s.insert(at, (name, value))
        },
    decreases s.len() - at,
{
    if at == s.len() {
        if s.len() == 0 {
            assert(with_entry(s, name, value) =~= s.insert(at, (name, value)));
        } else if s.last().0 == name {
            assert(with_entry(s, name, value) =~= s.update(at - 1, (name, value)));
        } else {
            assert(with_entry(s, name, value) =~= s.insert(at, (name, value)));
        }
    } else {
        assert(s[s.len() - 1].0 != name);
        assert forall|j: int| at <= j < s.drop_last().len() implies (#[trigger] s.drop_last()[j]).0 != name
            && !text_before(s.drop_last()[j].0, name) by {
            assert(s.drop_last()[j] == s[j]);
        }
        lemma_with_entry(s.drop_last(), name, value, at);
        if at > 0 && s[at - 1].0 == name {
            assert(with_entry(s, name, value) =~= s.update(at - 1, (name, value)));
        } else {
            assert(with_entry(s, name, value) =~= s.insert(at, (name, value)));
        }
    }
}

/// Texts under names, in the order of the names.
pub struct Table {
    pub entries: Vec<(String, String)>,
}

impl View for Table {
    type V = Seq<(Seq<char>, Seq<char>)>;

    open spec fn view(&self) -> Seq<(Seq<char>, Seq<char>)> {
        pairs(self.entries@)
    }
}

impl Table {
    /// Whether the names are in order, each once.
    pub open spec fn wf(&self) -> bool {
        in_order(self@)
    }

    /// A table with nothing in it.
    pub fn new() -> (r: Table)
        ensures
            r@ == Seq::<(Seq<char>, Seq<char>)>::empty(),
            r.wf(),
    {
        let t = Table { entries: Vec::new() };
        assert(t@ =~= Seq::<(Seq<char>, Seq<char>)>::empty());
        t
    }

    /// Puts a text under a name.
    pub fn insert(&mut self, name: &str, value: &str)
        ensures
            final(self)@ == with_entry(old(self)@, name@, value@),
            old(self).wf() ==> final(self).wf(),
    {
        let ghost was = self@;
        let mut at: usize = self.entries.len();
        while at > 0 && !(*self.entries[at - 1].0.as_str() == *name) && !is_before(
            self.entries[at - 1].0.as_str(),
            name,
        )
            invariant
                was == pairs(self.entries@),
                self@ == old(self)@,
                was == self@,
                at <= self.entries@.len(),
                forall|j: int|
                    at <= j < was.len() ==> (#[trigger] was[j]).0 != name@ && !text_before(was[j].0, name@),
            decreases at,
        {
            assert(was[at - 1] == (self.entries@[at - 1].0@, self.entries@[at - 1].1@));
            at = at - 1;
        }
        proof {
            if at > 0 {
                assert(was[at - 1] == (self.entries@[at - 1].0@, self.entries@[at - 1].1@));
            }
            lemma_with_entry(was, name@, value@, at as int);
            if in_order(was) {
                names_stay_in_order(was, name@, value@);
            }
        }
        if at > 0 && *self.entries[at - 1].0.as_str() == *name {
            self.entries.set(at - 1, (owned(name), owned(value)));
            assert(pairs(self.entries@) =~= was.update(at - 1, (name@, value@)));
        } else {
            self.entries.insert(at, (owned(name), owned(value)));
            assert(pairs(self.entries@) =~= was.insert(at as int, (name@, value@)));
        }
    }

    /// Finds the text under a name.
    pub fn get(&self, name: &str) -> (r: Option<String>)
        ensures
            crate::text::opt_text(r) == entry_at(self@, name@),
    {
        let ghost all = self@;
        let mut at: usize = self.entries.len();
        assert(all.take(at as int) =~= all);
        while at > 0
            invariant
                all == pairs(self.entries@),
                at <= self.entries@.len(),
                entry_at(all, name@) == entry_at(all.take(at as int), name@),
            decreases at,
        {
            assert(all[at - 1] == (self.entries@[at - 1].0@, self.entries@[at - 1].1@));
            assert(all.take(at as int).last() == all[at - 1]);
            assert(all.take(at as int).drop_last() =~= all.take(at - 1));
            if *self.entries[at - 1].0.as_str() == *name {
                return Some(owned(self.entries[at - 1].1.as_str()));
            }
            at = at - 1;
        }
        None
    }

    /// Whether there is a text under a name.
    pub fn contains_key(&self, name: &str) -> (r: bool)
        ensures
            r == entry_at(self@, name@) is Some,
    {
        self.get(name).is_some()
    }

    /// A copy of the table.
    pub fn copy(&self) -> (r: Table)
        ensures
            r@ == self@,
            self.wf() ==> r.wf(),
    {
        let ghost all = self@;
        let mut entries: Vec<(String, String)> = Vec::new();
        for i in 0..self.entries.len()
            invariant
                all == pairs(self.entries@),
                pairs(entries@) == all.take(i as int),
        {
            let ghost so_far = pairs(entries@);
            let e = &self.entries[i];
            crate::text::push_pair(&mut entries, e.0.as_str(), e.1.as_str());
            assert(all.take(i as int + 1) =~= so_far.push(all[i as int]));
        }
        assert(all.take(self.entries@.len() as int) =~= all);
        Table { entries }
    }
}

/// A table with the entries of another put into it.
pub open spec fn with_all(
    s: Seq<(Seq<char>, Seq<char>)>,
    more: Seq<(Seq<char>, Seq<char>)>,
) -> Seq<(Seq<char>, Seq<char>)>
    decreases more.len(),
{
    if more.len() == 0 {
        s
    } else {
        with_entry(with_all(s, more.drop_last()), more.last().0, more.last().1)
    }
}

/// A table with the entries of another put into it holds what the other holds, and what it held
/// under the names that the other does not have.
pub proof fn later_table_wins(
    s: Seq<(Seq<char>, Seq<char>)>,
    more: Seq<(Seq<char>, Seq<char>)>,
    name: Seq<char>,
)
    ensures
        entry_at(with_all(s, more), name) == match entry_at(more, name) {
            Some(v) => Some(v),
            None => entry_at(s, name),
        },
    decreases more.len(),
{
    if more.len() > 0 {
        later_table_wins(s, more.drop_last(), name);
        entry_is_what_was_put(with_all(s, more.drop_last()), more.last().0, more.last().1, name);
    }
}

impl Table {
    /// Puts the entries of a list into the table.
    pub fn extend(&mut self, more: &Vec<(String, String)>)
        ensures
            final(self)@ == with_all(old(self)@, pairs(more@)),
            old(self).wf() ==> final(self).wf(),
    {
        let ghost all = pairs(more@);
        let ghost was = self@;
        assert(with_all(was, all.take(0)) =~= was);
        for i in 0..more.len()
            invariant
                all == pairs(more@),
                was == old(self)@,
                self@ == with_all(was, all.take(i as int)),
                old(self).wf() ==> self.wf(),
        {
            assert(all.take(i as int + 1).drop_last() =~= all.take(i as int));
            assert(all.take(i as int + 1).last() == (more@[i as int].0@, more@[i as int].1@));
            self.insert(more[i].0.as_str(), more[i].1.as_str());
        }
        assert(all.take(more@.len() as int) =~= all);
    }
}

} // verus!
