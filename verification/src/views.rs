//! Looking at records: filters, counts, clusters, and the views that print them.

pub mod listing;
pub mod shape;
pub mod summary;

use crate::cli::{Filter, FilterView};
use crate::json::{
    fields, first_field_counts, json_int, json_printed, member, object, print_json, push_field, size_value, str_at, str_value, Json, JsonView,
};
use crate::order::{group_views, ints, is_before, rank_keys, ranked_groups, text_before, Group, GroupView};
use crate::patterns::{regex_matches, Pattern};
use crate::record::{one_line, push_record, records, signature, Record, RecordView, Scrubber};
use crate::text::{
    begins, contains, contains_text, cut_back, has_text, holds, lowercase, opt_str, opt_text, owned, push_text, split,
    split_at, starts_with, texts, to_lowercase, to_uppercase, trim, trim_back, trimmed, uppercase, CharSet,
};
use vstd::prelude::*;

verus! {

/// What a view gives: lines to print, a JSON value to print, or the reason why there is nothing.
pub enum Output {
    Lines(Vec<String>),
    Value(Json),
    Failure(String),
}

/// The model of what a view gives.
#[verifier::ext_equal]
pub enum OutputView {
    Lines(Seq<Seq<char>>),
    Value(JsonView),
    Failure(Seq<char>),
}

impl View for Output {
    type V = OutputView;

    open spec fn view(&self) -> OutputView {
        match self {
            Output::Lines(v) => OutputView::Lines(texts(v@)),
            Output::Value(j) => OutputView::Value(j@),
            Output::Failure(s) => OutputView::Failure(s@),
        }
    }
}

/// The lines that are printed of what a view gives, or the reason why there are none.
pub open spec fn rendered(o: OutputView) -> Result<Seq<Seq<char>>, Seq<char>> {
    match o {
        OutputView::Lines(v) => Ok(v),
        OutputView::Value(j) => Ok(seq![json_printed(j)]),
        OutputView::Failure(e) => Err(e),
    }
}

/// Renders what a view gives as the lines that are printed.
pub fn render(o: Output) -> (r: Result<Vec<String>, String>)
    ensures
        match r {
            Ok(v) => rendered(o@) == Ok::<Seq<Seq<char>>, Seq<char>>(texts(v@)),
            Err(e) => rendered(o@) == Err::<Seq<Seq<char>>, Seq<char>>(e@),
        },
{
    match o {
        Output::Lines(v) => Ok(v),
        Output::Value(j) => {
            let s = print_json(&j);
            let ghost whole = s@;
            let mut v: Vec<String> = Vec::new();
            push_text(&mut v, s);
            assert(texts(v@) =~= seq![whole]);
            Ok(v)
        },
        Output::Failure(e) => Err(e),
    }
}

/// Whether a text contains another in any case, where the other is given.
pub open spec fn holds_any_case(s: Seq<char>, what: Option<Seq<char>>) -> bool {
    what matches Some(w) ==> holds(lowercase(s), lowercase(w))
}

/// Whether a filter keeps a record. The bounds on its time are prefixes of timestamps: a time
/// that begins with a bound is at that bound.
pub open spec fn keeps(f: FilterView, r: RecordView) -> bool {
    &&& holds_any_case(r.service, f.service)
    &&& holds_any_case(r.logger, f.logger)
    &&& holds_any_case(r.msg, f.matching) || holds_any_case(r.stack, f.matching)
    &&& f.after matches Some(a) ==> r.ts.len() > 0 && !text_before(r.ts, a)
    &&& f.before matches Some(b) ==> r.ts.len() > 0 && (!text_before(b, r.ts) || begins(r.ts, b))
}

fn within(s: &str, what: &Option<String>) -> (r: bool)
    ensures
        r == holds_any_case(s@, opt_text(*what)),
{
    match what {
        Some(w) => contains(to_lowercase(s).as_str(), to_lowercase(w.as_str()).as_str()),
        None => true,
    }
}

fn keep(f: &Filter, r: &Record) -> (b: bool)
    ensures
        b == keeps(f@, r@),
{
    if !within(r.service.as_str(), &f.service) || !within(r.logger.as_str(), &f.logger) {
        return false;
    }
    if !within(r.msg.as_str(), &f.match_) && !within(r.stack.as_str(), &f.match_) {
        return false;
    }
    if let Some(a) = &f.after {
        if r.ts.as_str().is_empty() || is_before(r.ts.as_str(), a.as_str()) {
            return false;
        }
    }
    if let Some(b) = &f.before {
        if r.ts.as_str().is_empty() || (is_before(b.as_str(), r.ts.as_str()) && !starts_with(
            r.ts.as_str(),
            b.as_str(),
        )) {
            return false;
        }
    }
    true
}

proof fn lemma_prefix_is_not_after(s: Seq<char>, prefix: Seq<char>)
    requires
        begins(s, prefix),
    ensures
        !text_before(s, prefix),
    decreases prefix.len(),
{
    if prefix.len() > 0 {
        assert(s.subrange(0, prefix.len() as int)[0] == prefix[0]);
        assert(s.skip(1).subrange(0, prefix.len() - 1) =~= s.subrange(0, prefix.len() as int).skip(1));
        lemma_prefix_is_not_after(s.skip(1), prefix.skip(1));
    }
}

/// Both bounds on the time of a record take in what they name: a record whose timestamp begins
/// with a bound is at that bound, and stays.
pub proof fn bounds_are_inclusive(bound: Seq<char>, r: RecordView)
    requires
        r.ts.len() > 0,
        begins(r.ts, bound),
    ensures
        keeps(
            FilterView { service: None, logger: None, matching: None, after: Some(bound), before: None },
            r,
        ),
        keeps(
            FilterView { service: None, logger: None, matching: None, after: None, before: Some(bound) },
            r,
        ),
{
    lemma_prefix_is_not_after(r.ts, bound);
}

/// Keeps the records that pass a filter, in their order.
pub fn apply_filter(recs: Vec<Record>, f: &Filter) -> (r: Vec<Record>)
    ensures
        records(r@) == records(recs@).filter(|x: RecordView| keeps(f@, x)),
        r@.len() <= recs@.len(),
{
    let ghost all = records(recs@);
    let ghost test = |x: RecordView| keeps(f@, x);
    let mut out: Vec<Record> = Vec::new();
    proof {
        reveal(Seq::filter);
        assert(records(out@) =~= all.take(0).filter(test));
    }
    for i in 0..recs.len()
        invariant
            all == records(recs@),
            test == (|x: RecordView| keeps(f@, x)),
            records(out@) == all.take(i as int).filter(test),
            out@.len() <= i,
    {
        proof {
            reveal(Seq::filter);
            assert(all.take(i as int + 1).drop_last() =~= all.take(i as int));
            assert(all.take(i as int + 1).last() == recs@[i as int]@);
        }
        if keep(f, &recs[i]) {
            push_record(&mut out, recs[i].copy());
        }
    }
    assert(all.take(recs@.len() as int) =~= all);
    out
}

/// Which records a view looks at.
pub enum Want<'a> {
    /// every record
    All,
    /// errors and warnings
    Alarm,
    /// one of these levels
    Levels(&'a Vec<String>),
    /// a trace whose identifier begins so
    Trace(&'a str),
    /// message or stack matches
    Match(&'a Pattern),
}

/// The model of which records a view looks at.
pub enum WantView {
    All,
    Alarm,
    Levels(Seq<Seq<char>>),
    Trace(Seq<char>),
    Match { pattern: Seq<char>, any_case: bool },
}

impl<'a> View for Want<'a> {
    type V = WantView;

    open spec fn view(&self) -> WantView {
        match self {
            Want::All => WantView::All,
            Want::Alarm => WantView::Alarm,
            Want::Levels(l) => WantView::Levels(texts(l@)),
            Want::Trace(t) => WantView::Trace(t@),
            Want::Match(p) => WantView::Match { pattern: p.source(), any_case: p.ignores_case() },
        }
    }
}

/// What a regular expression is matched against: the message and the stack on lines of their own.
pub open spec fn searched(r: RecordView) -> Seq<char> {
    r.msg + "\n"@ + r.stack
}

/// Whether a record is wanted.
pub open spec fn accepts(w: WantView, r: RecordView) -> bool {
    match w {
        WantView::All => true,
        WantView::Alarm => r.level == "ERROR"@ || r.level == "WARN"@ || r.level == "FATAL"@,
        WantView::Levels(l) => has_text(l, r.level),
        WantView::Trace(t) => r.trace.len() > 0 && begins(r.trace, t),
        WantView::Match { pattern, any_case } => regex_matches(pattern, any_case, searched(r)).len() > 0,
    }
}

impl<'a> Want<'a> {
    /// Whether a record is wanted.
    pub fn takes(&self, r: &Record) -> (b: bool)
        ensures
            b == accepts(self@, r@),
    {
        match self {
            Want::All => true,
            Want::Alarm => *r.level.as_str() == *"ERROR" || *r.level.as_str() == *"WARN"
                || *r.level.as_str() == *"FATAL",
            Want::Levels(l) => contains_text(l, r.level.as_str()),
            Want::Trace(t) => !r.trace.as_str().is_empty() && starts_with(r.trace.as_str(), t),
            Want::Match(p) => {
                let mut s = owned(r.msg.as_str());
                s.append("\n");
                s.append(r.stack.as_str());
                p.is_match(s.as_str())
            },
        }
    }
}

/// The places of the wanted records.
pub open spec fn picks(recs: Seq<RecordView>, w: WantView) -> Seq<int>
    decreases recs.len(),
{
    if recs.len() == 0 {
        Seq::<int>::empty()
    } else if accepts(w, recs.last()) {
        picks(recs.drop_last(), w).push(recs.len() - 1)
    } else {
        picks(recs.drop_last(), w)
    }
}

/// The places of the wanted records are in order, and are all the places of wanted records.
pub proof fn picks_are_the_wanted(recs: Seq<RecordView>, w: WantView)
    ensures
        forall|k: int|
            0 <= k < picks(recs, w).len() ==> 0 <= #[trigger] picks(recs, w)[k] < recs.len() && accepts(
                w,
                recs[picks(recs, w)[k]],
            ),
        forall|k: int, l: int|
            0 <= k < l < picks(recs, w).len() ==> #[trigger] picks(recs, w)[k] < #[trigger] picks(recs, w)[l],
        forall|i: int| 0 <= i < recs.len() && accepts(w, #[trigger] recs[i]) ==> picks(recs, w).contains(i),
    decreases recs.len(),
{
    if recs.len() > 0 {
        let front = recs.drop_last();
        picks_are_the_wanted(front, w);
        assert forall|k: int| 0 <= k < picks(recs, w).len() implies 0 <= #[trigger] picks(recs, w)[k]
            < recs.len() && accepts(w, recs[picks(recs, w)[k]]) by {
            if k < picks(front, w).len() {
                assert(picks(front, w)[k] == picks(recs, w)[k]);
                assert(front[picks(front, w)[k]] == recs[picks(front, w)[k]]);
            }
        }
        assert forall|k: int, l: int| 0 <= k < l < picks(recs, w).len() implies #[trigger] picks(recs, w)[k]
            < #[trigger] picks(recs, w)[l] by {
            assert(picks(front, w)[k] == picks(recs, w)[k]);
            if l < picks(front, w).len() {
                assert(picks(front, w)[l] == picks(recs, w)[l]);
            }
        }
        assert forall|i: int| 0 <= i < recs.len() && accepts(w, #[trigger] recs[i]) implies picks(
            recs,
            w,
        ).contains(i) by {
            if i < front.len() {
                assert(front[i] == recs[i]);
                assert(picks(front, w).contains(i));
                let k = choose|k: int| 0 <= k < picks(front, w).len() && picks(front, w)[k] == i;
                assert(picks(recs, w)[k] == i);
            } else {
                assert(picks(recs, w)[picks(recs, w).len() - 1] == i);
            }
        }
    }
}

proof fn lemma_picks_grow(recs: Seq<RecordView>, w: WantView, n: int)
    requires
        0 <= n <= recs.len(),
    ensures
        picks(recs.take(n), w).len() <= picks(recs, w).len(),
        picks(recs.take(n), w) == picks(recs, w).take(picks(recs.take(n), w).len() as int),
    decreases recs.len() - n,
{
    if n < recs.len() {
        lemma_picks_grow(recs, w, n + 1);
        assert(recs.take(n + 1).drop_last() =~= recs.take(n));
        let a = picks(recs.take(n), w);
        let b = picks(recs.take(n + 1), w);
        assert(a =~= b.take(a.len() as int));
        assert(a =~= picks(recs, w).take(a.len() as int));
    } else {
        assert(recs.take(n) =~= recs);
        assert(picks(recs, w) =~= picks(recs, w).take(picks(recs, w).len() as int));
    }
}

/// The first places of a list.
pub open spec fn first_places(places: Seq<int>, cap: int) -> Seq<int> {
    places.take(if places.len() <= cap {
        places.len() as int
    } else {
        cap
    })
}

/// Finds the places of the first `cap` wanted records.
pub fn pick(recs: &[Record], want: &Want, cap: usize) -> (r: Vec<usize>)
    requires
        cap > 0,
    ensures
        ints(r@) == first_places(picks(records(recs@), want@), cap as int),
        r@.len() == ints(r@).len(),
        forall|k: int| 0 <= k < r@.len() ==> r@[k] < recs@.len(),
{
    let ghost all = records(recs@);
    let mut out: Vec<usize> = Vec::new();
    assert(ints(out@) =~= picks(all.take(0), want@));
    for i in 0..recs.len()
        invariant
            all == records(recs@),
            ints(out@) == picks(all.take(i as int), want@),
            out@.len() < cap,
            forall|k: int| 0 <= k < out@.len() ==> out@[k] < i,
    {
        assert(all.take(i as int + 1).drop_last() =~= all.take(i as int));
        assert(all.take(i as int + 1).last() == recs@[i as int]@);
        if want.takes(&recs[i]) {
            let ghost so_far = ints(out@);
            out.push(i);
            assert(ints(out@) =~= so_far.push(i as int));
            if out.len() >= cap {
                proof {
                    lemma_picks_grow(all, want@, i as int + 1);
                }
                assert(ints(out@).len() == out@.len());
                return out;
            }
        }
    }
    assert(all.take(recs@.len() as int) =~= all);
    assert(ints(out@).len() == out@.len());
    assert(ints(out@) =~= first_places(picks(all, want@), cap as int));
    out
}

/// Finds the places of the wanted records.
pub fn pick_all(recs: &[Record], want: &Want) -> (r: Vec<usize>)
    ensures
        ints(r@) == picks(records(recs@), want@),
        r@.len() == ints(r@).len(),
        forall|k: int| 0 <= k < r@.len() ==> r@[k] < recs@.len(),
{
    let ghost all = records(recs@);
    let mut out: Vec<usize> = Vec::new();
    assert(ints(out@) =~= picks(all.take(0), want@));
    for i in 0..recs.len()
        invariant
            all == records(recs@),
            ints(out@) == picks(all.take(i as int), want@),
            forall|k: int| 0 <= k < out@.len() ==> out@[k] < i,
    {
        assert(all.take(i as int + 1).drop_last() =~= all.take(i as int));
        assert(all.take(i as int + 1).last() == recs@[i as int]@);
        if want.takes(&recs[i]) {
            let ghost so_far = ints(out@);
            out.push(i);
            assert(ints(out@) =~= so_far.push(i as int));
        }
    }
    assert(all.take(recs@.len() as int) =~= all);
    assert(ints(out@).len() == out@.len());
    out
}

/// What records are counted by.
#[derive(Clone, Copy)]
pub enum Key {
    Level,
    Service,
    Logger,
}

/// The value that a record is counted by.
pub open spec fn key_of(r: RecordView, key: Key) -> Seq<char> {
    match key {
        Key::Level => r.level,
        Key::Service => r.service,
        Key::Logger => r.logger,
    }
}

/// How many records have each value, the most frequent first, values of one frequency in the
/// order in which they first appear.
pub open spec fn tally(recs: Seq<RecordView>, key: Key) -> Seq<(Seq<char>, int)> {
    ranked_groups(recs.map_values(|r: RecordView| key_of(r, key))).map_values(
        |g: GroupView| (g.key, g.members.len() as int),
    )
}

/// The views of counts.
pub open spec fn counts(v: Seq<(String, usize)>) -> Seq<(Seq<char>, int)> {
    v.map_values(|c: (String, usize)| (c.0@, c.1 as int))
}

/// Counts records by a value.
pub fn count_by(recs: &[Record], key: Key) -> (r: Vec<(String, usize)>)
    ensures
        counts(r@) == tally(records(recs@), key),
{
    let ghost all = records(recs@);
    let ghost wanted = all.map_values(|r: RecordView| key_of(r, key));
    let mut keys: Vec<String> = Vec::new();
    for i in 0..recs.len()
        invariant
            all == records(recs@),
            wanted == all.map_values(|r: RecordView| key_of(r, key)),
            texts(keys@) == wanted.take(i as int),
    {
        let k: &str = match key {
            Key::Level => recs[i].level.as_str(),
            Key::Service => recs[i].service.as_str(),
            Key::Logger => recs[i].logger.as_str(),
        };
        let ghost so_far = texts(keys@);
        push_text(&mut keys, owned(k));
        assert(wanted.take(i as int + 1) =~= so_far.push(wanted[i as int]));
    }
    assert(wanted.take(recs@.len() as int) =~= wanted);
    let groups = rank_keys(&keys);
    let ghost ranked = ranked_groups(wanted);
    let ghost whole = tally(all, key);
    assert(ranked.len() == groups@.len()) by {
        assert(group_views(groups@).len() == groups@.len());
    }
    let mut out: Vec<(String, usize)> = Vec::new();
    for i in 0..groups.len()
        invariant
            ranked == group_views(groups@),
            ranked.len() == groups@.len(),
            whole == ranked.map_values(|g: GroupView| (g.key, g.members.len() as int)),
            counts(out@) == whole.take(i as int),
    {
        let ghost so_far = counts(out@);
        assert(ranked[i as int] == groups@[i as int]@);
        out.push((owned(groups[i].key.as_str()), groups[i].members.len()));
        assert(counts(out@) =~= so_far.push(whole[i as int]));
        assert(whole.take(i as int + 1) =~= so_far.push(whole[i as int]));
    }
    assert(whole.take(groups@.len() as int) =~= whole);
    out
}

/// The signatures of the messages at some places.
pub open spec fn signatures(recs: Seq<RecordView>, places: Seq<int>) -> Seq<Seq<char>> {
    places.map_values(|i: int| signature(recs[i].msg))
}

/// Places clustered by keys, one for each place: larger clusters first, those of one size in the
/// order in which they first appear.
pub open spec fn clustered(keys: Seq<Seq<char>>, places: Seq<int>) -> Seq<GroupView> {
    ranked_groups(keys).map_values(
        |g: GroupView| GroupView { key: g.key, members: g.members.map_values(|m: int| places[m]) },
    )
}

/// Clusters places by keys.
pub fn cluster_by(keys: &Vec<String>, places: &Vec<usize>) -> (r: Vec<Group>)
    requires
        keys@.len() == places@.len(),
    ensures
        group_views(r@) == clustered(texts(keys@), ints(places@)),
        forall|k: int| 0 <= k < r@.len() ==> (#[trigger] r@[k]).members@.len() > 0,
        forall|k: int, m: int|
            0 <= k < r@.len() && 0 <= m < r@[k].members@.len() ==> ints(places@).contains(
                #[trigger] r@[k].members@[m] as int,
            ),
{
    let ghost at = ints(places@);
    let groups = rank_keys(keys);
    let ghost ranked = group_views(groups@);
    let ghost whole = clustered(texts(keys@), at);
    let mut out: Vec<Group> = Vec::new();
    assert(whole.len() == groups@.len());
    for i in 0..groups.len()
        invariant
            keys@.len() == places@.len(),
            at == ints(places@),
            ranked == group_views(groups@),
            whole == ranked.map_values(
                |g: GroupView| GroupView { key: g.key, members: g.members.map_values(|m: int| at[m]) },
            ),
            whole.len() == groups@.len(),
            crate::order::members_below(ranked, places@.len() as int),
            group_views(out@) == whole.take(i as int),
            forall|k: int| 0 <= k < out@.len() ==> (#[trigger] out@[k]).members@.len() > 0,
            forall|k: int, m: int|
                0 <= k < out@.len() && 0 <= m < out@[k].members@.len() ==> at.contains(
                    #[trigger] out@[k].members@[m] as int,
                ),
    {
        let ghost so_far = group_views(out@);
        let ghost g = ranked[i as int];
        assert(g == groups@[i as int]@);
        let mut members: Vec<usize> = Vec::new();
        let n: usize = groups[i].members.len();
        for j in 0..n
            invariant
                n == g.members.len(),
                i < groups@.len(),
                g == groups@[i as int]@,
                at == ints(places@),
                forall|m: int| 0 <= m < g.members.len() ==> 0 <= #[trigger] g.members[m] < places@.len(),
                ints(members@) == g.members.map_values(|m: int| at[m]).take(j as int),
                forall|k: int| 0 <= k < members@.len() ==> at.contains(#[trigger] members@[k] as int),
                members@.len() == j,
        {
            let ghost before = ints(members@);
            assert(g.members[j as int] == groups@[i as int].members@[j as int]);
            let p: usize = places[groups[i].members[j]];
            assert(at[groups@[i as int].members@[j as int] as int] == p);
            members.push(p);
            let ghost mapped = g.members.map_values(|m: int| at[m]);
            assert(ints(members@) =~= before.push(p as int));
            assert(mapped.take(j as int + 1) =~= before.push(mapped[j as int]));
        }
        let ghost mapped = g.members.map_values(|m: int| at[m]);
        assert(mapped.take(g.members.len() as int) =~= mapped);
        let made = Group { key: owned(groups[i].key.as_str()), members };
        assert(made@ == whole[i as int]);
        let ghost was = out@;
        out.push(made);
        assert forall|k: int, m: int| 0 <= k < out@.len() && 0 <= m < out@[k].members@.len() implies at.contains(
            #[trigger] out@[k].members@[m] as int,
        ) by {
            if k < was.len() {
                assert(out@[k] == was[k]);
            } else {
                assert(out@[k].members@ == members@);
            }
        }
        assert(group_views(out@) =~= so_far.push(whole[i as int]));
        assert(whole.take(i as int + 1) =~= so_far.push(whole[i as int]));
    }
    assert(whole.take(groups@.len() as int) =~= whole);
    out
}

/// The wanted records clustered by the signature of their message: the clusters hold places.
pub open spec fn clusters(recs: Seq<RecordView>, w: WantView) -> Seq<GroupView> {
    clustered(signatures(recs, picks(recs, w)), picks(recs, w))
}

/// Whether each cluster has members, all of them places below `n`.
pub open spec fn inhabited(v: Seq<Group>, n: int) -> bool {
    forall|k: int|
        0 <= k < v.len() ==> (#[trigger] v[k]).members@.len() > 0 && forall|m: int|
            0 <= m < v[k].members@.len() ==> #[trigger] v[k].members@[m] < n
}

/// Clusters the wanted records.
pub fn cluster(recs: &[Record], want: &Want, scrubber: &Scrubber) -> (r: (usize, Vec<Group>))
    requires
        scrubber.wf(),
    ensures
        r.0 == picks(records(recs@), want@).len(),
        group_views(r.1@) == clusters(records(recs@), want@),
        inhabited(r.1@, recs@.len() as int),
{
    let ghost all = records(recs@);
    let places = pick_all(recs, want);
    let ghost at = ints(places@);
    let ghost wanted = signatures(all, at);
    let mut sigs: Vec<String> = Vec::new();
    for i in 0..places.len()
        invariant
            scrubber.wf(),
            all == records(recs@),
            at == ints(places@),
            wanted == signatures(all, at),
            texts(sigs@) == wanted.take(i as int),
            sigs@.len() == i,
            forall|k: int| 0 <= k < places@.len() ==> places@[k] < recs@.len(),
    {
        let ghost so_far = texts(sigs@);
        assert(at[i as int] == places@[i as int]);
        let s = scrubber.sig(recs[places[i]].msg.as_str());
        push_text(&mut sigs, s);
        assert(wanted.take(i as int + 1) =~= so_far.push(wanted[i as int]));
    }
    assert(wanted.take(places@.len() as int) =~= wanted);
    let groups = cluster_by(&sigs, &places);
    assert(inhabited(groups@, recs@.len() as int)) by {
        assert forall|k: int| 0 <= k < groups@.len() implies (#[trigger] groups@[k]).members@.len() > 0 && forall|
            m: int,
        |
            0 <= m < groups@[k].members@.len() ==> #[trigger] groups@[k].members@[m] < recs@.len() by {
            assert forall|m: int| 0 <= m < groups@[k].members@.len() implies #[trigger] groups@[k].members@[m]
                < recs@.len() by {
                assert(at.contains(groups@[k].members@[m] as int));
                let p = choose|p: int| 0 <= p < at.len() && at[p] == groups@[k].members@[m];
                assert(places@[p] < recs@.len());
            }
        }
    }
    (places.len(), groups)
}

/// Clusters errors and warnings, and counts them.
pub fn cluster_errors(recs: &[Record]) -> (r: (usize, Vec<Group>))
    ensures
        r.0 == picks(records(recs@), WantView::Alarm).len(),
        group_views(r.1@) == clusters(records(recs@), WantView::Alarm),
        inhabited(r.1@, recs@.len() as int),
{
    cluster(recs, &Want::Alarm, &Scrubber::new())
}

/// A message as a view prints it: whole but for white space at its end, or on one line of at
/// most `width` characters.
pub open spec fn shown(msg: Seq<char>, full: bool, width: int) -> Seq<char> {
    if full {
        cut_back(msg, CharSet::Space)
    } else {
        one_line(msg, width)
    }
}

/// Makes a message ready for printing, with compiled patterns.
pub fn body_with(scrubber: &Scrubber, msg: &str, full: bool, width: usize) -> (r: String)
    requires
        scrubber.wf(),
        full || width > 0 || trimmed(msg@).len() == 0,
    ensures
        r@ == shown(msg@, full, width as int),
{
    if full {
        trim_back(msg, CharSet::Space)
    } else {
        scrubber.oneline(msg, width)
    }
}

/// Makes a message ready for printing.
pub fn body(msg: &str, full: bool, width: usize) -> (r: String)
    requires
        full || width > 0 || trimmed(msg@).len() == 0,
    ensures
        r@ == shown(msg@, full, width as int),
        !full ==> r@.len() <= width,
{
    if full {
        trim_back(msg, CharSet::Space)
    } else {
        crate::record::oneline(msg, width)
    }
}

/// The fields of a record as JSON.
pub open spec fn record_fields(r: RecordView) -> Seq<(Seq<char>, JsonView)> {
    seq![
        ("ts"@, JsonView::Str(r.ts)),
        ("level"@, JsonView::Str(r.level)),
        ("service"@, JsonView::Str(r.service)),
        ("pod"@, JsonView::Str(r.pod)),
        ("namespace"@, JsonView::Str(r.namespace)),
        ("logger"@, JsonView::Str(r.logger)),
        ("thread"@, JsonView::Str(r.thread)),
        ("trace"@, JsonView::Str(r.trace)),
        ("msg"@, JsonView::Str(r.msg)),
        ("stack"@, JsonView::Str(r.stack)),
    ]
}

/// A record as JSON, with its place where that is given.
pub open spec fn record_value(index: Option<usize>, r: RecordView) -> JsonView {
    match index {
        Some(i) => JsonView::Object(record_fields(r).push(("index"@, json_int(i as int)))),
        None => JsonView::Object(record_fields(r)),
    }
}

/// Makes a record JSON, with its place where that is given.
pub fn record_json(index: Option<usize>, r: &Record) -> (v: Json)
    ensures
        v@ == record_value(index, r@),
{
    let mut o: Vec<(String, Json)> = Vec::new();
    assert(fields(o@) =~= Seq::<(Seq<char>, JsonView)>::empty());
    push_field(&mut o, "ts", str_value(r.ts.as_str()));
    push_field(&mut o, "level", str_value(r.level.as_str()));
    push_field(&mut o, "service", str_value(r.service.as_str()));
    push_field(&mut o, "pod", str_value(r.pod.as_str()));
    push_field(&mut o, "namespace", str_value(r.namespace.as_str()));
    push_field(&mut o, "logger", str_value(r.logger.as_str()));
    push_field(&mut o, "thread", str_value(r.thread.as_str()));
    push_field(&mut o, "trace", str_value(r.trace.as_str()));
    push_field(&mut o, "msg", str_value(r.msg.as_str()));
    push_field(&mut o, "stack", str_value(r.stack.as_str()));
    assert(fields(o@) =~= record_fields(r@));
    if let Some(i) = index {
        push_field(&mut o, "index", size_value(i));
    }
    object(o)
}

/// The levels in a list, in upper case.
pub open spec fn listed_levels(list: Seq<char>) -> Seq<Seq<char>> {
    split_at(list, ',').map_values(|s: Seq<char>| uppercase(trimmed(s)))
}

/// Reads a list of levels.
pub fn read_levels(list: &str) -> (r: Vec<String>)
    ensures
        texts(r@) == listed_levels(list@),
{
    let parts = split(list, ',');
    let ghost whole = listed_levels(list@);
    let mut out: Vec<String> = Vec::new();
    for i in 0..parts.len()
        invariant
            texts(parts@) == split_at(list@, ','),
            whole == listed_levels(list@),
            texts(out@) == whole.take(i as int),
    {
        let ghost so_far = texts(out@);
        assert(texts(parts@)[i as int] == parts@[i as int]@);
        push_text(&mut out, to_uppercase(trim(parts[i].as_str()).as_str()));
        assert(whole.take(i as int + 1) =~= so_far.push(whole[i as int]));
    }
    assert(texts(parts@).len() == parts@.len());
    assert(whole.take(parts@.len() as int) =~= whole);
    out
}

/// The levels that count as errors: those asked for, or errors, with warnings if they are wanted.
pub open spec fn error_levels(warn: bool, level: Option<Seq<char>>) -> Seq<Seq<char>> {
    match level {
        Some(l) => listed_levels(l),
        None => if warn {
            seq!["ERROR"@, "FATAL"@, "WARN"@]
        } else {
            seq!["ERROR"@, "FATAL"@]
        },
    }
}

/// Finds the levels that count as errors.
pub fn level_set(warn: bool, level: Option<&str>) -> (r: Vec<String>)
    ensures
        texts(r@) == error_levels(warn, opt_str(level)),
{
    match level {
        Some(l) => read_levels(l),
        None => {
            let mut v: Vec<String> = Vec::new();
            assert(texts(v@) =~= Seq::<Seq<char>>::empty());
            push_text(&mut v, owned("ERROR"));
            push_text(&mut v, owned("FATAL"));
            if warn {
                push_text(&mut v, owned("WARN"));
            }
            v
        },
    }
}

/// Whether a view of records can be made: the counts of a timeline have to fit into memory.
pub open spec fn viewable(recs: Seq<RecordView>, view: crate::cli::View) -> bool {
    view matches crate::cli::View::Timeline { buckets } ==> shape::countable(recs, buckets as int)
}

/// What a view gives.
pub open spec fn view_output(
    recs: Seq<RecordView>,
    view: crate::cli::View,
    json_out: bool,
    full: bool,
) -> OutputView {
    match view {
        crate::cli::View::Summary => summary::summary_output(recs, json_out, full),
        crate::cli::View::Errors { warn, level } => listing::errors_output(
            recs,
            warn,
            opt_text(level),
            json_out,
            full,
        ),
        crate::cli::View::Grep { pattern, ignore_case, limit } => listing::grep_output(
            recs,
            pattern@,
            ignore_case,
            limit as int,
            json_out,
            full,
        ),
        crate::cli::View::Trace { trace_id } => listing::trace_output(recs, trace_id@, json_out, full),
        crate::cli::View::Show { index } => listing::show_output(recs, index as int, json_out),
        crate::cli::View::Patterns { limit, level } => shape::patterns_output(
            recs,
            limit as int,
            opt_text(level),
            json_out,
            full,
        ),
        crate::cli::View::Timeline { buckets } => shape::timeline_output(recs, buckets as int, json_out),
    }
}

/// Looks at records.
pub fn dispatch(recs: &[Record], view: &crate::cli::View, json_out: bool, full: bool) -> (r: Output)
    requires
        viewable(records(recs@), *view),
    ensures
        r@ == view_output(records(recs@), *view, json_out, full),
{
    match view {
        crate::cli::View::Summary => summary::summary(recs, json_out, full),
        crate::cli::View::Errors { warn, level } => {
            let l: Option<&str> = match level {
                Some(l) => Some(l.as_str()),
                None => None,
            };
            listing::errors(recs, *warn, l, json_out, full)
        },
        crate::cli::View::Grep { pattern, ignore_case, limit } => listing::grep(
            recs,
            pattern.as_str(),
            *ignore_case,
            *limit,
            json_out,
            full,
        ),
        crate::cli::View::Trace { trace_id } => listing::trace(recs, trace_id.as_str(), json_out, full),
        crate::cli::View::Show { index } => listing::show(recs, *index, json_out),
        crate::cli::View::Patterns { limit, level } => {
            let l: Option<&str> = match level {
                Some(l) => Some(l.as_str()),
                None => None,
            };
            shape::patterns(recs, *limit, l, json_out, full)
        },
        crate::cli::View::Timeline { buckets } => shape::timeline(recs, *buckets, json_out),
    }
}

/// What a view gives, where it can be made.
pub open spec fn possible_output(
    recs: Seq<RecordView>,
    view: crate::cli::View,
    json_out: bool,
    full: bool,
) -> Option<OutputView> {
    if viewable(recs, view) {
        Some(view_output(recs, view, json_out, full))
    } else {
        None
    }
}

/// The view of an output that may be missing.
pub open spec fn opt_output(o: Option<Output>) -> Option<OutputView> {
    match o {
        Some(o) => Some(o@),
        None => None,
    }
}

/// Looks at records where the view can be made.
pub fn try_dispatch(recs: &[Record], view: &crate::cli::View, json_out: bool, full: bool) -> (r: Option<Output>)
    ensures
        opt_output(r) == possible_output(records(recs@), *view, json_out, full),
{
    if let crate::cli::View::Timeline { buckets } = view {
        if !shape::can_count(recs, *buckets) {
            return None;
        }
    }
    Some(dispatch(recs, view, json_out, full))
}

/// A filter that says nothing keeps every record.
pub proof fn no_filter_keeps_all(recs: Seq<RecordView>)
    ensures
        recs.filter(
            |x: RecordView|
                keeps(
                    FilterView { service: None, logger: None, matching: None, after: None, before: None },
                    x,
                ),
        ) == recs,
    decreases recs.len(),
{
    reveal(Seq::filter);
    if recs.len() > 0 {
        no_filter_keeps_all(recs.drop_last());
        assert(recs.drop_last().push(recs.last()) =~= recs);
    }
}

/// Filtering by one filter and then by another keeps the records that pass both.
pub proof fn filters_compose(recs: Seq<RecordView>, f: FilterView, g: FilterView)
    ensures
        recs.filter(|x: RecordView| keeps(f, x)).filter(|x: RecordView| keeps(g, x)) == recs.filter(
            |x: RecordView| keeps(f, x) && keeps(g, x),
        ),
    decreases recs.len(),
{
    reveal(Seq::filter);
    if recs.len() > 0 {
        let one = recs.drop_last().filter(|x: RecordView| keeps(f, x));
        filters_compose(recs.drop_last(), f, g);
        if keeps(f, recs.last()) {
            assert(one.push(recs.last()).drop_last() =~= one);
        }
    }
}

/// A record as JSON carries its message and its stack whole, and its place exactly where that
/// is given.
pub proof fn record_value_is_whole(index: Option<usize>, r: RecordView)
    ensures
        str_at(record_value(index, r), "msg"@) == Some(r.msg),
        str_at(record_value(index, r), "stack"@) == Some(r.stack),
        str_at(record_value(index, r), "trace"@) == Some(r.trace),
        member(record_value(index, r), "index"@) == match index {
            Some(i) => Some(json_int(i as int)),
            None => None,
        },
{
    reveal_strlit("ts");
    reveal_strlit("level");
    reveal_strlit("service");
    reveal_strlit("pod");
    reveal_strlit("namespace");
    reveal_strlit("logger");
    reveal_strlit("thread");
    reveal_strlit("trace");
    reveal_strlit("msg");
    reveal_strlit("stack");
    reveal_strlit("index");
    assert("ts"@[0] == 't' && "level"@[0] == 'l' && "pod"@[0] == 'p' && "trace"@[0] == 't' && "msg"@[0] == 'm'
        && "stack"@[0] == 's' && "index"@[0] == 'i');
    let o = record_value(index, r)->Object_0;
    assert(o[0].0 == "ts"@ && o[1].0 == "level"@ && o[2].0 == "service"@ && o[3].0 == "pod"@ && o[4].0
        == "namespace"@ && o[5].0 == "logger"@ && o[6].0 == "thread"@ && o[7].0 == "trace"@ && o[8].0 == "msg"@
        && o[9].0 == "stack"@);
    assert forall|i: int| 0 <= i < 7 implies (#[trigger] o[i]).0 != "trace"@ by {
        assert(o[i].0.len() != 5 || o[i].0[0] == 'l');
    }
    assert forall|i: int| 0 <= i < 9 implies (#[trigger] o[i]).0 != "stack"@ by {
        assert(o[i].0.len() != 5 || o[i].0[0] == 'l' || o[i].0[0] == 't');
    }
    first_field_counts(o, "trace"@, 7);
    first_field_counts(o, "msg"@, 8);
    first_field_counts(o, "stack"@, 9);
    first_field_counts(o, "index"@, 10);
}

/// What a view gives as JSON does not depend on whether text is printed whole.
pub proof fn json_is_always_whole(recs: Seq<RecordView>, view: crate::cli::View, a: bool, b: bool)
    ensures
        view_output(recs, view, true, a) == view_output(recs, view, true, b),
{
}

} // verus!
