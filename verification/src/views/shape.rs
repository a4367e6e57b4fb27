//! The views on the shape of a log: clusters of messages, and volume over time.

use super::summary::top;
use super::{body_with, cluster, clusters, read_levels, shown, Output, OutputView, Want, WantView};
use crate::clock::{utc_text, write_utc, SHORT_FORM};
use crate::json::{
    array, fields, int_value, items, json_int, json_strings, object, push_field, push_item, size_value,
    str_items, str_value, Json, JsonView,
};
use crate::number::{decimal, int_text, int_to_text, pad_left, repeat_char, right_set, run_of, size_to_text};
use crate::order::{group_views, sum_of, Group, GroupView};
use crate::record::{epoch_millis, millis_in_calendar, records, ts_epoch_ms, Record, RecordView, Scrubber};
use crate::text::{contains_text, has_text, join, joined, opt_str, owned, push_text, texts};
use vstd::prelude::*;

verus! {

/// The levels of the records at some places, each once, in the order of first appearance.
pub open spec fn levels_at(recs: Seq<RecordView>, places: Seq<int>) -> Seq<Seq<char>>
    decreases places.len(),
{
    if places.len() == 0 {
        Seq::<Seq<char>>::empty()
    } else {
        let before = levels_at(recs, places.drop_last());
        if has_text(before, recs[places.last()].level) {
            before
        } else {
            before.push(recs[places.last()].level)
        }
    }
}

fn find_levels(recs: &[Record], g: &Group) -> (r: Vec<String>)
    requires
        forall|m: int| 0 <= m < g.members@.len() ==> #[trigger] g.members@[m] < recs@.len(),
    ensures
        texts(r@) == levels_at(records(recs@), g@.members),
{
    let ghost all = records(recs@);
    let ghost at = g@.members;
    let mut out: Vec<String> = Vec::new();
    assert(texts(out@) =~= levels_at(all, at.take(0)));
    let n: usize = g.members.len();
    for m in 0..n
        invariant
            n == g.members@.len(),
            all == records(recs@),
            at == g@.members,
            forall|m: int| 0 <= m < g.members@.len() ==> #[trigger] g.members@[m] < recs@.len(),
            texts(out@) == levels_at(all, at.take(m as int)),
    {
        let p: usize = g.members[m];
        assert(at.take(m as int + 1).drop_last() =~= at.take(m as int));
        assert(at.take(m as int + 1).last() == p);
        if !contains_text(&out, recs[p].level.as_str()) {
            push_text(&mut out, owned(recs[p].level.as_str()));
        }
    }
    assert(at.take(n as int) =~= at);
    out
}

/// A cluster on a line: its size, its levels, and place and message of its first record.
pub open spec fn pattern_line(recs: Seq<RecordView>, g: GroupView, full: bool) -> Seq<char> {
    right_set(decimal(g.members.len()), 6) + "x ["@ + joined(levels_at(recs, g.members), "/"@) + "] #"@ + decimal(
        g.members[0] as nat,
    ) + "  "@ + shown(recs[g.members[0]].msg, full, 120)
}

/// A cluster as JSON.
pub open spec fn pattern_value(recs: Seq<RecordView>, g: GroupView) -> JsonView {
    JsonView::Object(
        seq![
            ("count"@, json_int(g.members.len() as int)),
            ("levels"@, json_strings(levels_at(recs, g.members))),
            ("sig"@, JsonView::Str(g.key)),
            ("sample"@, JsonView::Str(recs[g.members[0]].msg)),
            ("first_index"@, json_int(g.members[0])),
        ],
    )
}

/// Which records are clustered: those at the levels asked for, or all.
pub open spec fn wanted_levels(level: Option<Seq<char>>) -> WantView {
    match level {
        Some(l) => WantView::Levels(super::listed_levels(l)),
        None => WantView::All,
    }
}

/// Messages clustered by signature.
pub open spec fn patterns_output(
    recs: Seq<RecordView>,
    limit: int,
    level: Option<Seq<char>>,
    json_out: bool,
    full: bool,
) -> OutputView {
    let found = clusters(recs, wanted_levels(level));
    if json_out {
        OutputView::Value(
            JsonView::Object(
                seq![
                    ("clusters"@, json_int(found.len() as int)),
                    (
                        "patterns"@,
                        JsonView::Array(top(found, limit).map_values(|g: GroupView| pattern_value(recs, g))),
                    ),
                ],
            ),
        )
    } else {
        OutputView::Lines(
            seq![decimal(found.len()) + " distinct pattern(s)\n"@] + top(found, limit).map_values(
                |g: GroupView| pattern_line(recs, g, full),
            ),
        )
    }
}

/// Makes a cluster JSON.
pub fn pack_pattern(recs: &[Record], g: &Group) -> (r: Json)
    requires
        g.members@.len() > 0,
        forall|m: int| 0 <= m < g.members@.len() ==> #[trigger] g.members@[m] < recs@.len(),
    ensures
        r@ == pattern_value(records(recs@), g@),
{
    let at: usize = g.members[0];
    assert(g@.members[0] == at);
    let mut o: Vec<(String, Json)> = Vec::new();
    push_field(&mut o, "count", size_value(g.members.len()));
    push_field(&mut o, "levels", str_items(&find_levels(recs, g)));
    push_field(&mut o, "sig", str_value(g.key.as_str()));
    push_field(&mut o, "sample", str_value(recs[at].msg.as_str()));
    push_field(&mut o, "first_index", size_value(at));
    assert(fields(o@) =~= pattern_value(records(recs@), g@)->Object_0);
    object(o)
}

/// Prints a cluster on a line.
pub fn print_pattern(recs: &[Record], g: &Group, full: bool, scrubber: &Scrubber) -> (r: String)
    requires
        scrubber.wf(),
        g.members@.len() > 0,
        forall|m: int| 0 <= m < g.members@.len() ==> #[trigger] g.members@[m] < recs@.len(),
    ensures
        r@ == pattern_line(records(recs@), g@, full),
{
    let at: usize = g.members[0];
    assert(g@.members[0] == at);
    let mut s = pad_left(size_to_text(g.members.len()).as_str(), 6);
    s.append("x [");
    s.append(join(&find_levels(recs, g), "/").as_str());
    s.append("] #");
    s.append(size_to_text(at).as_str());
    s.append("  ");
    s.append(body_with(scrubber, recs[at].msg.as_str(), full, 120).as_str());
    s
}

fn cluster_at(recs: &[Record], level: Option<&str>, scrubber: &Scrubber) -> (r: Vec<Group>)
    requires
        scrubber.wf(),
    ensures
        group_views(r@) == clusters(records(recs@), wanted_levels(opt_str(level))),
        super::inhabited(r@, recs@.len() as int),
{
    match level {
        Some(l) => {
            let levels = read_levels(l);
            cluster(recs, &Want::Levels(&levels), scrubber).1
        },
        None => cluster(recs, &Want::All, scrubber).1,
    }
}

/// Clusters messages by signature.
pub fn patterns(recs: &[Record], limit: usize, level: Option<&str>, json_out: bool, full: bool) -> (r: Output)
    ensures
        r@ == patterns_output(records(recs@), limit as int, opt_str(level), json_out, full),
{
    let scrubber = Scrubber::new();
    let ghost all = records(recs@);
    let found = cluster_at(recs, level, &scrubber);
    let ghost views = group_views(found@);
    let n: usize = if found.len() <= limit {
        found.len()
    } else {
        limit
    };
    if json_out {
        let ghost whole = top(views, limit as int).map_values(|g: GroupView| pattern_value(all, g));
        let mut out: Vec<Json> = Vec::new();
        for i in 0..n
            invariant
                n <= found@.len(),
                all == records(recs@),
                views == group_views(found@),
                super::inhabited(found@, recs@.len() as int),
                whole == top(views, limit as int).map_values(|g: GroupView| pattern_value(all, g)),
                whole.len() == n,
                items(out@) == whole.take(i as int),
        {
            let ghost so_far = items(out@);
            assert(views[i as int] == found@[i as int]@);
            push_item(&mut out, pack_pattern(recs, &found[i]));
            assert(whole[i as int] == pattern_value(all, views[i as int]));
            assert(whole.take(i as int + 1) =~= so_far.push(whole[i as int]));
        }
        assert(whole.take(n as int) =~= whole);
        let mut o: Vec<(String, Json)> = Vec::new();
        push_field(&mut o, "clusters", size_value(found.len()));
        push_field(&mut o, "patterns", array(out));
        let ghost want = patterns_output(all, limit as int, opt_str(level), json_out, full);
        assert(fields(o@) =~= (want->Value_0)->Object_0);
        return Output::Value(object(o));
    }
    let mut s = size_to_text(found.len());
    s.append(" distinct pattern(s)\n");
    let ghost head = seq![s@];
    let ghost whole = top(views, limit as int).map_values(|g: GroupView| pattern_line(all, g, full));
    let mut out: Vec<String> = Vec::new();
    push_text(&mut out, s);
    assert(texts(out@) =~= head + whole.take(0));
    for i in 0..n
        invariant
            scrubber.wf(),
            n <= found@.len(),
            all == records(recs@),
            views == group_views(found@),
            super::inhabited(found@, recs@.len() as int),
            whole == top(views, limit as int).map_values(|g: GroupView| pattern_line(all, g, full)),
            whole.len() == n,
            texts(out@) == head + whole.take(i as int),
    {
        let ghost so_far = texts(out@);
        assert(views[i as int] == found@[i as int]@);
        push_text(&mut out, print_pattern(recs, &found[i], full, &scrubber));
        assert(whole[i as int] == pattern_line(all, views[i as int], full));
        assert(head + whole.take(i as int + 1) =~= so_far.push(whole[i as int]));
    }
    assert(whole.take(n as int) =~= whole);
    Output::Lines(out)
}

/// A point in time, and whether an error was logged there.
pub struct Point {
    pub ms: i64,
    pub error: bool,
}

/// The points of the records whose timestamps can be read: milliseconds since the epoch, and
/// whether the record is an error.
pub open spec fn points(recs: Seq<RecordView>) -> Seq<(int, bool)>
    decreases recs.len(),
{
    if recs.len() == 0 {
        Seq::<(int, bool)>::empty()
    } else {
        match epoch_millis(recs.last().ts) {
            Some(ms) => points(recs.drop_last()).push(
                (ms, recs.last().level == "ERROR"@ || recs.last().level == "FATAL"@),
            ),
            None => points(recs.drop_last()),
        }
    }
}

/// The views of points.
pub open spec fn point_views(v: Seq<Point>) -> Seq<(int, bool)> {
    v.map_values(|p: Point| (p.ms as int, p.error))
}

/// Whether points lie in the calendar.
pub open spec fn dated(pts: Seq<(int, bool)>) -> bool {
    forall|i: int| 0 <= i < pts.len() ==> millis_in_calendar(#[trigger] pts[i].0)
}

fn find_points(recs: &[Record]) -> (r: Vec<Point>)
    ensures
        point_views(r@) == points(records(recs@)),
        dated(point_views(r@)),
{
    let ghost all = records(recs@);
    let mut out: Vec<Point> = Vec::new();
    assert(point_views(out@) =~= points(all.take(0)));
    for i in 0..recs.len()
        invariant
            all == records(recs@),
            point_views(out@) == points(all.take(i as int)),
            dated(point_views(out@)),
    {
        let ghost so_far = point_views(out@);
        let r = &recs[i];
        assert(all.take(i as int + 1).drop_last() =~= all.take(i as int));
        assert(all.take(i as int + 1).last() == r@);
        if let Some(ms) = ts_epoch_ms(r.ts.as_str()) {
            let error = *r.level.as_str() == *"ERROR" || *r.level.as_str() == *"FATAL";
            out.push(Point { ms, error });
            assert(point_views(out@) =~= so_far.push((ms as int, error)));
            assert(dated(point_views(out@)));
        }
    }
    assert(all.take(recs@.len() as int) =~= all);
    out
}

/// The earliest of points.
pub open spec fn earliest(pts: Seq<(int, bool)>) -> int
    decreases pts.len(),
{
    if pts.len() <= 1 {
        pts[0].0
    } else if pts.last().0 < earliest(pts.drop_last()) {
        pts.last().0
    } else {
        earliest(pts.drop_last())
    }
}

/// The latest of points.
pub open spec fn latest(pts: Seq<(int, bool)>) -> int
    decreases pts.len(),
{
    if pts.len() <= 1 {
        pts[0].0
    } else if pts.last().0 > latest(pts.drop_last()) {
        pts.last().0
    } else {
        latest(pts.drop_last())
    }
}

/// Every point lies between the earliest and the latest.
pub proof fn points_lie_between(pts: Seq<(int, bool)>)
    ensures
        forall|i: int| 0 <= i < pts.len() ==> earliest(pts) <= #[trigger] pts[i].0 <= latest(pts),
    decreases pts.len(),
{
    if pts.len() > 1 {
        points_lie_between(pts.drop_last());
        assert forall|i: int| 0 <= i < pts.len() implies earliest(pts) <= #[trigger] pts[i].0 <= latest(pts) by {
            if i < pts.len() - 1 {
                assert(pts.drop_last()[i] == pts[i]);
            }
        }
    }
}

fn find_ends(pts: &Vec<Point>) -> (r: (i64, i64))
    requires
        pts@.len() > 0,
        dated(point_views(pts@)),
    ensures
        r.0 == earliest(point_views(pts@)),
        r.1 == latest(point_views(pts@)),
        millis_in_calendar(r.0 as int),
        millis_in_calendar(r.1 as int),
        r.0 <= r.1,
{
    let ghost all = point_views(pts@);
    let mut lo: i64 = pts[0].ms;
    let mut hi: i64 = pts[0].ms;
    assert(all[0].0 == lo);
    for i in 1..pts.len()
        invariant
            pts@.len() > 0,
            all == point_views(pts@),
            dated(all),
            lo == earliest(all.take(i as int)),
            hi == latest(all.take(i as int)),
            millis_in_calendar(lo as int),
            millis_in_calendar(hi as int),
            lo <= hi,
    {
        let t: i64 = pts[i].ms;
        assert(all[i as int].0 == t);
        assert(all.take(i as int + 1).drop_last() =~= all.take(i as int));
        assert(all.take(i as int + 1).last() == all[i as int]);
        if t < lo {
            lo = t;
        }
        if t > hi {
            hi = t;
        }
    }
    assert(all.take(pts@.len() as int) =~= all);
    (lo, hi)
}

/// How many buckets there are: as many as asked for, but at least one.
pub open spec fn bucket_count(buckets: int) -> int {
    if buckets > 1 {
        buckets
    } else {
        1
    }
}

/// The width of a bucket in milliseconds: its share of the span, but at least one.
pub open spec fn bucket_width(pts: Seq<(int, bool)>, n: int) -> int {
    let span = if latest(pts) - earliest(pts) > 1 {
        latest(pts) - earliest(pts)
    } else {
        1
    };
    if span / n > 1 {
        span / n
    } else {
        1
    }
}

/// The bucket of a point: by its distance from the first one, the last bucket taking the rest.
pub open spec fn bucket_of(ms: int, first: int, width: int, n: int) -> int {
    if (ms - first) / width < n {
        (ms - first) / width
    } else {
        n - 1
    }
}

/// How many points fall into a bucket.
pub open spec fn bucket_total(pts: Seq<(int, bool)>, first: int, width: int, n: int, b: int) -> nat
    decreases pts.len(),
{
    if pts.len() == 0 {
        0
    } else {
        bucket_total(pts.drop_last(), first, width, n, b) + if bucket_of(pts.last().0, first, width, n) == b {
            1nat
        } else {
            0nat
        }
    }
}

/// How many errors fall into a bucket.
pub open spec fn bucket_errors(pts: Seq<(int, bool)>, first: int, width: int, n: int, b: int) -> nat
    decreases pts.len(),
{
    if pts.len() == 0 {
        0
    } else {
        bucket_errors(pts.drop_last(), first, width, n, b) + if bucket_of(pts.last().0, first, width, n) == b
            && pts.last().1 {
            1nat
        } else {
            0nat
        }
    }
}

/// How many points fall into the first `n` of all the buckets together.
pub open spec fn total_below(pts: Seq<(int, bool)>, first: int, width: int, n: int, below: nat) -> nat
    decreases below,
{
    if below == 0 {
        0
    } else {
        total_below(pts, first, width, n, (below - 1) as nat) + bucket_total(pts, first, width, n, below - 1)
    }
}

proof fn lemma_one_more(pts: Seq<(int, bool)>, first: int, width: int, n: int, below: nat)
    requires
        pts.len() > 0,
    ensures
        total_below(pts, first, width, n, below) == total_below(pts.drop_last(), first, width, n, below) + (if 0
            <= bucket_of(pts.last().0, first, width, n) < below {
            1nat
        } else {
            0nat
        }),
    decreases below,
{
    if below > 0 {
        lemma_one_more(pts, first, width, n, (below - 1) as nat);
    }
}

proof fn lemma_no_points(first: int, width: int, n: int, below: nat)
    ensures
        total_below(Seq::<(int, bool)>::empty(), first, width, n, below) == 0,
    decreases below,
{
    if below > 0 {
        lemma_no_points(first, width, n, (below - 1) as nat);
    }
}

proof fn lemma_buckets_hold_every_point(pts: Seq<(int, bool)>, first: int, width: int, n: nat)
    requires
        n > 0,
        width > 0,
        forall|i: int| 0 <= i < pts.len() ==> first <= #[trigger] pts[i].0,
    ensures
        total_below(pts, first, width, n as int, n) == pts.len(),
    decreases pts.len(),
{
    if pts.len() == 0 {
        lemma_no_points(first, width, n as int, n);
        assert(pts =~= Seq::<(int, bool)>::empty());
    } else {
        assert forall|i: int| 0 <= i < pts.drop_last().len() implies first <= #[trigger] pts.drop_last()[i].0 by {
            assert(pts.drop_last()[i] == pts[i]);
        }
        lemma_buckets_hold_every_point(pts.drop_last(), first, width, n);
        lemma_one_more(pts, first, width, n as int, n);
        let d = pts[pts.len() - 1].0 - first;
        assert(d / width >= 0) by (nonlinear_arith)
            requires
                d >= 0,
                width > 0,
        ;
    }
}

proof fn lemma_bucket_bounds(pts: Seq<(int, bool)>, first: int, width: int, n: int, b: int)
    ensures
        bucket_errors(pts, first, width, n, b) <= bucket_total(pts, first, width, n, b) <= pts.len(),
    decreases pts.len(),
{
    if pts.len() > 0 {
        lemma_bucket_bounds(pts.drop_last(), first, width, n, b);
    }
}

fn fill(pts: &Vec<Point>, first: i64, width: i64, n: usize) -> (r: (Vec<usize>, Vec<usize>))
    requires
        0 < n <= i64::MAX,
        width > 0,
        millis_in_calendar(first as int),
        dated(point_views(pts@)),
        forall|i: int| 0 <= i < pts@.len() ==> first <= #[trigger] point_views(pts@)[i].0,
    ensures
        r.0@.len() == n,
        r.1@.len() == n,
        forall|b: int|
            0 <= b < n ==> #[trigger] r.0@[b] == bucket_total(
                point_views(pts@),
                first as int,
                width as int,
                n as int,
                b,
            ),
        forall|b: int|
            0 <= b < n ==> #[trigger] r.1@[b] == bucket_errors(
                point_views(pts@),
                first as int,
                width as int,
                n as int,
                b,
            ),
{
    let ghost all = point_views(pts@);
    let mut total: Vec<usize> = Vec::new();
    let mut errs: Vec<usize> = Vec::new();
    for b in 0..n
        invariant
            total@.len() == b,
            errs@.len() == b,
            forall|k: int| 0 <= k < b ==> total@[k] == 0 && errs@[k] == 0,
    {
        total.push(0);
        errs.push(0);
    }
    for i in 0..pts.len()
        invariant
            all == point_views(pts@),
            0 < n <= i64::MAX,
            width > 0,
            millis_in_calendar(first as int),
            dated(all),
            forall|i: int| 0 <= i < pts@.len() ==> first <= #[trigger] all[i].0,
            total@.len() == n,
            errs@.len() == n,
            forall|b: int|
                0 <= b < n ==> #[trigger] total@[b] == bucket_total(
                    all.take(i as int),
                    first as int,
                    width as int,
                    n as int,
                    b,
                ),
            forall|b: int|
                0 <= b < n ==> #[trigger] errs@[b] == bucket_errors(
                    all.take(i as int),
                    first as int,
                    width as int,
                    n as int,
                    b,
                ),
    {
        let p = &pts[i];
        assert(all[i as int].0 == p.ms && all[i as int].1 == p.error);
        assert(all.take(i as int + 1).drop_last() =~= all.take(i as int));
        assert(all.take(i as int + 1).last() == all[i as int]);
        let d: i64 = p.ms - first;
        let q: i64 = d / width;
        assert(q >= 0) by (nonlinear_arith)
            requires
                d >= 0,
                width > 0,
                q == d as int / width as int,
        ;
        let b: usize = if q < n as i64 {
            q as usize
        } else {
            n - 1
        };
        assert(b == bucket_of(p.ms as int, first as int, width as int, n as int));
        proof {
            lemma_bucket_bounds(all.take(i as int), first as int, width as int, n as int, b as int);
        }
        let was: usize = total[b];
        total.set(b, was + 1);
        if p.error {
            let was: usize = errs[b];
            errs.set(b, was + 1);
        }
    }
    assert(all.take(pts@.len() as int) =~= all);
    (total, errs)
}

/// A time of day for the eye, or a question mark where the calendar has none.
pub open spec fn clock_text(ms: i64) -> Seq<char> {
    match utc_text(ms, SHORT_FORM@) {
        Some(s) => s,
        None => "?"@,
    }
}

/// Writes a time of day for the eye.
pub fn fmt_ms(ms: i64) -> (r: String)
    ensures
        r@ == clock_text(ms),
{
    match write_utc(ms, SHORT_FORM) {
        Some(s) => s,
        None => owned("?"),
    }
}

/// The volume of points over time: `n` buckets of one width, with how many points and how many
/// errors each holds.
#[verifier::ext_equal]
pub struct VolumeView {
    pub points: nat,
    pub first: i64,
    pub last: i64,
    pub width: i64,
    pub totals: Seq<nat>,
    pub errors: Seq<nat>,
}

/// The volume of points over time.
pub struct Volume {
    pub points: usize,
    pub first: i64,
    pub last: i64,
    pub width: i64,
    pub totals: Vec<usize>,
    pub errors: Vec<usize>,
}

/// Sizes as numbers.
pub open spec fn nats(v: Seq<usize>) -> Seq<nat> {
    v.map_values(|n: usize| n as nat)
}

impl View for Volume {
    type V = VolumeView;

    open spec fn view(&self) -> VolumeView {
        VolumeView {
            points: self.points as nat,
            first: self.first,
            last: self.last,
            width: self.width,
            totals: nats(self.totals@),
            errors: nats(self.errors@),
        }
    }
}

/// The volume of points over time in `n` buckets.
pub open spec fn volume_of(pts: Seq<(int, bool)>, n: nat) -> VolumeView {
    let first = earliest(pts);
    let width = bucket_width(pts, n as int);
    VolumeView {
        points: pts.len(),
        first: first as i64,
        last: latest(pts) as i64,
        width: width as i64,
        totals: Seq::new(n, |b: int| bucket_total(pts, first, width, n as int, b)),
        errors: Seq::new(n, |b: int| bucket_errors(pts, first, width, n as int, b)),
    }
}

/// The largest number of buckets that memory can hold the counts of.
pub open spec fn bucket_limit() -> int {
    isize::MAX as int / 8
}

/// The numbers of points in the buckets, as integers.
pub open spec fn bucket_counts(v: VolumeView) -> Seq<int> {
    v.totals.map_values(|t: nat| t as int)
}

proof fn lemma_total_is_sum(pts: Seq<(int, bool)>, n: nat, below: nat)
    requires
        below <= n,
    ensures
        total_below(pts, earliest(pts), bucket_width(pts, n as int), n as int, below) == sum_of(
            bucket_counts(volume_of(pts, n)).take(below as int),
        ),
    decreases below,
{
    let counts = bucket_counts(volume_of(pts, n));
    if below > 0 {
        lemma_total_is_sum(pts, n, (below - 1) as nat);
        assert(counts.take(below as int).drop_last() =~= counts.take(below - 1));
        assert(counts.take(below as int).last() == counts[below - 1]);
    }
}

/// The counts of a timeline add up to the number of points: none is lost, and none counts twice.
pub proof fn timeline_counts_every_point(pts: Seq<(int, bool)>, n: nat)
    requires
        n > 0,
    ensures
        sum_of(bucket_counts(volume_of(pts, n))) == pts.len(),
{
    let first = earliest(pts);
    let width = bucket_width(pts, n as int);
    points_lie_between(pts);
    lemma_buckets_hold_every_point(pts, first, width, n);
    lemma_total_is_sum(pts, n, n);
    let counts = bucket_counts(volume_of(pts, n));
    assert(counts.take(n as int) =~= counts);
}

/// The numbers of errors in the buckets, as integers.
pub open spec fn error_counts(v: VolumeView) -> Seq<int> {
    v.errors.map_values(|t: nat| t as int)
}

/// The points that are errors.
pub open spec fn error_points(pts: Seq<(int, bool)>) -> Seq<(int, bool)>
    decreases pts.len(),
{
    if pts.len() == 0 {
        pts
    } else if pts.last().1 {
        error_points(pts.drop_last()).push(pts.last())
    } else {
        error_points(pts.drop_last())
    }
}

proof fn lemma_error_points(pts: Seq<(int, bool)>, first: int, width: int, n: int)
    ensures
        forall|b: int|
            #[trigger] bucket_errors(pts, first, width, n, b) == bucket_total(error_points(pts), first, width, n, b),
        (forall|i: int| 0 <= i < pts.len() ==> first <= #[trigger] pts[i].0) ==> (forall|i: int|
            0 <= i < error_points(pts).len() ==> first <= #[trigger] error_points(pts)[i].0),
    decreases pts.len(),
{
    if pts.len() > 0 {
        let front = pts.drop_last();
        lemma_error_points(front, first, width, n);
        let kept = error_points(front);
        if pts.last().1 {
            assert(error_points(pts).drop_last() =~= kept);
            assert(error_points(pts).last() == pts.last());
        }
        assert forall|b: int|
            #[trigger] bucket_errors(pts, first, width, n, b) == bucket_total(error_points(pts), first, width, n, b) by {
            assert(bucket_errors(front, first, width, n, b) == bucket_total(kept, first, width, n, b));
        }
        if forall|i: int| 0 <= i < pts.len() ==> first <= #[trigger] pts[i].0 {
            assert forall|i: int| 0 <= i < front.len() implies first <= #[trigger] front[i].0 by {
                assert(front[i] == pts[i]);
            }
            assert(first <= pts[pts.len() - 1].0);
        }
    }
}

proof fn lemma_errors_are_sum(pts: Seq<(int, bool)>, n: nat, below: nat)
    requires
        below <= n,
    ensures
        total_below(error_points(pts), earliest(pts), bucket_width(pts, n as int), n as int, below) == sum_of(
            error_counts(volume_of(pts, n)).take(below as int),
        ),
    decreases below,
{
    let counts = error_counts(volume_of(pts, n));
    if below > 0 {
        lemma_errors_are_sum(pts, n, (below - 1) as nat);
        lemma_error_points(pts, earliest(pts), bucket_width(pts, n as int), n as int);
        assert(counts.take(below as int).drop_last() =~= counts.take(below - 1));
        assert(counts.take(below as int).last() == counts[below - 1]);
        assert(counts[below - 1] == bucket_errors(
            pts,
            earliest(pts),
            bucket_width(pts, n as int),
            n as int,
            below - 1,
        ));
    }
}

/// Whether a record counts as an error of a timeline: it has a timestamp that can be read, and
/// its level is ERROR or FATAL.
pub open spec fn is_dated_error(r: RecordView) -> bool {
    epoch_millis(r.ts) is Some && (r.level == "ERROR"@ || r.level == "FATAL"@)
}

proof fn lemma_error_records(recs: Seq<RecordView>)
    ensures
        error_points(points(recs)).len() == recs.filter(|r: RecordView| is_dated_error(r)).len(),
    decreases recs.len(),
{
    reveal(Seq::filter);
    if recs.len() > 0 {
        lemma_error_records(recs.drop_last());
        if let Some(ms) = epoch_millis(recs.last().ts) {
            assert(points(recs).drop_last() =~= points(recs.drop_last()));
        }
    }
}

/// The errors of a timeline add up to the dated records at ERROR or FATAL: none is lost, and none
/// counts twice.
pub proof fn timeline_counts_every_error(recs: Seq<RecordView>, n: nat)
    requires
        n > 0,
    ensures
        sum_of(error_counts(volume_of(points(recs), n))) == recs.filter(|r: RecordView| is_dated_error(r)).len(),
{
    let pts = points(recs);
    let first = earliest(pts);
    let width = bucket_width(pts, n as int);
    points_lie_between(pts);
    lemma_error_points(pts, first, width, n as int);
    lemma_buckets_hold_every_point(error_points(pts), first, width, n);
    lemma_errors_are_sum(pts, n, n);
    lemma_error_records(recs);
    let counts = error_counts(volume_of(pts, n));
    assert(counts.take(n as int) =~= counts);
}

/// No bucket of a timeline has more errors than points.
pub proof fn errors_never_exceed_the_count(pts: Seq<(int, bool)>, n: nat, b: int)
    requires
        0 <= b < n,
    ensures
        volume_of(pts, n).errors[b] <= volume_of(pts, n).totals[b],
{
    lemma_bucket_bounds(pts, earliest(pts), bucket_width(pts, n as int), n as int, b);
}

/// Measures the volume of points over time in `n` buckets.
pub fn measure(pts: &Vec<Point>, n: usize) -> (r: Volume)
    requires
        pts@.len() > 0,
        dated(point_views(pts@)),
        0 < n <= bucket_limit(),
    ensures
        r@ == volume_of(point_views(pts@), n as nat),
        r.totals@.len() == n,
        r.errors@.len() == n,
        millis_in_calendar(r.first as int),
        r.width > 0,
        n * r.width <= bucket_limit() + 20_000_000_000_000_000,
        0 <= r.width <= 20_000_000_000_000_000,
{
    let ghost all = point_views(pts@);
    let (lo, hi) = find_ends(pts);
    let span: i64 = if hi - lo > 1 {
        hi - lo
    } else {
        1
    };
    let share: i64 = span / n as i64;
    proof {
        let s = span as int;
        let m = n as int;
        let q = share as int;
        assert(0 <= q <= s && m * q <= s) by (nonlinear_arith)
            requires
                q == s / m,
                m > 0,
                s > 0,
        ;
    }
    let width: i64 = if share > 1 {
        share
    } else {
        1
    };
    proof {
        let m = n as int;
        let w = width as int;
        if share > 1 {
            assert(m * w == m * share as int);
        } else {
            assert(m * w == m) by (nonlinear_arith)
                requires
                    w == 1,
            ;
        }
        points_lie_between(all);
    }
    let (totals, errors) = fill(pts, lo, width, n);
    let r = Volume { points: pts.len(), first: lo, last: hi, width, totals, errors };
    assert(r@.totals =~= volume_of(all, n as nat).totals);
    assert(r@.errors =~= volume_of(all, n as nat).errors);
    r
}

/// A bucket as JSON.
pub open spec fn bucket_value(v: VolumeView, b: int) -> JsonView {
    JsonView::Object(
        seq![
            ("start_ms"@, json_int(v.first + b * v.width)),
            ("count"@, json_int(v.totals[b] as int)),
            ("errors"@, json_int(v.errors[b] as int)),
        ],
    )
}

/// Volume over time as JSON.
pub open spec fn volume_value(v: VolumeView) -> JsonView {
    JsonView::Object(
        seq![
            ("bucket_secs"@, json_int(v.width as int / 1000)),
            ("start"@, JsonView::Str(clock_text(v.first))),
            ("end"@, JsonView::Str(clock_text(v.last))),
            ("buckets"@, JsonView::Array(Seq::new(v.totals.len(), |b: int| bucket_value(v, b)))),
        ],
    )
}

/// The largest of numbers, but at least one.
pub open spec fn peak_of(totals: Seq<nat>) -> nat
    decreases totals.len(),
{
    if totals.len() == 0 {
        1
    } else if totals.last() > peak_of(totals.drop_last()) {
        totals.last()
    } else {
        peak_of(totals.drop_last())
    }
}

/// A bucket on a line: when it begins, how many points it holds, a bar of up to 40 blocks, and
/// how many errors it holds.
pub open spec fn bucket_line(v: VolumeView, b: int) -> Seq<char> {
    clock_text((v.first + b * v.width) as i64) + "  "@ + right_set(decimal(v.totals[b]), 6) + " "@ + run_of(
        '█',
        v.totals[b] as int * 40 / peak_of(v.totals) as int,
    ) + if v.errors[b] > 0 {
        "  err "@ + decimal(v.errors[b])
    } else {
        ""@
    }
}

/// Volume over time as lines.
pub open spec fn volume_lines(v: VolumeView) -> Seq<Seq<char>> {
    let secs = if v.width as int / 1000 > 1 {
        v.width as int / 1000
    } else {
        1
    };
    seq![
        decimal(v.points) + " records over "@ + clock_text(v.first) + " → "@ + clock_text(v.last)
            + "  (bucket "@ + int_text(secs) + "s)\n"@,
    ] + Seq::new(v.totals.len(), |b: int| bucket_line(v, b))
}

/// Record volume over time.
pub open spec fn timeline_output(recs: Seq<RecordView>, buckets: int, json_out: bool) -> OutputView {
    let pts = points(recs);
    if pts.len() == 0 {
        if json_out {
            OutputView::Value(
                JsonView::Object(
                    seq![
                        ("buckets"@, JsonView::Array(Seq::<JsonView>::empty())),
                        ("note"@, JsonView::Str("no parseable timestamps"@)),
                    ],
                ),
            )
        } else {
            OutputView::Lines(seq!["no parseable timestamps"@])
        }
    } else {
        let v = volume_of(pts, bucket_count(buckets) as nat);
        if json_out {
            OutputView::Value(volume_value(v))
        } else {
            OutputView::Lines(volume_lines(v))
        }
    }
}

fn nothing_dated(json_out: bool) -> (r: Output)
    ensures
        r@ == timeline_output(Seq::<RecordView>::empty(), 1, json_out),
{
    if json_out {
        let none: Vec<Json> = Vec::new();
        assert(items(none@) =~= Seq::<JsonView>::empty());
        let mut o: Vec<(String, Json)> = Vec::new();
        push_field(&mut o, "buckets", array(none));
        push_field(&mut o, "note", str_value("no parseable timestamps"));
        assert(fields(o@) =~= (timeline_output(Seq::<RecordView>::empty(), 1, json_out)->Value_0)->Object_0);
        Output::Value(object(o))
    } else {
        let mut out: Vec<String> = Vec::new();
        push_text(&mut out, owned("no parseable timestamps"));
        assert(texts(out@) =~= seq!["no parseable timestamps"@]);
        Output::Lines(out)
    }
}

proof fn lemma_start(first: int, width: int, n: int, b: int)
    requires
        millis_in_calendar(first),
        0 < width,
        n * width <= bucket_limit() + 20_000_000_000_000_000,
        0 <= b < n,
    ensures
        0 <= b * width,
        b * width <= bucket_limit() + 20_000_000_000_000_000,
        i64::MIN <= first + b * width <= i64::MAX,
{
    assert(0 <= b * width && b * width <= n * width) by (nonlinear_arith)
        requires
            0 < width,
            0 <= b < n,
    ;
}

fn start_of(v: &Volume, b: usize) -> (r: i64)
    requires
        millis_in_calendar(v.first as int),
        0 < v.width,
        v.totals@.len() * v.width <= bucket_limit() + 20_000_000_000_000_000,
        b < v.totals@.len() <= bucket_limit(),
    ensures
        r == v.first + b * v.width,
{
    proof {
        lemma_start(v.first as int, v.width as int, v.totals@.len() as int, b as int);
    }
    v.first + b as i64 * v.width
}

/// Makes volume over time JSON.
pub fn pack_volume(v: &Volume) -> (r: Json)
    requires
        v.errors@.len() == v.totals@.len(),
        millis_in_calendar(v.first as int),
        0 < v.width,
        v.totals@.len() * v.width <= bucket_limit() + 20_000_000_000_000_000,
        v.totals@.len() <= bucket_limit(),
    ensures
        r@ == volume_value(v@),
{
    let ghost whole = Seq::new(v@.totals.len(), |b: int| bucket_value(v@, b));
    let mut out: Vec<Json> = Vec::new();
    let n: usize = v.totals.len();
    for b in 0..n
        invariant
            n == v.totals@.len(),
            v.errors@.len() == v.totals@.len(),
            millis_in_calendar(v.first as int),
            0 < v.width,
            v.totals@.len() * v.width <= bucket_limit() + 20_000_000_000_000_000,
            v.totals@.len() <= bucket_limit(),
            whole == Seq::new(v@.totals.len(), |b: int| bucket_value(v@, b)),
            items(out@) == whole.take(b as int),
    {
        let ghost so_far = items(out@);
        let mut o: Vec<(String, Json)> = Vec::new();
        push_field(&mut o, "start_ms", int_value(start_of(v, b)));
        push_field(&mut o, "count", size_value(v.totals[b]));
        push_field(&mut o, "errors", size_value(v.errors[b]));
        assert(fields(o@) =~= bucket_value(v@, b as int)->Object_0);
        push_item(&mut out, object(o));
        assert(whole.take(b as int + 1) =~= so_far.push(whole[b as int]));
    }
    assert(whole.take(n as int) =~= whole);
    let mut o: Vec<(String, Json)> = Vec::new();
    push_field(&mut o, "bucket_secs", int_value(v.width / 1000));
    push_field(&mut o, "start", str_value(fmt_ms(v.first).as_str()));
    push_field(&mut o, "end", str_value(fmt_ms(v.last).as_str()));
    push_field(&mut o, "buckets", array(out));
    assert(fields(o@) =~= volume_value(v@)->Object_0);
    object(o)
}

fn find_peak(totals: &Vec<usize>) -> (r: usize)
    ensures
        r == peak_of(nats(totals@)),
        r > 0,
        forall|b: int| 0 <= b < totals@.len() ==> totals@[b] <= r,
{
    let ghost all = nats(totals@);
    let mut peak: usize = 1;
    for b in 0..totals.len()
        invariant
            all == nats(totals@),
            peak == peak_of(all.take(b as int)),
            peak > 0,
            forall|k: int| 0 <= k < b ==> totals@[k] <= peak,
    {
        assert(all.take(b as int + 1).drop_last() =~= all.take(b as int));
        assert(all.take(b as int + 1).last() == totals@[b as int]);
        if totals[b] > peak {
            peak = totals[b];
        }
    }
    assert(all.take(totals@.len() as int) =~= all);
    peak
}

fn print_bucket(v: &Volume, b: usize, peak: usize) -> (r: String)
    requires
        v.errors@.len() == v.totals@.len(),
        millis_in_calendar(v.first as int),
        0 < v.width,
        v.totals@.len() * v.width <= bucket_limit() + 20_000_000_000_000_000,
        b < v.totals@.len() <= bucket_limit(),
        peak == peak_of(v@.totals),
        peak > 0,
        v.totals@[b as int] <= peak,
    ensures
        r@ == bucket_line(v@, b as int),
{
    let mut s = fmt_ms(start_of(v, b));
    s.append("  ");
    s.append(pad_left(size_to_text(v.totals[b]).as_str(), 6).as_str());
    s.append(" ");
    let t: u128 = v.totals[b] as u128 * 40;
    let cells: u128 = t / peak as u128;
    proof {
        let a = t as int;
        let p = peak as int;
        let c = cells as int;
        assert(c <= 40) by (nonlinear_arith)
            requires
                c == a / p,
                a <= p * 40,
                p > 0,
        ;
    }
    s.append(repeat_char('█', cells as usize).as_str());
    if v.errors[b] > 0 {
        let mut e = owned("  err ");
        e.append(size_to_text(v.errors[b]).as_str());
        s.append(e.as_str());
    } else {
        s.append("");
    }
    s
}

/// Prints volume over time as lines.
pub fn print_volume(v: &Volume) -> (r: Vec<String>)
    requires
        v.errors@.len() == v.totals@.len(),
        millis_in_calendar(v.first as int),
        0 < v.width,
        v.totals@.len() * v.width <= bucket_limit() + 20_000_000_000_000_000,
        v.totals@.len() <= bucket_limit(),
    ensures
        texts(r@) == volume_lines(v@),
{
    let peak = find_peak(&v.totals);
    let secs: i64 = if v.width / 1000 > 1 {
        v.width / 1000
    } else {
        1
    };
    let mut s = size_to_text(v.points);
    s.append(" records over ");
    s.append(fmt_ms(v.first).as_str());
    s.append(" → ");
    s.append(fmt_ms(v.last).as_str());
    s.append("  (bucket ");
    s.append(int_to_text(secs).as_str());
    s.append("s)\n");
    let ghost head = seq![s@];
    let ghost whole = Seq::new(v@.totals.len(), |b: int| bucket_line(v@, b));
    let mut out: Vec<String> = Vec::new();
    push_text(&mut out, s);
    assert(texts(out@) =~= head + whole.take(0));
    let n: usize = v.totals.len();
    for b in 0..n
        invariant
            n == v.totals@.len(),
            v.errors@.len() == v.totals@.len(),
            millis_in_calendar(v.first as int),
            0 < v.width,
            v.totals@.len() * v.width <= bucket_limit() + 20_000_000_000_000_000,
            v.totals@.len() <= bucket_limit(),
            peak == peak_of(v@.totals),
            peak > 0,
            forall|b: int| 0 <= b < v.totals@.len() ==> v.totals@[b] <= peak,
            whole == Seq::new(v@.totals.len(), |b: int| bucket_line(v@, b)),
            texts(out@) == head + whole.take(b as int),
    {
        let ghost so_far = texts(out@);
        push_text(&mut out, print_bucket(v, b, peak));
        assert(head + whole.take(b as int + 1) =~= so_far.push(whole[b as int]));
    }
    assert(whole.take(n as int) =~= whole);
    out
}

/// Whether a timeline can be made: there is nothing to count, or the counts fit into memory.
pub open spec fn countable(recs: Seq<RecordView>, buckets: int) -> bool {
    points(recs).len() == 0 || buckets <= bucket_limit()
}

/// Tells whether a timeline can be made.
pub fn can_count(recs: &[Record], buckets: usize) -> (r: bool)
    ensures
        r == countable(records(recs@), buckets as int),
{
    if buckets <= isize::MAX as usize / 8 {
        return true;
    }
    let pts = find_points(recs);
    assert(point_views(pts@).len() == pts@.len());
    pts.len() == 0
}

/// Shows record volume over time.
pub fn timeline(recs: &[Record], buckets: usize, json_out: bool) -> (r: Output)
    requires
        countable(records(recs@), buckets as int),
    ensures
        r@ == timeline_output(records(recs@), buckets as int, json_out),
{
    let pts = find_points(recs);
    assert(point_views(pts@).len() == pts@.len());
    if pts.len() == 0 {
        return nothing_dated(json_out);
    }
    let n: usize = if buckets > 1 {
        buckets
    } else {
        1
    };
    let v = measure(&pts, n);
    if json_out {
        Output::Value(pack_volume(&v))
    } else {
        Output::Lines(print_volume(&v))
    }
}

} // verus!
