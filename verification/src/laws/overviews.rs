//! Laws of the views that look at records as a whole: counts, clusters and volume over time.

use super::groups::{occurrences, ranking_shares_everything_out};
use super::listings::at_error_level;
use crate::json::{first_field_counts, json_int, json_strings, member, str_at, JsonView};
use crate::number::{decimal, int_text, right_set, run_of};
use crate::order::{ranked_groups, text_before, GroupView};
use crate::record::{epoch_millis, millis_in_calendar, one_line, short_time, signature, RecordView};
use crate::text::{begins, cut_back, has_text, joined, opt_text, CharSet};
use crate::views::shape::{
    bucket_errors, bucket_line, bucket_of, bucket_total, bucket_value, bucket_width, clock_text, earliest, latest,
    levels_at, pattern_line, pattern_value, peak_of, points, points_lie_between, volume_of, volume_value,
    wanted_levels, VolumeView,
};
use crate::views::summary::{
    cluster_line, cluster_value, count_line, count_lines, count_values, logger_lines, named, pattern_lines,
    range_lines, range_value, summary_value, time_range, time_range_bounds, top,
};
use crate::views::{
    accepts, clusters, key_of, picks, picks_are_the_wanted, signatures, tally, view_output, Key, OutputView,
    WantView,
};
use vstd::prelude::*;

verus! {

/// How many records are wanted.
pub open spec fn how_many(recs: Seq<RecordView>, wanted: spec_fn(RecordView) -> bool) -> nat {
    recs.filter(wanted).len()
}

/// Whether a record has a name.
pub open spec fn named_so(what: spec_fn(RecordView) -> Seq<char>, name: Seq<char>) -> spec_fn(RecordView) -> bool {
    |r: RecordView| what(r) == name
}

/// Whether a list of names and numbers counts the records by something that they have: every name
/// that occurs stands in it once, with how many records have it, and the frequent ones come first.
pub open spec fn counts_by(t: Seq<(Seq<char>, int)>, recs: Seq<RecordView>, what: spec_fn(RecordView) -> Seq<char>) -> bool {
    &&& forall|k: int|
        0 <= k < t.len() ==> (#[trigger] t[k]).1 == how_many(recs, named_so(what, t[k].0)) && t[k].1 > 0
    &&& forall|i: int| 0 <= i < recs.len() ==> exists|k: int| 0 <= k < t.len() && (#[trigger] t[k]).0 == what(#[trigger] recs[i])
    &&& forall|k: int, l: int| 0 <= k < l < t.len() ==> (#[trigger] t[k]).0 != (#[trigger] t[l]).0 && t[k].1 >= t[l].1
}

proof fn lemma_occurrences(recs: Seq<RecordView>, what: spec_fn(RecordView) -> Seq<char>, name: Seq<char>)
    ensures
        occurrences(recs.map_values(what), name) == how_many(recs, named_so(what, name)),
    decreases recs.len(),
{
    reveal(Seq::filter);
    if recs.len() > 0 {
        lemma_occurrences(recs.drop_last(), what, name);
        assert(recs.map_values(what).drop_last() =~= recs.drop_last().map_values(what));
    }
}

proof fn lemma_tally(recs: Seq<RecordView>, key: Key, what: spec_fn(RecordView) -> Seq<char>)
    requires
        forall|r: RecordView| #[trigger] key_of(r, key) == what(r),
    ensures
        counts_by(tally(recs, key), recs, what),
{
    let keys = recs.map_values(|r: RecordView| key_of(r, key));
    let groups = ranked_groups(keys);
    let t = tally(recs, key);
    assert(keys =~= recs.map_values(what));
    ranking_shares_everything_out(keys);
    assert forall|k: int| 0 <= k < t.len() implies (#[trigger] t[k]).1 == how_many(
        recs,
        named_so(what, t[k].0),
    ) && t[k].1 > 0 by {
        assert(groups[k].members.len() == occurrences(keys, groups[k].key));
        lemma_occurrences(recs, what, t[k].0);
    }
    assert forall|i: int| 0 <= i < recs.len() implies exists|k: int|
        0 <= k < t.len() && (#[trigger] t[k]).0 == what(#[trigger] recs[i]) by {
        assert(keys[i] == what(recs[i]));
        let g = choose|g: int|
            0 <= g < groups.len() && (#[trigger] groups[g]).key == keys[i] && groups[g].members.contains(i);
        assert(t[g].0 == what(recs[i]));
    }
    assert forall|k: int, l: int| 0 <= k < l < t.len() implies (#[trigger] t[k]).0 != (#[trigger] t[l]).0 && t[k].1
        >= t[l].1 by {
        assert(groups[k].key != groups[l].key);
    }
}

/// The level of a record.
pub open spec fn by_level() -> spec_fn(RecordView) -> Seq<char> {
    |r: RecordView| r.level
}

/// The service of a record.
pub open spec fn by_service() -> spec_fn(RecordView) -> Seq<char> {
    |r: RecordView| r.service
}

/// The logger of a record.
pub open spec fn by_logger() -> spec_fn(RecordView) -> Seq<char> {
    |r: RecordView| r.logger
}

/// Counting goes by what the records have: their levels, their services, their loggers.
pub proof fn counting_goes_by_what_records_have(recs: Seq<RecordView>)
    ensures
        counts_by(tally(recs, Key::Level), recs, by_level()),
        counts_by(tally(recs, Key::Service), recs, by_service()),
        counts_by(tally(recs, Key::Logger), recs, by_logger()),
{
    lemma_tally(recs, Key::Level, by_level());
    lemma_tally(recs, Key::Service, by_service());
    lemma_tally(recs, Key::Logger, by_logger());
}

/// Whether clusters share out the records that are wanted: each holds the places of the records of
/// one signature, in their order, no two have one signature, every wanted record is in one, and
/// the larger ones come first, or else the one that began first.
pub open spec fn shares_out_by_signature(
    c: Seq<GroupView>,
    recs: Seq<RecordView>,
    wanted: spec_fn(RecordView) -> bool,
) -> bool {
    &&& forall|g: int, m: int|
        0 <= g < c.len() && 0 <= m < c[g].members.len() ==> {
            let x = #[trigger] c[g].members[m];
            0 <= x < recs.len() && wanted(recs[x]) && signature(recs[x].msg) == c[g].key
        }
    &&& forall|g: int, m: int, l: int|
        0 <= g < c.len() && 0 <= m < l < c[g].members.len() ==> (#[trigger] c[g].members[m]) < #[trigger] c[g].members[l]
    &&& forall|g: int, h: int| 0 <= g < h < c.len() ==> (#[trigger] c[g]).key != (#[trigger] c[h]).key
    &&& forall|i: int|
        0 <= i < recs.len() && wanted(#[trigger] recs[i]) ==> exists|g: int|
            0 <= g < c.len() && (#[trigger] c[g]).members.contains(i)
    &&& forall|g: int| 0 <= g < c.len() ==> (#[trigger] c[g]).members.len() > 0
    &&& forall|g: int, h: int|
        0 <= g < h < c.len() ==> (#[trigger] c[g]).members.len() > (#[trigger] c[h]).members.len() || (c[g].members.len()
            == c[h].members.len() && c[g].members[0] < c[h].members[0])
}

/// Clusters share out the records that are wanted by their signatures: two such records are in one
/// cluster exactly where they have one signature.
pub proof fn clusters_share_out_by_signature(recs: Seq<RecordView>, w: WantView, wanted: spec_fn(RecordView) -> bool)
    requires
        forall|r: RecordView| #[trigger] accepts(w, r) == wanted(r),
    ensures
        shares_out_by_signature(clusters(recs, w), recs, wanted),
{
    let places = picks(recs, w);
    let keys = signatures(recs, places);
    let groups = ranked_groups(keys);
    let c = clusters(recs, w);
    picks_are_the_wanted(recs, w);
    ranking_shares_everything_out(keys);
    assert forall|g: int| 0 <= g < c.len() implies (#[trigger] c[g]).key == groups[g].key && c[g].members.len()
        == groups[g].members.len() && c[g].members.len() > 0 by {
        assert(groups[g].members.len() > 0);
    }
    assert forall|g: int, m: int| 0 <= g < c.len() && 0 <= m < c[g].members.len() implies {
        let x = #[trigger] c[g].members[m];
        0 <= x < recs.len() && wanted(recs[x]) && signature(recs[x].msg) == c[g].key
    } by {
        let p = groups[g].members[m];
        assert(0 <= p < keys.len() && keys[p] == groups[g].key);
        assert(c[g].members[m] == places[p]);
        assert(accepts(w, recs[places[p]]));
    }
    assert forall|g: int, m: int, l: int| 0 <= g < c.len() && 0 <= m < l < c[g].members.len() implies (
    #[trigger] c[g].members[m]) < #[trigger] c[g].members[l] by {
        let p = groups[g].members[m];
        let q = groups[g].members[l];
        assert(p < q);
        assert(places[p] < places[q]);
    }
    assert forall|g: int, h: int| 0 <= g < h < c.len() implies (#[trigger] c[g]).key != (#[trigger] c[h]).key by {
        assert(groups[g].key != groups[h].key);
    }
    assert forall|i: int| 0 <= i < recs.len() && wanted(#[trigger] recs[i]) implies exists|g: int|
        0 <= g < c.len() && (#[trigger] c[g]).members.contains(i) by {
        assert(accepts(w, recs[i]));
        assert(places.contains(i));
        let p = choose|p: int| 0 <= p < places.len() && places[p] == i;
        assert(keys[p] == signature(recs[i].msg));
        let g = choose|g: int|
            0 <= g < groups.len() && (#[trigger] groups[g]).key == keys[p] && groups[g].members.contains(p);
        let m = choose|m: int| 0 <= m < groups[g].members.len() && groups[g].members[m] == p;
        assert(c[g].members[m] == i);
        assert(c[g].members.contains(i));
    }
    assert forall|g: int, h: int| 0 <= g < h < c.len() implies (#[trigger] c[g]).members.len() > (
    #[trigger] c[h]).members.len() || (c[g].members.len() == c[h].members.len() && c[g].members[0] < c[h].members[0]) by {
        let a = groups[g].members;
        let b = groups[h].members;
        if a.len() == b.len() {
            assert(a[0] < b[0]);
            assert(0 <= a[0] < keys.len());
            assert(0 <= b[0] < keys.len());
            assert(places[a[0]] < places[b[0]]);
        }
    }
}

/// Whether names are the levels at some places, each once.
pub open spec fn are_levels_at(levels: Seq<Seq<char>>, recs: Seq<RecordView>, places: Seq<int>) -> bool {
    &&& levels.no_duplicates()
    &&& forall|k: int| 0 <= k < places.len() ==> levels.contains(recs[#[trigger] places[k]].level)
    &&& forall|x: Seq<char>|
        #[trigger] levels.contains(x) ==> exists|k: int| 0 <= k < places.len() && recs[#[trigger] places[k]].level == x
}

proof fn lemma_levels_at(recs: Seq<RecordView>, places: Seq<int>)
    ensures
        are_levels_at(levels_at(recs, places), recs, places),
    decreases places.len(),
{
    if places.len() > 0 {
        let front = places.drop_last();
        let before = levels_at(recs, front);
        let now = levels_at(recs, places);
        let last = recs[places.last()].level;
        lemma_levels_at(recs, front);
        assert forall|x: Seq<char>| before.contains(x) implies now.contains(x) by {
            let i = choose|i: int| 0 <= i < before.len() && before[i] == x;
            assert(now[i] == x);
        }
        assert(now.contains(last)) by {
            if !has_text(before, last) {
                assert(now[before.len() as int] == last);
            }
        }
        assert forall|k: int| 0 <= k < places.len() implies now.contains(recs[#[trigger] places[k]].level) by {
            if k < places.len() - 1 {
                assert(front[k] == places[k]);
            }
        }
        assert forall|x: Seq<char>| #[trigger] now.contains(x) implies exists|k: int|
            0 <= k < places.len() && recs[#[trigger] places[k]].level == x by {
            if before.contains(x) {
                let k = choose|k: int| 0 <= k < front.len() && recs[#[trigger] front[k]].level == x;
                assert(places[k] == front[k]);
            } else {
                let i = choose|i: int| 0 <= i < now.len() && now[i] == x;
                if i < before.len() {
                    assert(before[i] == x);
                }
                assert(recs[places[places.len() - 1]].level == x);
            }
        }
    }
}

/// Whether a JSON value tells of a cluster: how many messages it has, which signature, the first
/// of them as a sample and where that one stands, and which levels occur.
pub open spec fn tells_of_cluster(j: JsonView, recs: Seq<RecordView>, g: GroupView) -> bool {
    &&& member(j, "count"@) == Some(json_int(g.members.len() as int))
    &&& str_at(j, "sig"@) == Some(g.key)
    &&& str_at(j, "sample"@) == Some(recs[g.members[0]].msg)
    &&& member(j, "first_index"@) == Some(json_int(g.members[0]))
    &&& exists|levels: Seq<Seq<char>>|
        #[trigger] are_levels_at(levels, recs, g.members) && member(j, "levels"@) == Some(json_strings(levels))
}

proof fn lemma_pattern_value(recs: Seq<RecordView>, g: GroupView)
    ensures
        tells_of_cluster(pattern_value(recs, g), recs, g),
{
    let o = pattern_value(recs, g)->Object_0;
    reveal_strlit("count");
    reveal_strlit("levels");
    reveal_strlit("sig");
    reveal_strlit("sample");
    reveal_strlit("first_index");
    assert("levels"@[0] != "sample"@[0]);
    assert(o[0].0 == "count"@ && o[1].0 == "levels"@ && o[2].0 == "sig"@ && o[3].0 == "sample"@ && o[4].0 == "first_index"@);
    first_field_counts(o, "count"@, 0);
    first_field_counts(o, "levels"@, 1);
    first_field_counts(o, "sig"@, 2);
    first_field_counts(o, "sample"@, 3);
    first_field_counts(o, "first_index"@, 4);
    lemma_levels_at(recs, g.members);
}

/// Whether the patterns view looks at a record: at one of the levels that are given, or at any.
pub open spec fn at_wanted_level(level: Option<Seq<char>>) -> spec_fn(RecordView) -> bool {
    |r: RecordView| level is Some ==> at_error_level(false, level)(r)
}

proof fn lemma_wanted_levels(level: Option<Seq<char>>)
    ensures
        forall|r: RecordView| #[trigger] accepts(wanted_levels(level), r) == at_wanted_level(level)(r),
{
    assert forall|r: RecordView| #[trigger] accepts(wanted_levels(level), r) == at_wanted_level(level)(r) by {
        if let Some(list) = level {
            let parts = crate::text::split_at(list, ',');
            let v = crate::views::listed_levels(list);
            if v.contains(r.level) {
                let i = choose|i: int| 0 <= i < v.len() && v[i] == r.level;
                assert(crate::text::uppercase(crate::text::trimmed(parts[i])) == r.level);
            }
            if at_error_level(false, level)(r) {
                let i = choose|i: int|
                    0 <= i < parts.len() && r.level == crate::text::uppercase(
                        crate::text::trimmed(#[trigger] parts[i]),
                    );
                assert(v[i] == r.level);
            }
        }
    }
}

/// The smaller of two numbers.
pub open spec fn at_most(n: int, cap: int) -> int {
    if n <= cap {
        n
    } else {
        cap
    }
}

/// As JSON the patterns view says how many clusters there are and tells of the largest ones, as
/// many as the limit allows.
pub proof fn patterns_tells_of_the_clusters(recs: Seq<RecordView>, limit: usize, level: Option<String>, full: bool)
    ensures
        view_output(recs, crate::cli::View::Patterns { limit, level }, true, full) matches OutputView::Value(j) && (
        member(j, "patterns"@) matches Some(JsonView::Array(a)) && exists|c: Seq<GroupView>|
            #[trigger] shares_out_by_signature(c, recs, at_wanted_level(opt_text(level))) && member(j, "clusters"@)
                == Some(json_int(c.len() as int)) && a.len() == at_most(c.len() as int, limit as int) && forall|k: int|
                0 <= k < a.len() ==> tells_of_cluster(#[trigger] a[k], recs, c[k])),
{
    let w = wanted_levels(opt_text(level));
    let c = clusters(recs, w);
    lemma_wanted_levels(opt_text(level));
    clusters_share_out_by_signature(recs, w, at_wanted_level(opt_text(level)));
    let o = (view_output(recs, crate::cli::View::Patterns { limit, level }, true, full)->Value_0)->Object_0;
    reveal_strlit("clusters");
    reveal_strlit("patterns");
    assert("clusters"@[0] != "patterns"@[0]);
    assert(o[0].0 == "clusters"@ && o[1].0 == "patterns"@);
    first_field_counts(o, "clusters"@, 0);
    first_field_counts(o, "patterns"@, 1);
    let a = o[1].1->Array_0;
    assert forall|k: int| 0 <= k < a.len() implies tells_of_cluster(#[trigger] a[k], recs, c[k]) by {
        lemma_pattern_value(recs, c[k]);
    }
    assert(shares_out_by_signature(c, recs, at_wanted_level(opt_text(level))));
}

/// A message as a view shows it in one line, or in full.
pub open spec fn shown_at(msg: Seq<char>, full: bool, width: int) -> Seq<char> {
    if full {
        cut_back(msg, CharSet::Space)
    } else {
        one_line(msg, width)
    }
}

/// Whether a line tells of a cluster: how many messages, at which levels, where the first one
/// stands, and that message.
pub open spec fn prints_cluster(line: Seq<char>, recs: Seq<RecordView>, g: GroupView, full: bool) -> bool {
    exists|levels: Seq<Seq<char>>|
        #[trigger] are_levels_at(levels, recs, g.members) && line == right_set(decimal(g.members.len()), 6) + "x ["@
            + joined(levels, "/"@) + "] #"@ + decimal(g.members[0] as nat) + "  "@ + shown_at(
            recs[g.members[0]].msg,
            full,
            120,
        )
}

proof fn lemma_pattern_line(recs: Seq<RecordView>, g: GroupView, full: bool)
    ensures
        prints_cluster(pattern_line(recs, g, full), recs, g, full),
{
    lemma_levels_at(recs, g.members);
    assert(are_levels_at(levels_at(recs, g.members), recs, g.members));
}

/// As text the patterns view says how many clusters there are, and has a line for each of the
/// largest ones.
pub proof fn patterns_prints_the_clusters(recs: Seq<RecordView>, limit: usize, level: Option<String>, full: bool)
    ensures
        view_output(recs, crate::cli::View::Patterns { limit, level }, false, full) matches OutputView::Lines(v)
            && exists|c: Seq<GroupView>|
            #[trigger] shares_out_by_signature(c, recs, at_wanted_level(opt_text(level))) && v.len() == 1 + at_most(
                c.len() as int,
                limit as int,
            ) && v[0] == decimal(c.len()) + " distinct pattern(s)\n"@ && forall|k: int|
                0 <= k < v.len() - 1 ==> prints_cluster(#[trigger] v[1 + k], recs, c[k], full),
{
    let w = wanted_levels(opt_text(level));
    let c = clusters(recs, w);
    lemma_wanted_levels(opt_text(level));
    clusters_share_out_by_signature(recs, w, at_wanted_level(opt_text(level)));
    let v = view_output(recs, crate::cli::View::Patterns { limit, level }, false, full)->Lines_0;
    assert forall|k: int| 0 <= k < v.len() - 1 implies prints_cluster(#[trigger] v[1 + k], recs, c[k], full) by {
        lemma_pattern_line(recs, c[k], full);
        assert(v[1 + k] == pattern_line(recs, c[k], full));
    }
    assert(shares_out_by_signature(c, recs, at_wanted_level(opt_text(level))));
}

/// Whether a list of JSON values tells of names and numbers, one by one.
pub open spec fn tells_of_counts(a: Seq<JsonView>, t: Seq<(Seq<char>, int)>) -> bool {
    &&& a.len() == t.len()
    &&& forall|k: int|
        0 <= k < t.len() ==> str_at(#[trigger] a[k], "name"@) == Some(t[k].0) && member(a[k], "count"@) == Some(
            json_int(t[k].1),
        )
}

proof fn lemma_count_values(t: Seq<(Seq<char>, int)>)
    ensures
        count_values(t) matches JsonView::Array(a) && tells_of_counts(a, t),
{
    let a = count_values(t)->Array_0;
    assert forall|k: int| 0 <= k < t.len() implies str_at(#[trigger] a[k], "name"@) == Some(t[k].0) && member(
        a[k],
        "count"@,
    ) == Some(json_int(t[k].1)) by {
        let o = a[k]->Object_0;
        reveal_strlit("name");
        reveal_strlit("count");
        assert(o[0].0 == "name"@ && o[1].0 == "count"@);
        first_field_counts(o, "name"@, 0);
        first_field_counts(o, "count"@, 1);
    }
}

/// Whether a record is an error or a warning.
pub open spec fn alarms() -> spec_fn(RecordView) -> bool {
    |r: RecordView| r.level == "ERROR"@ || r.level == "WARN"@ || r.level == "FATAL"@
}

proof fn lemma_alarms(recs: Seq<RecordView>)
    ensures
        picks(recs, WantView::Alarm).len() == how_many(recs, alarms()),
    decreases recs.len(),
{
    reveal(Seq::filter);
    if recs.len() > 0 {
        lemma_alarms(recs.drop_last());
    }
}

/// Whether a time is the earliest of the records that have one.
pub open spec fn is_earliest(recs: Seq<RecordView>, ts: Seq<char>) -> bool {
    &&& exists|i: int| 0 <= i < recs.len() && (#[trigger] recs[i]).ts == ts && ts.len() > 0
    &&& forall|i: int| 0 <= i < recs.len() && (#[trigger] recs[i]).ts.len() > 0 ==> !text_before(recs[i].ts, ts)
}

/// Whether a time is the latest of the records that have one.
pub open spec fn is_latest(recs: Seq<RecordView>, ts: Seq<char>) -> bool {
    &&& exists|i: int| 0 <= i < recs.len() && (#[trigger] recs[i]).ts == ts && ts.len() > 0
    &&& forall|i: int| 0 <= i < recs.len() && (#[trigger] recs[i]).ts.len() > 0 ==> !text_before(ts, recs[i].ts)
}

proof fn lemma_ends_occur(recs: Seq<RecordView>)
    ensures
        time_range(recs) matches Some((a, b)) ==> (exists|i: int|
            0 <= i < recs.len() && (#[trigger] recs[i]).ts == a && a.len() > 0) && (exists|i: int|
            0 <= i < recs.len() && (#[trigger] recs[i]).ts == b && b.len() > 0),
    decreases recs.len(),
{
    if recs.len() > 0 {
        let front = recs.drop_last();
        lemma_ends_occur(front);
        assert(recs[recs.len() - 1] == recs.last());
        if let Some((a, b)) = time_range(recs) {
            if let Some((c, d)) = time_range(front) {
                let i = choose|i: int| 0 <= i < front.len() && (#[trigger] front[i]).ts == c && c.len() > 0;
                let j = choose|j: int| 0 <= j < front.len() && (#[trigger] front[j]).ts == d && d.len() > 0;
                assert(recs[i].ts == c && recs[j].ts == d);
            }
        }
    }
}

/// The range of a summary runs from the earliest to the latest time that a record has.
pub proof fn the_range_runs_from_the_earliest_to_the_latest(recs: Seq<RecordView>)
    ensures
        match time_range(recs) {
            Some((a, b)) => is_earliest(recs, a) && is_latest(recs, b),
            None => forall|i: int| 0 <= i < recs.len() ==> (#[trigger] recs[i]).ts.len() == 0,
        },
{
    time_range_bounds(recs);
    lemma_ends_occur(recs);
}

/// Whether a JSON value tells of a cluster in a summary: how many messages, the level and the text
/// of the first of them, and the signature.
pub open spec fn sums_up_cluster(j: JsonView, recs: Seq<RecordView>, g: GroupView) -> bool {
    &&& member(j, "count"@) == Some(json_int(g.members.len() as int))
    &&& str_at(j, "level"@) == Some(recs[g.members[0]].level)
    &&& str_at(j, "sig"@) == Some(g.key)
    &&& str_at(j, "sample"@) == Some(recs[g.members[0]].msg)
}

proof fn lemma_cluster_value(recs: Seq<RecordView>, g: GroupView)
    ensures
        sums_up_cluster(cluster_value(recs, g), recs, g),
{
    let o = cluster_value(recs, g)->Object_0;
    reveal_strlit("count");
    reveal_strlit("level");
    reveal_strlit("sig");
    reveal_strlit("sample");
    assert("count"@[0] != "level"@[0]);
    assert(o[0].0 == "count"@ && o[1].0 == "level"@ && o[2].0 == "sig"@ && o[3].0 == "sample"@);
    first_field_counts(o, "count"@, 0);
    first_field_counts(o, "level"@, 1);
    first_field_counts(o, "sig"@, 2);
    first_field_counts(o, "sample"@, 3);
}

proof fn lemma_named(t: Seq<(Seq<char>, int)>)
    ensures
        named(t) == t.filter(|c: (Seq<char>, int)| c.0.len() > 0),
    decreases t.len(),
{
    reveal(Seq::filter);
    if t.len() > 0 {
        lemma_named(t.drop_last());
    } else {
        assert(named(t) =~= t.filter(|c: (Seq<char>, int)| c.0.len() > 0));
    }
}

/// As JSON the summary says how many records there are, how many are errors or warnings, and how
/// many there are of each level, of the fifteen most frequent services and of the ten most
/// frequent loggers that have a name.
pub proof fn the_summary_counts(recs: Seq<RecordView>, full: bool)
    ensures
        view_output(recs, crate::cli::View::Summary, true, full) matches OutputView::Value(j) && member(j, "records"@)
            == Some(json_int(recs.len() as int)) && member(j, "error_warn_total"@) == Some(
            json_int(how_many(recs, alarms()) as int),
        ) && (member(j, "levels"@) matches Some(JsonView::Array(a)) && exists|t: Seq<(Seq<char>, int)>|
            #[trigger] counts_by(t, recs, by_level()) && tells_of_counts(a, t)) && (member(
            j,
            "services"@,
        ) matches Some(JsonView::Array(a)) && exists|t: Seq<(Seq<char>, int)>|
            #[trigger] counts_by(t, recs, by_service()) && tells_of_counts(
                a,
                t.take(at_most(t.len() as int, 15)),
            )) && (member(j, "loggers"@) matches Some(JsonView::Array(a)) && exists|t: Seq<(Seq<char>, int)>|
            #[trigger] counts_by(t, recs, by_logger()) && {
                let n = t.filter(|c: (Seq<char>, int)| c.0.len() > 0);
                tells_of_counts(a, n.take(at_most(n.len() as int, 10)))
            }),
{
    counting_goes_by_what_records_have(recs);
    lemma_alarms(recs);
    let levels = tally(recs, Key::Level);
    let services = tally(recs, Key::Service);
    let loggers = tally(recs, Key::Logger);
    lemma_count_values(levels);
    lemma_count_values(top(services, 15));
    lemma_count_values(top(named(loggers), 10));
    lemma_named(loggers);
    let o = summary_value(recs)->Object_0;
    reveal_strlit("records");
    reveal_strlit("range");
    reveal_strlit("levels");
    reveal_strlit("services");
    reveal_strlit("loggers");
    reveal_strlit("error_warn_total");
    reveal_strlit("patterns");
    assert("records"@[0] != "loggers"@[0]);
    assert("services"@[0] != "patterns"@[0]);
    assert(o[0].0 == "records"@ && o[1].0 == "range"@ && o[2].0 == "levels"@ && o[3].0 == "services"@ && o[4].0 == "loggers"@ && o[5].0 == "error_warn_total"@ && o[6].0 == "patterns"@);
    first_field_counts(o, "records"@, 0);
    first_field_counts(o, "range"@, 1);
    first_field_counts(o, "levels"@, 2);
    first_field_counts(o, "services"@, 3);
    first_field_counts(o, "loggers"@, 4);
    first_field_counts(o, "error_warn_total"@, 5);
    first_field_counts(o, "patterns"@, 6);
    assert(counts_by(levels, recs, by_level()));
    assert(counts_by(services, recs, by_service()));
    assert(counts_by(loggers, recs, by_logger()));
}

/// As JSON the summary gives the range from the earliest to the latest time, or null where no
/// record has one, and tells of the fifteen largest clusters of errors and warnings.
pub proof fn the_summary_tells_of_range_and_clusters(recs: Seq<RecordView>, full: bool)
    ensures
        view_output(recs, crate::cli::View::Summary, true, full) matches OutputView::Value(j) && (match time_range(
            recs,
        ) {
            Some((a, b)) => is_earliest(recs, a) && is_latest(recs, b) && (member(j, "range"@) matches Some(range)
                && str_at(range, "start"@) == Some(short_time(a)) && str_at(range, "end"@) == Some(short_time(b))),
            None => member(j, "range"@) == Some(JsonView::Null),
        }) && (member(j, "patterns"@) matches Some(JsonView::Array(a)) && exists|c: Seq<GroupView>|
            #[trigger] shares_out_by_signature(c, recs, alarms()) && a.len() == at_most(
                c.len() as int,
                15,
            ) && forall|k: int| 0 <= k < a.len() ==> sums_up_cluster(#[trigger] a[k], recs, c[k])),
{
    the_range_runs_from_the_earliest_to_the_latest(recs);
    let c = clusters(recs, WantView::Alarm);
    clusters_share_out_by_signature(recs, WantView::Alarm, alarms());
    let o = summary_value(recs)->Object_0;
    reveal_strlit("records");
    reveal_strlit("range");
    reveal_strlit("levels");
    reveal_strlit("services");
    reveal_strlit("loggers");
    reveal_strlit("error_warn_total");
    reveal_strlit("patterns");
    assert("records"@[0] != "loggers"@[0]);
    assert("services"@[0] != "patterns"@[0]);
    assert(o[0].0 == "records"@ && o[1].0 == "range"@ && o[2].0 == "levels"@ && o[3].0 == "services"@ && o[4].0 == "loggers"@ && o[5].0 == "error_warn_total"@ && o[6].0 == "patterns"@);
    first_field_counts(o, "records"@, 0);
    first_field_counts(o, "range"@, 1);
    first_field_counts(o, "levels"@, 2);
    first_field_counts(o, "services"@, 3);
    first_field_counts(o, "loggers"@, 4);
    first_field_counts(o, "error_warn_total"@, 5);
    first_field_counts(o, "patterns"@, 6);
    if time_range(recs) is Some {
        let p = range_value(recs)->Object_0;
        reveal_strlit("start");
        reveal_strlit("end");
        assert(p[0].0 == "start"@ && p[1].0 == "end"@);
        first_field_counts(p, "start"@, 0);
        first_field_counts(p, "end"@, 1);
    }
    let a = o[6].1->Array_0;
    assert forall|k: int| 0 <= k < a.len() implies sums_up_cluster(#[trigger] a[k], recs, c[k]) by {
        lemma_cluster_value(recs, c[k]);
    }
    assert(shares_out_by_signature(c, recs, alarms()));
}

/// Whether lines count names under a heading: the heading, and then a line for each of them with
/// its number and its name.
pub open spec fn counts_under(lines: Seq<Seq<char>>, heading: Seq<char>, t: Seq<(Seq<char>, int)>) -> bool {
    exists|at: int|
        0 <= at && at + t.len() < lines.len() && #[trigger] lines[at] == heading && forall|k: int|
            0 <= k < t.len() ==> #[trigger] lines[at + 1 + k] == "  "@ + right_set(decimal(t[k].1 as nat), 6) + "  "@
                + t[k].0
}

proof fn lemma_counts_under(before: Seq<Seq<char>>, heading: Seq<char>, t: Seq<(Seq<char>, int)>, after: Seq<Seq<char>>)
    ensures
        counts_under(before + seq![heading] + count_lines(t) + after, heading, t),
{
    let lines = before + seq![heading] + count_lines(t) + after;
    let at = before.len() as int;
    assert(lines[at] == heading);
    assert forall|k: int| 0 <= k < t.len() implies #[trigger] lines[at + 1 + k] == "  "@ + right_set(
        decimal(t[k].1 as nat),
        6,
    ) + "  "@ + t[k].0 by {
        assert(lines[at + 1 + k] == count_lines(t)[k]);
        assert(count_lines(t)[k] == count_line(t[k]));
    }
}

/// As text the summary of some records says how many they are and counts them by level and by
/// service, each under its heading.
pub proof fn the_summary_prints_its_counts(recs: Seq<RecordView>, full: bool)
    requires
        recs.len() > 0,
    ensures
        view_output(recs, crate::cli::View::Summary, false, full) matches OutputView::Lines(v) && v.len() > 0 && v[0]
            == "records: "@ + decimal(recs.len()) && (exists|t: Seq<(Seq<char>, int)>|
            #[trigger] counts_by(t, recs, by_level()) && counts_under(v, "\nlevels:"@, t)) && (exists|
            t: Seq<(Seq<char>, int)>,
        |
            #[trigger] counts_by(t, recs, by_service()) && counts_under(
                v,
                "\nservices:"@,
                t.take(at_most(t.len() as int, 15)),
            )),
{
    counting_goes_by_what_records_have(recs);
    let v = view_output(recs, crate::cli::View::Summary, false, full)->Lines_0;
    let levels = tally(recs, Key::Level);
    let services = top(tally(recs, Key::Service), 15);
    let front = seq!["records: "@ + decimal(recs.len())] + range_lines(recs);
    let end = logger_lines(recs) + pattern_lines(recs, full);
    let mid = seq!["\nservices:"@] + count_lines(services);
    assert(v =~= front + seq!["\nlevels:"@] + count_lines(levels) + (mid + end));
    lemma_counts_under(front, "\nlevels:"@, levels, mid + end);
    let more = front + seq!["\nlevels:"@] + count_lines(levels);
    assert(v =~= more + seq!["\nservices:"@] + count_lines(services) + end);
    lemma_counts_under(more, "\nservices:"@, services, end);
    assert(counts_by(levels, recs, by_level()));
    assert(counts_by(tally(recs, Key::Service), recs, by_service()));
}

/// As text the summary prints the fifteen largest clusters of errors and warnings, under a heading
/// that says how many there are together: how many messages, at which level, and the first one.
pub proof fn the_summary_prints_its_clusters(recs: Seq<RecordView>, full: bool)
    requires
        how_many(recs, alarms()) > 0,
    ensures
        view_output(recs, crate::cli::View::Summary, false, full) matches OutputView::Lines(v) && exists|
            c: Seq<GroupView>,
            at: int,
        |
            #[trigger] shares_out_by_signature(c, recs, alarms()) && 0 <= at && v.len() == at + 1
                + at_most(c.len() as int, 15) && #[trigger] v[at] == "\ntop error/warn patterns ("@ + decimal(
                how_many(recs, alarms()),
            ) + " total):"@ && forall|k: int|
                0 <= k < at_most(c.len() as int, 15) ==> #[trigger] v[at + 1 + k] == "  "@ + right_set(
                    decimal(c[k].members.len()),
                    5,
                ) + "x ["@ + recs[c[k].members[0]].level + "] "@ + shown_at(recs[c[k].members[0]].msg, full, 120),
{
    lemma_alarms(recs);
    let c = clusters(recs, WantView::Alarm);
    clusters_share_out_by_signature(recs, WantView::Alarm, alarms());
    let v = view_output(recs, crate::cli::View::Summary, false, full)->Lines_0;
    let p = pattern_lines(recs, full);
    let at = v.len() - p.len();
    assert(recs.len() > 0) by {
        if recs.len() == 0 {
            reveal(Seq::filter);
        }
    }
    assert(v[at] == p[0]);
    assert forall|k: int| 0 <= k < at_most(c.len() as int, 15) implies #[trigger] v[at + 1 + k] == "  "@ + right_set(
        decimal(c[k].members.len()),
        5,
    ) + "x ["@ + recs[c[k].members[0]].level + "] "@ + shown_at(recs[c[k].members[0]].msg, full, 120) by {
        assert(v[at + 1 + k] == p[1 + k]);
        assert(p[1 + k] == cluster_line(recs, c[k], full));
    }
    assert(shares_out_by_signature(c, recs, alarms()));
}

/// Whether a time falls into a bucket: from its start on and before the next one, and the last
/// bucket takes what comes after.
pub open spec fn in_bucket(ms: int, first: int, width: int, n: int, b: int) -> bool {
    first + b * width <= ms && (b == n - 1 || ms < first + (b + 1) * width)
}

proof fn lemma_in_bucket(ms: int, first: int, width: int, n: int, b: int)
    requires
        first <= ms,
        width > 0,
        0 <= b < n,
    ensures
        bucket_of(ms, first, width, n) == b <==> in_bucket(ms, first, width, n, b),
{
    let d = ms - first;
    let q = d / width;
    assert(q * width <= d < (q + 1) * width) by (nonlinear_arith)
        requires
            width > 0,
            q == d / width,
    ;
    assert(q >= 0) by (nonlinear_arith)
        requires
            d >= 0,
            width > 0,
            q == d / width,
    ;
    if q < b {
        assert((q + 1) * width <= b * width) by (nonlinear_arith)
            requires
                q + 1 <= b,
                width > 0,
        ;
    } else if q > b {
        assert((b + 1) * width <= q * width) by (nonlinear_arith)
            requires
                b + 1 <= q,
                width > 0,
        ;
        assert(b * width <= (b + 1) * width) by (nonlinear_arith)
            requires
                width > 0,
        ;
    }
}

/// Whether a record has a time that falls into a bucket.
pub open spec fn dated_in(first: int, width: int, n: int, b: int) -> spec_fn(RecordView) -> bool {
    |r: RecordView| epoch_millis(r.ts) matches Some(ms) && in_bucket(ms, first, width, n, b)
}

/// Whether a record is an error with a time that falls into a bucket.
pub open spec fn error_in(first: int, width: int, n: int, b: int) -> spec_fn(RecordView) -> bool {
    |r: RecordView| dated_in(first, width, n, b)(r) && (r.level == "ERROR"@ || r.level == "FATAL"@)
}

proof fn lemma_buckets_count(recs: Seq<RecordView>, first: int, width: int, n: int, b: int)
    requires
        width > 0,
        0 <= b < n,
        forall|i: int| 0 <= i < points(recs).len() ==> first <= #[trigger] points(recs)[i].0,
    ensures
        bucket_total(points(recs), first, width, n, b) == how_many(recs, dated_in(first, width, n, b)),
        bucket_errors(points(recs), first, width, n, b) == how_many(recs, error_in(first, width, n, b)),
    decreases recs.len(),
{
    reveal(Seq::filter);
    if recs.len() > 0 {
        let front = recs.drop_last();
        match epoch_millis(recs.last().ts) {
            Some(ms) => {
                assert(points(recs).drop_last() =~= points(front));
                assert forall|i: int| 0 <= i < points(front).len() implies first <= #[trigger] points(front)[i].0 by {
                    assert(points(recs)[i] == points(front)[i]);
                }
                assert(points(recs)[points(recs).len() - 1].0 == ms);
                lemma_in_bucket(ms, first, width, n, b);
            },
            None => {
                assert(points(recs) == points(front));
            },
        }
        lemma_buckets_count(front, first, width, n, b);
    }
}

/// Whether a number of milliseconds is the earliest time that a record has.
pub open spec fn is_first_time(recs: Seq<RecordView>, ms: int) -> bool {
    &&& exists|i: int| 0 <= i < recs.len() && epoch_millis((#[trigger] recs[i]).ts) == Some(ms)
    &&& forall|i: int| 0 <= i < recs.len() ==> (epoch_millis((#[trigger] recs[i]).ts) matches Some(t) ==> ms <= t)
}

/// Whether a number of milliseconds is the latest time that a record has.
pub open spec fn is_last_time(recs: Seq<RecordView>, ms: int) -> bool {
    &&& exists|i: int| 0 <= i < recs.len() && epoch_millis((#[trigger] recs[i]).ts) == Some(ms)
    &&& forall|i: int| 0 <= i < recs.len() ==> (epoch_millis((#[trigger] recs[i]).ts) matches Some(t) ==> t <= ms)
}

proof fn lemma_point_of(recs: Seq<RecordView>, i: int) -> (k: int)
    requires
        0 <= i < recs.len(),
        epoch_millis(recs[i].ts) is Some,
    ensures
        0 <= k < points(recs).len(),
        points(recs)[k].0 == epoch_millis(recs[i].ts)->0,
    decreases recs.len(),
{
    if i == recs.len() - 1 {
        points(recs).len() - 1
    } else {
        lemma_point_of(recs.drop_last(), i)
    }
}

proof fn lemma_record_of(recs: Seq<RecordView>, k: int) -> (i: int)
    requires
        0 <= k < points(recs).len(),
    ensures
        0 <= i < recs.len(),
        epoch_millis(recs[i].ts) == Some(points(recs)[k].0),
    decreases recs.len(),
{
    if k < points(recs.drop_last()).len() {
        lemma_record_of(recs.drop_last(), k)
    } else {
        recs.len() - 1
    }
}

proof fn lemma_ends_are_points(pts: Seq<(int, bool)>)
    requires
        pts.len() > 0,
    ensures
        exists|k: int| 0 <= k < pts.len() && (#[trigger] pts[k]).0 == earliest(pts),
        exists|k: int| 0 <= k < pts.len() && (#[trigger] pts[k]).0 == latest(pts),
    decreases pts.len(),
{
    if pts.len() == 1 {
        assert(pts[0].0 == earliest(pts) && pts[0].0 == latest(pts));
    } else {
        let front = pts.drop_last();
        lemma_ends_are_points(front);
        let i = choose|i: int| 0 <= i < front.len() && (#[trigger] front[i]).0 == earliest(front);
        let j = choose|j: int| 0 <= j < front.len() && (#[trigger] front[j]).0 == latest(front);
        assert(pts[i] == front[i] && pts[j] == front[j]);
        assert(pts[pts.len() - 1] == pts.last());
    }
}

proof fn lemma_times(recs: Seq<RecordView>)
    requires
        points(recs).len() > 0,
    ensures
        is_first_time(recs, earliest(points(recs))),
        is_last_time(recs, latest(points(recs))),
{
    let p = points(recs);
    lemma_ends_are_points(p);
    points_lie_between(p);
    let a = choose|a: int| 0 <= a < p.len() && (#[trigger] p[a]).0 == earliest(p);
    let b = choose|b: int| 0 <= b < p.len() && (#[trigger] p[b]).0 == latest(p);
    let i = lemma_record_of(recs, a);
    let j = lemma_record_of(recs, b);
    assert(epoch_millis(recs[i].ts) == Some(earliest(p)));
    assert(epoch_millis(recs[j].ts) == Some(latest(p)));
    assert forall|i: int| 0 <= i < recs.len() implies (epoch_millis((#[trigger] recs[i]).ts) matches Some(t)
        ==> earliest(p) <= t && t <= latest(p)) by {
        if let Some(t) = epoch_millis(recs[i].ts) {
            let k = lemma_point_of(recs, i);
            assert(p[k].0 == t);
        }
    }
}

/// Whether buckets of a width share the time from the first to the last one among them: as wide
/// as they can be without running past the last one, but a millisecond at least.
pub open spec fn spans(first: int, last: int, width: int, n: int) -> bool {
    width == 1 || (width > 1 && n * width <= last - first < n * (width + 1))
}

proof fn lemma_width(pts: Seq<(int, bool)>, n: int)
    requires
        n > 0,
    ensures
        spans(earliest(pts), latest(pts), bucket_width(pts, n), n),
        bucket_width(pts, n) >= 1,
        latest(pts) - earliest(pts) <= 1 ==> bucket_width(pts, n) == 1,
{
    let span = if latest(pts) - earliest(pts) > 1 {
        latest(pts) - earliest(pts)
    } else {
        1
    };
    let q = span / n;
    assert(n * q <= span < n * (q + 1)) by (nonlinear_arith)
        requires
            n > 0,
            q == span / n,
    ;
    assert(span == 1 ==> q <= 1) by (nonlinear_arith)
        requires
            n > 0,
            q == span / n,
    ;
}

/// Whether a JSON value tells of a bucket: when it starts, and how many records and how many
/// errors fall into it.
pub open spec fn tells_of_bucket(j: JsonView, recs: Seq<RecordView>, first: int, width: int, n: int, b: int) -> bool {
    &&& member(j, "start_ms"@) == Some(json_int(first + b * width))
    &&& member(j, "count"@) == Some(json_int(how_many(recs, dated_in(first, width, n, b)) as int))
    &&& member(j, "errors"@) == Some(json_int(how_many(recs, error_in(first, width, n, b)) as int))
}

proof fn lemma_bucket_value(recs: Seq<RecordView>, v: VolumeView, first: int, width: int, n: int, b: int)
    requires
        width > 0,
        0 <= b < n,
        v.first == first,
        v.width == width,
        v.totals[b] == bucket_total(points(recs), first, width, n, b),
        v.errors[b] == bucket_errors(points(recs), first, width, n, b),
        forall|i: int| 0 <= i < points(recs).len() ==> first <= #[trigger] points(recs)[i].0,
    ensures
        tells_of_bucket(bucket_value(v, b), recs, first, width, n, b),
{
    lemma_buckets_count(recs, first, width, n, b);
    let p = bucket_value(v, b)->Object_0;
    reveal_strlit("start_ms");
    reveal_strlit("count");
    reveal_strlit("errors");
    assert(p[0].0 == "start_ms"@ && p[1].0 == "count"@ && p[2].0 == "errors"@);
    first_field_counts(p, "start_ms"@, 0);
    first_field_counts(p, "count"@, 1);
    first_field_counts(p, "errors"@, 2);
}

proof fn lemma_volume(recs: Seq<RecordView>, n: int) -> (r: (int, int, int))
    requires
        points(recs).len() > 0,
        n > 0,
        forall|i: int|
            0 <= i < recs.len() ==> (epoch_millis((#[trigger] recs[i]).ts) matches Some(t) ==> millis_in_calendar(t)),
    ensures
        spans(r.0, r.1, r.2, n),
        r.2 > 0,
        is_first_time(recs, r.0),
        is_last_time(recs, r.1),
        volume_of(points(recs), n as nat).first == r.0,
        volume_of(points(recs), n as nat).last == r.1,
        volume_of(points(recs), n as nat).width == r.2,
        volume_of(points(recs), n as nat).totals.len() == n,
        forall|b: int|
            0 <= b < n ==> #[trigger] volume_of(points(recs), n as nat).totals[b] == bucket_total(
                points(recs),
                r.0,
                r.2,
                n,
                b,
            ),
        forall|b: int|
            0 <= b < n ==> #[trigger] volume_of(points(recs), n as nat).errors[b] == bucket_errors(
                points(recs),
                r.0,
                r.2,
                n,
                b,
            ),
        forall|i: int| 0 <= i < points(recs).len() ==> r.0 <= #[trigger] points(recs)[i].0,
{
    let pts = points(recs);
    lemma_times(recs);
    let first = earliest(pts);
    let last = latest(pts);
    let width = bucket_width(pts, n);
    lemma_width(pts, n);
    points_lie_between(pts);
    let i = choose|i: int| 0 <= i < recs.len() && epoch_millis((#[trigger] recs[i]).ts) == Some(first);
    let j = choose|j: int| 0 <= j < recs.len() && epoch_millis((#[trigger] recs[j]).ts) == Some(last);
    assert(millis_in_calendar(first) && millis_in_calendar(last));
    assert(width <= 20_000_000_000_000_000) by {
        if width > 1 {
            assert(width <= n * width) by (nonlinear_arith)
                requires
                    n >= 1,
                    width > 1,
            ;
        }
    }
    (first, last, width)
}

/// A number, or one where it is smaller.
pub open spec fn at_least_one(n: int) -> int {
    if n > 1 {
        n
    } else {
        1
    }
}

/// Whether a JSON value tells how many records there are over time: in so many buckets, one after
/// the other and all of one width, from the earliest time to the latest.
pub open spec fn tells_of_times(j: JsonView, recs: Seq<RecordView>, n: int) -> bool {
    member(j, "buckets"@) matches Some(JsonView::Array(a)) && a.len() == n && exists|first: int, last: int, width: int|
        #[trigger] spans(first, last, width, n) && is_first_time(recs, first) && is_last_time(recs, last) && member(
            j,
            "bucket_secs"@,
        ) == Some(json_int(width / 1000)) && str_at(j, "start"@) == Some(clock_text(first as i64)) && str_at(j, "end"@)
            == Some(clock_text(last as i64)) && forall|b: int|
            0 <= b < n ==> tells_of_bucket(#[trigger] a[b], recs, first, width, n, b)
}

/// As JSON the timeline has as many buckets as are asked for, one after the other and all of one
/// width from the earliest time on, and each says how many records and how many errors fall into
/// it.
pub proof fn the_timeline_counts_by_time(recs: Seq<RecordView>, buckets: usize, full: bool, i: int)
    requires
        forall|i: int|
            0 <= i < recs.len() ==> (epoch_millis((#[trigger] recs[i]).ts) matches Some(t) ==> millis_in_calendar(t)),
        0 <= i < recs.len(),
        epoch_millis(recs[i].ts) is Some,
    ensures
        view_output(recs, crate::cli::View::Timeline { buckets }, true, full) matches OutputView::Value(j)
            && tells_of_times(j, recs, at_least_one(buckets as int)),
{
    let n = at_least_one(buckets as int);
    let k = lemma_point_of(recs, i);
    let (first, last, width) = lemma_volume(recs, n);
    let v = volume_of(points(recs), n as nat);
    let o = volume_value(v)->Object_0;
    reveal_strlit("bucket_secs");
    reveal_strlit("start");
    reveal_strlit("end");
    reveal_strlit("buckets");
    assert(o[0].0 == "bucket_secs"@ && o[1].0 == "start"@ && o[2].0 == "end"@ && o[3].0 == "buckets"@);
    first_field_counts(o, "bucket_secs"@, 0);
    first_field_counts(o, "start"@, 1);
    first_field_counts(o, "end"@, 2);
    first_field_counts(o, "buckets"@, 3);
    let a = o[3].1->Array_0;
    assert forall|b: int| 0 <= b < n implies tells_of_bucket(#[trigger] a[b], recs, first, width, n, b) by {
        assert(a[b] == bucket_value(v, b));
        lemma_bucket_value(recs, v, first, width, n, b);
    }
    let j = JsonView::Object(o);
    assert(view_output(recs, crate::cli::View::Timeline { buckets }, true, full) == OutputView::Value(j));
    assert(member(j, "buckets"@) == Some(JsonView::Array(a)));
    assert(str_at(j, "start"@) == Some(clock_text(first as i64)));
    assert(str_at(j, "end"@) == Some(clock_text(last as i64)));
    assert(member(j, "bucket_secs"@) == Some(json_int(width / 1000)));
    assert(a.len() == n);
    assert(spans(first, last, width, n));
}

/// The peak of counts is at least one and no smaller than any of them, and where it is more than one
/// it is one of them.
pub proof fn the_peak_is_the_largest_count(totals: Seq<nat>)
    ensures
        peak_of(totals) >= 1,
        forall|b: int| 0 <= b < totals.len() ==> #[trigger] totals[b] <= peak_of(totals),
        peak_of(totals) > 1 ==> totals.contains(peak_of(totals)),
    decreases totals.len(),
{
    if totals.len() > 0 {
        let front = totals.drop_last();
        the_peak_is_the_largest_count(front);
        assert forall|b: int| 0 <= b < totals.len() implies #[trigger] totals[b] <= peak_of(totals) by {
            if b < totals.len() - 1 {
                assert(front[b] == totals[b]);
            }
        }
        if peak_of(totals) > 1 {
            if totals.last() > peak_of(front) {
                assert(totals[totals.len() - 1] == peak_of(totals));
            } else {
                let b = choose|b: int| 0 <= b < front.len() && front[b] == peak_of(front);
                assert(totals[b] == peak_of(totals));
            }
        }
    }
}

/// As text a bucket begins with its start and its count, has a bar that is forty marks long at the
/// peak and shorter in proportion elsewhere, and ends with its errors where it has any.
pub proof fn a_bucket_is_printed_with_a_bar(v: VolumeView, b: int)
    requires
        0 <= b < v.totals.len(),
    ensures
        exists|bar: int|
            0 <= bar <= 40 && (v.totals[b] == peak_of(v.totals) ==> bar == 40) && (v.totals[b] == 0 ==> bar == 0) && (
            v.errors[b] == 0 ==> bucket_line(v, b) == clock_text((v.first + b * v.width) as i64) + "  "@ + right_set(
                decimal(v.totals[b]),
                6,
            ) + " "@ + #[trigger] run_of('█', bar)) && (v.errors[b] > 0 ==> bucket_line(v, b) == clock_text(
                (v.first + b * v.width) as i64,
            ) + "  "@ + right_set(decimal(v.totals[b]), 6) + " "@ + run_of('█', bar) + ("  err "@ + decimal(
                v.errors[b],
            ))),
{
    the_peak_is_the_largest_count(v.totals);
    reveal_strlit("");
    let t = v.totals[b] as int;
    let p = peak_of(v.totals) as int;
    let bar = t * 40 / p;
    assert(0 <= bar <= 40 && (t == p ==> bar == 40) && (t == 0 ==> bar == 0)) by (nonlinear_arith)
        requires
            0 <= t <= p,
            p >= 1,
            bar == t * 40 / p,
    ;
    let front = clock_text((v.first + b * v.width) as i64) + "  "@ + right_set(decimal(v.totals[b]), 6) + " "@
        + run_of('█', bar);
    assert(front + ""@ =~= front);
}

/// As text the timeline says how many records have a time and from when to when, and prints every
/// bucket.
pub proof fn the_timeline_prints_its_buckets(recs: Seq<RecordView>, buckets: usize, full: bool)
    requires
        points(recs).len() > 0,
    ensures
        ({
            let n = at_least_one(buckets as int);
            let volume = volume_of(points(recs), n as nat);
            view_output(recs, crate::cli::View::Timeline { buckets }, false, full) matches OutputView::Lines(v)
                && v.len() == 1 + n && begins(
                v[0],
                decimal(points(recs).len()) + " records over "@ + clock_text(volume.first) + " → "@ + clock_text(
                    volume.last,
                ),
            ) && forall|b: int| 0 <= b < n ==> #[trigger] v[1 + b] == bucket_line(volume, b)
        }),
{
    let n = at_least_one(buckets as int);
    let volume = volume_of(points(recs), n as nat);
    let v = view_output(recs, crate::cli::View::Timeline { buckets }, false, full)->Lines_0;
    let front = decimal(points(recs).len()) + " records over "@ + clock_text(volume.first) + " → "@ + clock_text(
        volume.last,
    );
    let secs = if volume.width as int / 1000 > 1 {
        volume.width as int / 1000
    } else {
        1
    };
    lemma_begins(front, "  (bucket "@, int_text(secs), "s)\n"@);
    assert(v[0] == front + "  (bucket "@ + int_text(secs) + "s)\n"@);
}

proof fn lemma_begins(a: Seq<char>, b: Seq<char>, c: Seq<char>, d: Seq<char>)
    ensures
        begins(a + b + c + d, a),
{
    assert((a + b + c + d).subrange(0, a.len() as int) =~= a);
}

/// As text the summary gives the range from the earliest to the latest time in its second line,
/// where a record has a time, and counts the loggers that have a name among the ten most frequent
/// ones; without records it says that there are none.
pub proof fn the_summary_prints_its_range_and_loggers(recs: Seq<RecordView>, full: bool)
    ensures
        recs.len() == 0 ==> view_output(recs, crate::cli::View::Summary, false, full) == OutputView::Lines(
            seq!["empty"@],
        ),
        recs.len() > 0 ==> (view_output(recs, crate::cli::View::Summary, false, full) matches OutputView::Lines(v) && (
        time_range(recs) matches Some((a, b)) ==> is_earliest(recs, a) && is_latest(recs, b) && v.len() > 1 && v[1]
            == "range:   "@ + short_time(a) + "  ->  "@ + short_time(b)) && exists|t: Seq<(Seq<char>, int)>|
            #[trigger] counts_by(t, recs, by_logger()) && (t.filter(|c: (Seq<char>, int)| c.0.len() > 0).len() > 0
                ==> counts_under(
                v,
                "\ntop loggers:"@,
                t.take(at_most(t.len() as int, 10)).filter(|c: (Seq<char>, int)| c.0.len() > 0),
            ))),
{
    if recs.len() > 0 {
        the_range_runs_from_the_earliest_to_the_latest(recs);
        counting_goes_by_what_records_have(recs);
        let v = view_output(recs, crate::cli::View::Summary, false, full)->Lines_0;
        let t = tally(recs, Key::Logger);
        lemma_named(t);
        lemma_named(top(t, 10));
        let front = seq!["records: "@ + decimal(recs.len())] + range_lines(recs) + seq!["\nlevels:"@] + count_lines(
            tally(recs, Key::Level),
        ) + seq!["\nservices:"@] + count_lines(top(tally(recs, Key::Service), 15));
        let end = pattern_lines(recs, full);
        if named(t).len() > 0 {
            let shown = named(top(t, 10));
            lemma_counts_under(front, "\ntop loggers:"@, shown, end);
            assert(v =~= front + seq!["\ntop loggers:"@] + count_lines(shown) + end);
        }
        assert(counts_by(t, recs, by_logger()));
    }
}

/// Without a time in any record the timeline has no buckets, and says so.
pub proof fn a_timeline_without_times_has_no_buckets(recs: Seq<RecordView>, buckets: usize, full: bool)
    requires
        forall|i: int| 0 <= i < recs.len() ==> epoch_millis((#[trigger] recs[i]).ts) is None,
    ensures
        view_output(recs, crate::cli::View::Timeline { buckets }, true, full) matches OutputView::Value(j) && member(
            j,
            "buckets"@,
        ) == Some(JsonView::Array(Seq::<JsonView>::empty())) && str_at(j, "note"@) == Some("no parseable timestamps"@),
        view_output(recs, crate::cli::View::Timeline { buckets }, false, full) == OutputView::Lines(
            seq!["no parseable timestamps"@],
        ),
{
    if points(recs).len() > 0 {
        let i = lemma_record_of(recs, 0);
        assert(epoch_millis(recs[i].ts) is None);
    }
    let o = (view_output(recs, crate::cli::View::Timeline { buckets }, true, full)->Value_0)->Object_0;
    reveal_strlit("buckets");
    reveal_strlit("note");
    assert(o[0].0 == "buckets"@ && o[1].0 == "note"@);
    first_field_counts(o, "buckets"@, 0);
    first_field_counts(o, "note"@, 1);
}

} // verus!
