//! Laws of the dashboards and panels that a URL and a command line name.

use super::groups::sorting_keeps_every_text;
use super::texts::{
    a_whole_holds_its_middle, holding_is_handed_on, joined_text_holds_its_parts, splitting_undoes_joining,
};
use crate::dashboard::panels::{
    can_query, dashboard_panels, expression_of, has_panel, is_hidden, lemma_member_is_smaller, meant_panel,
    panel_at, panel_numbers, panel_of, panels_in, queryable_panels, titled, PanelView,
};
use crate::dashboard::table::{entry_at, entry_is_what_was_put};
use crate::dashboard::url::{
    bare_ref, one_origin, panel_number, path_below, reference_in, parsed_url, url_below, with_pairs, RefView,
    UrlView,
};
use crate::json::{bool_of, items_of, member, member2, str_at, whole_of, JsonView};
use crate::number::{int_text, int_text_reads_back, is_digit};
use crate::order::sorted_texts;
use crate::text::{ascii_lowered, begins, cut_back, cut_front, holds, joined, quoted, trimmed, CharSet};
use vstd::prelude::*;

verus! {

/// Under a name a table holds what stands last under it.
pub proof fn an_entry_is_the_last_of_its_name(s: Seq<(Seq<char>, Seq<char>)>, name: Seq<char>)
    ensures
        match entry_at(s, name) {
            Some(v) => exists|k: int|
                0 <= k < s.len() && #[trigger] s[k] == (name, v) && forall|l: int|
                    k < l < s.len() ==> (#[trigger] s[l]).0 != name,
            None => forall|k: int| 0 <= k < s.len() ==> (#[trigger] s[k]).0 != name,
        },
    decreases s.len(),
{
    if s.len() > 0 {
        let front = s.drop_last();
        an_entry_is_the_last_of_its_name(front, name);
        let last = s.len() - 1;
        assert(s[last] == s.last());
        if s.last().0 == name {
            assert(s[last] == (name, s.last().1));
        } else if let Some(v) = entry_at(front, name) {
            let k = choose|k: int|
                0 <= k < front.len() && #[trigger] front[k] == (name, v) && forall|l: int|
                    k < l < front.len() ==> (#[trigger] front[l]).0 != name;
            assert(s[k] == (name, v));
            assert forall|l: int| k < l < s.len() implies (#[trigger] s[l]).0 != name by {
                if l < last {
                    assert(s[l] == front[l]);
                }
            }
        } else {
            assert forall|k: int| 0 <= k < s.len() implies (#[trigger] s[k]).0 != name by {
                if k < last {
                    assert(s[k] == front[k]);
                }
            }
        }
    }
}

/// The number of a panel reads back, with `panel-` in front of it and without.
pub proof fn a_panel_number_reads_back(n: i64)
    ensures
        panel_number(int_text(n as int)) == Ok::<i64, Seq<char>>(n),
        panel_number("panel-"@ + int_text(n as int)) == Ok::<i64, Seq<char>>(n),
{
    reveal_strlit("panel-");
    reveal_strlit("-");
    let t = int_text(n as int);
    int_text_reads_back(n);
    assert(!begins(t, "panel-"@)) by {
        if begins(t, "panel-"@) {
            assert(t.subrange(0, 6)[0] == 'p');
            if n >= 0 {
                crate::live::duration::lemma_decimal_is_digits(n as nat);
                assert(is_digit(t[0]));
            } else {
                assert(t[0] == '-');
            }
        }
    }
    let s = "panel-"@ + t;
    assert(s.subrange(0, 6) =~= "panel-"@);
    assert(s.skip(6) =~= t);
}

/// Whether a reference has what the pairs of a query say, the last one of each name.
pub open spec fn says_what(r: RefView, query: Seq<(Seq<char>, Seq<char>)>) -> bool {
    &&& r.from == entry_at(query, "from"@)
    &&& r.to == entry_at(query, "to"@)
    &&& r.org_id == entry_at(query, "orgId"@)
    &&& match entry_at(query, "viewPanel"@) {
        Some(v) => r.panel_id is Some && panel_number(v) == Ok::<i64, Seq<char>>(r.panel_id->0),
        None => r.panel_id is None,
    }
    &&& forall|name: Seq<char>|
        name.len() > 0 ==> #[trigger] entry_at(r.variables, name) == entry_at(query, "var-"@ + name)
}

/// The pairs of a query say how a dashboard is looked at, each under its own name, and the last
/// one of a name counts.
pub proof fn the_last_pair_of_a_name_counts(uid: Seq<char>, slug: Seq<char>, query: Seq<(Seq<char>, Seq<char>)>)
    ensures
        with_pairs(bare_ref(uid, slug), query) matches Ok(r) ==> r.uid == uid && r.slug == slug && says_what(r, query),
    decreases query.len(),
{
    if query.len() > 0 {
        if let Ok(r) = with_pairs(bare_ref(uid, slug), query) {
            let front = query.drop_last();
            the_last_pair_of_a_name_counts(uid, slug, front);
            let before = with_pairs(bare_ref(uid, slug), front)->Ok_0;
            let key = query.last().0;
            let value = query.last().1;
            reveal_strlit("viewPanel");
            reveal_strlit("orgId");
            reveal_strlit("from");
            reveal_strlit("to");
            reveal_strlit("var-");
            assert("from"@[0] != "var-"@[0]);
            lemma_no_variable("viewPanel"@);
            lemma_no_variable("orgId"@);
            lemma_no_variable("from"@);
            lemma_no_variable("to"@);
            assert forall|name: Seq<char>| name.len() > 0 implies #[trigger] entry_at(r.variables, name) == entry_at(
                query,
                "var-"@ + name,
            ) by {
                assert(entry_at(before.variables, name) == entry_at(front, "var-"@ + name));
                let whole = "var-"@ + name;
                assert(whole.subrange(0, 4) =~= "var-"@);
                assert(whole.skip(4) =~= name);
                if begins(key, "var-"@) && key != "viewPanel"@ && key != "orgId"@ {
                    let n = key.skip(4);
                    assert(key =~= "var-"@ + n);
                    if n.len() > 0 {
                        entry_is_what_was_put(before.variables, n, value, name);
                        if n != name {
                            assert(key != whole) by {
                                assert(key.skip(4) != whole.skip(4));
                            }
                        }
                    } else {
                        assert(key.len() == 4);
                    }
                }
            }
        }
    }
}

proof fn lemma_no_variable(key: Seq<char>)
    requires
        key.len() == 0 || key[0] != 'v' || (key.len() > 1 && key[1] != 'a'),
    ensures
        !begins(key, "var-"@),
{
    reveal_strlit("var-");
    if begins(key, "var-"@) {
        assert(key.subrange(0, 4)[0] == 'v' && key.subrange(0, 4)[1] == 'a');
    }
}

/// The URL of a dashboard, at the origin of Grafana and below its path, names that dashboard, and
/// its query says how it is looked at.
pub proof fn a_dashboard_url_names_its_dashboard(url: UrlView, base: UrlView, uid: Seq<char>, slug: Seq<char>)
    requires
        url.scheme == base.scheme,
        url.host == base.host,
        url.known_port == base.known_port,
        base.path.len() == 0 || base.path.last() != '/',
        url.path == base.path + "/d/"@ + uid + "/"@ + slug,
        uid.len() > 0,
        !uid.contains('/'),
        !slug.contains('/'),
    ensures
        reference_in(url, base) == with_pairs(bare_ref(uid, slug), url.pairs),
        reference_in(url, base) matches Ok(r) ==> r.uid == uid && r.slug == slug && says_what(r, url.pairs),
        url.pairs.len() == 0 ==> reference_in(url, base) is Ok,
{
    reveal_strlit("/d/");
    reveal_strlit("/");
    reveal_strlit("d");
    reveal_strlit("/login");
    let path = "/d/"@ + uid + "/"@ + slug;
    assert(cut_back(base.path, CharSet::Only('/')) == base.path);
    assert(url.path =~= base.path + path);
    assert(url.path.subrange(0, base.path.len() as int) =~= base.path);
    assert(url.path.skip(base.path.len() as int) =~= path);
    assert(path.subrange(0, 1) =~= "/"@);
    assert(path_below(url, base) == Some(path)) by {
        if base.path.len() == 0 {
            assert(url.path =~= path);
        }
    }
    assert(!begins(path, "/login"@)) by {
        if begins(path, "/login"@) {
            assert(path.subrange(0, 6)[1] == 'l');
            assert(path[1] == 'd');
        }
    }
    let rest = "d"@ + "/"@ + uid + "/"@ + slug;
    assert(path.skip(1) =~= rest);
    assert(path[0] == '/');
    assert(rest[0] == 'd');
    assert(cut_front(rest, CharSet::Only('/')) == rest);
    assert(cut_front(path, CharSet::Only('/')) == rest) by {
        reveal_with_fuel(cut_front, 2);
    }
    let parts = seq!["d"@, uid, slug];
    assert(!"d"@.contains('/'));
    assert(joined(parts, "/"@) == rest) by {
        assert(parts.drop_last() =~= seq!["d"@, uid]);
        assert(seq!["d"@, uid].drop_last() =~= seq!["d"@]);
        reveal_with_fuel(joined, 4);
        assert(joined(seq!["d"@], "/"@) =~= "d"@);
        assert(joined(seq!["d"@, uid], "/"@) =~= "d"@ + "/"@ + uid);
    }
    assert("/"@ =~= seq!['/']);
    splitting_undoes_joining(parts, '/');
    the_last_pair_of_a_name_counts(uid, slug, url.pairs);
}

proof fn lemma_one_of(ps: Seq<PanelView>, wanted: spec_fn(PanelView) -> bool)
    ensures
        ps.filter(wanted).len() > 0 ==> exists|i: int|
            0 <= i < ps.len() && wanted(#[trigger] ps[i]) && ps.filter(wanted)[0] == ps[i],
        ps.filter(wanted).len() == 0 ==> forall|j: int| 0 <= j < ps.len() ==> !wanted(#[trigger] ps[j]),
        ps.filter(wanted).len() == 1 ==> forall|i: int, j: int|
            0 <= i < ps.len() && 0 <= j < ps.len() && wanted(#[trigger] ps[i]) && wanted(#[trigger] ps[j]) ==> i == j,
    decreases ps.len(),
{
    reveal(Seq::filter);
    if ps.len() > 0 {
        let front = ps.drop_last();
        let last = ps.len() - 1;
        lemma_one_of(front, wanted);
        assert forall|j: int| 0 <= j < last implies #[trigger] ps[j] == front[j] by {}
        assert(ps[last] == ps.last());
        if front.filter(wanted).len() > 0 {
            let i = choose|i: int|
                0 <= i < front.len() && wanted(#[trigger] front[i]) && front.filter(wanted)[0] == front[i];
            assert(wanted(ps[i]) && ps.filter(wanted)[0] == ps[i]);
        } else if wanted(ps.last()) {
            assert(ps.filter(wanted)[0] == ps[last]);
        }
        if ps.filter(wanted).len() == 1 {
            assert forall|i: int, j: int|
                0 <= i < ps.len() && 0 <= j < ps.len() && wanted(#[trigger] ps[i]) && wanted(#[trigger] ps[j]) implies i
                == j by {
                if i < last {
                    assert(wanted(front[i]));
                }
                if j < last {
                    assert(wanted(front[j]));
                }
            }
        }
        if ps.filter(wanted).len() == 0 {
            assert forall|j: int| 0 <= j < ps.len() implies !wanted(#[trigger] ps[j]) by {
                if j < last {
                    assert(!wanted(front[j]));
                }
            }
        }
    }
}

/// Whether a panel can be queried.
pub open spec fn queried() -> spec_fn(PanelView) -> bool {
    |p: PanelView| can_query(p)
}

/// Whether a panel can be queried and has a title.
pub open spec fn queried_under(title: Seq<char>) -> spec_fn(PanelView) -> bool {
    |p: PanelView| can_query(p) && p.title == title
}

proof fn lemma_filtered(ps: Seq<PanelView>, title: Seq<char>)
    ensures
        queryable_panels(ps) == ps.filter(queried()),
        titled(queryable_panels(ps), title) == ps.filter(queried_under(title)),
    decreases ps.len(),
{
    reveal(Seq::filter);
    if ps.len() > 0 {
        lemma_filtered(ps.drop_last(), title);
        let q = queryable_panels(ps);
        if can_query(ps.last()) {
            assert(q.drop_last() =~= queryable_panels(ps.drop_last()));
        }
    }
}

/// Whether a panel is the only one that is wanted.
pub open spec fn is_the_one(p: PanelView, ps: Seq<PanelView>, wanted: spec_fn(PanelView) -> bool) -> bool {
    exists|i: int|
        0 <= i < ps.len() && #[trigger] ps[i] == p && wanted(p) && forall|j: int|
            0 <= j < ps.len() && wanted(#[trigger] ps[j]) ==> j == i
}

/// The panel that is meant without a word on it is the only one that can be queried.
pub proof fn the_only_panel_is_meant(ps: Seq<PanelView>)
    ensures
        match meant_panel(ps, None, None) {
            Ok(p) => is_the_one(p, ps, queried()),
            Err(_) => forall|p: PanelView| !is_the_one(p, ps, queried()),
        },
{
    lemma_filtered(ps, Seq::<char>::empty());
    lemma_meant(ps, queried());
}

proof fn lemma_meant(ps: Seq<PanelView>, wanted: spec_fn(PanelView) -> bool)
    ensures
        ps.filter(wanted).len() == 1 ==> is_the_one(ps.filter(wanted)[0], ps, wanted),
        ps.filter(wanted).len() != 1 ==> forall|p: PanelView| !#[trigger] is_the_one(p, ps, wanted),
{
    let f = ps.filter(wanted);
    lemma_one_of(ps, wanted);
    if f.len() == 1 {
        let i = choose|i: int| 0 <= i < ps.len() && wanted(#[trigger] ps[i]) && f[0] == ps[i];
        assert(ps[i] == f[0]);
    } else {
        assert forall|p: PanelView| !#[trigger] is_the_one(p, ps, wanted) by {
            if is_the_one(p, ps, wanted) {
                let i = choose|i: int|
                    0 <= i < ps.len() && #[trigger] ps[i] == p && wanted(p) && forall|j: int|
                        0 <= j < ps.len() && wanted(#[trigger] ps[j]) ==> j == i;
                lemma_single(ps, wanted, i);
            }
        }
    }
}

proof fn lemma_single(ps: Seq<PanelView>, wanted: spec_fn(PanelView) -> bool, i: int)
    requires
        0 <= i < ps.len(),
        wanted(ps[i]),
        forall|j: int| 0 <= j < ps.len() && wanted(#[trigger] ps[j]) ==> j == i,
    ensures
        ps.filter(wanted).len() == 1,
    decreases ps.len(),
{
    reveal(Seq::filter);
    let front = ps.drop_last();
    assert forall|j: int| 0 <= j < front.len() implies #[trigger] front[j] == ps[j] by {}
    if i < front.len() {
        lemma_single(front, wanted, i);
        assert(!wanted(ps[ps.len() - 1]));
    } else {
        assert forall|j: int| 0 <= j < front.len() implies !wanted(#[trigger] front[j]) by {
            assert(front[j] == ps[j]);
        }
        lemma_none(front, wanted);
    }
}

proof fn lemma_none(ps: Seq<PanelView>, wanted: spec_fn(PanelView) -> bool)
    requires
        forall|j: int| 0 <= j < ps.len() ==> !wanted(#[trigger] ps[j]),
    ensures
        ps.filter(wanted).len() == 0,
    decreases ps.len(),
{
    reveal(Seq::filter);
    if ps.len() > 0 {
        let front = ps.drop_last();
        assert forall|j: int| 0 <= j < front.len() implies !wanted(#[trigger] front[j]) by {
            assert(front[j] == ps[j]);
        }
        lemma_none(front, wanted);
        assert(!wanted(ps[ps.len() - 1]));
    }
}

/// A title on the command line means the only panel of that title that can be queried, whatever
/// panel the URL names.
pub proof fn a_title_means_the_only_panel_of_it(ps: Seq<PanelView>, title: Seq<char>, from_url: Option<i64>)
    requires
        panel_number(title) is Err,
    ensures
        match meant_panel(ps, Some(title), from_url) {
            Ok(p) => is_the_one(p, ps, queried_under(title)),
            Err(_) => forall|p: PanelView| !is_the_one(p, ps, queried_under(title)),
        },
{
    lemma_filtered(ps, title);
    lemma_meant(ps, queried_under(title));
}

proof fn lemma_panel_at(ps: Seq<PanelView>, id: i64)
    ensures
        match panel_at(ps, id) {
            Some(p) => p.id == id && exists|i: int|
                0 <= i < ps.len() && #[trigger] ps[i] == p && forall|j: int| 0 <= j < i ==> (#[trigger] ps[j]).id != id,
            None => forall|j: int| 0 <= j < ps.len() ==> (#[trigger] ps[j]).id != id,
        },
    decreases ps.len(),
{
    if ps.len() > 0 && ps[0].id != id {
        let rest = ps.skip(1);
        lemma_panel_at(rest, id);
        match panel_at(rest, id) {
            Some(p) => {
                let i = choose|i: int|
                    0 <= i < rest.len() && #[trigger] rest[i] == p && forall|j: int|
                        0 <= j < i ==> (#[trigger] rest[j]).id != id;
                assert(ps[i + 1] == p);
                assert forall|j: int| 0 <= j < i + 1 implies (#[trigger] ps[j]).id != id by {
                    if j > 0 {
                        assert(ps[j] == rest[j - 1]);
                    }
                }
            },
            None => {
                assert forall|j: int| 0 <= j < ps.len() implies (#[trigger] ps[j]).id != id by {
                    if j > 0 {
                        assert(ps[j] == rest[j - 1]);
                    }
                }
            },
        }
    } else if ps.len() > 0 {
        assert(ps[0] == panel_at(ps, id)->0);
    }
}

/// A number means the panel of that number, on the command line whatever the URL names, and in
/// the URL where the command line names none.
pub proof fn a_number_means_the_panel_of_it(ps: Seq<PanelView>, id: i64, from_url: Option<i64>)
    ensures
        meant_panel(ps, Some(int_text(id as int)), from_url) == meant_panel(ps, None, Some(id)),
        match meant_panel(ps, None, Some(id)) {
            Ok(p) => p.id == id && can_query(p) && ps.contains(p),
            Err(_) => forall|i: int|
                0 <= i < ps.len() && (#[trigger] ps[i]).id == id ==> exists|j: int|
                    0 <= j <= i && (#[trigger] ps[j]).id == id && !can_query(ps[j]),
        },
{
    a_panel_number_reads_back(id);
    lemma_panel_at(ps, id);
    match panel_at(ps, id) {
        Some(p) => {
            let k = choose|k: int|
                0 <= k < ps.len() && #[trigger] ps[k] == p && forall|j: int| 0 <= j < k ==> (#[trigger] ps[j]).id != id;
            if !can_query(p) {
                assert forall|i: int| 0 <= i < ps.len() && (#[trigger] ps[i]).id == id implies exists|j: int|
                    0 <= j <= i && (#[trigger] ps[j]).id == id && !can_query(ps[j]) by {
                    assert(k <= i);
                    assert(ps[k].id == id && !can_query(ps[k]));
                }
            }
        },
        None => {},
    }
}

/// A panel has what its item in the dashboard has.
pub proof fn a_panel_has_what_its_item_has(id: i64, item: JsonView)
    ensures
        panel_of(id, item).id == id,
        str_at(item, "title"@) matches Some(t) ==> panel_of(id, item).title == t,
        str_at(item, "type"@) matches Some(t) ==> panel_of(id, item).kind == t,
        member(item, "datasource"@) matches Some(d) ==> panel_of(id, item).datasource == d,
        items_of(member(item, "targets"@)) matches Some(t) ==> panel_of(id, item).targets == t,
        (member2(item, "fieldConfig"@, "defaults"@) matches Some(d) && str_at(d, "unit"@) is Some)
            ==> panel_of(id, item).unit == str_at(member2(item, "fieldConfig"@, "defaults"@)->0, "unit"@),
{
}

proof fn lemma_known_stay(list: Seq<JsonView>, known: Seq<PanelView>)
    ensures
        known.len() <= panels_in(list, known).len(),
        panels_in(list, known).take(known.len() as int) == known,
    decreases list,
{
    if list.len() > 0 {
        let before = panels_in(list.drop_last(), known);
        lemma_known_stay(list.drop_last(), known);
        let item = list.last();
        let with = match whole_of(member(item, "id"@)) {
            Some(id) if !has_panel(before, id) => before.push(panel_of(id, item)),
            _ => before,
        };
        assert(with.take(known.len() as int) =~= before.take(known.len() as int));
        lemma_member_is_smaller(item, "panels"@);
        assert(decreases_to!(list => list[list.len() - 1]));
        if let Some(JsonView::Array(nested)) = member(item, "panels"@) {
            assert(decreases_to!(member(item, "panels"@)->0 => (member(item, "panels"@)->0)->Array_0));
            lemma_known_stay(nested, with);
            let all = panels_in(nested, with);
            assert(all.take(known.len() as int) =~= all.take(with.len() as int).take(known.len() as int));
        }
    } else {
        assert(panels_in(list, known).take(known.len() as int) =~= known);
    }
}

proof fn lemma_has_panel_stays(list: Seq<JsonView>, known: Seq<PanelView>, id: i64)
    requires
        has_panel(known, id),
    ensures
        has_panel(panels_in(list, known), id),
{
    lemma_known_stay(list, known);
    let i = choose|i: int| 0 <= i < known.len() && (#[trigger] known[i]).id == id;
    assert(panels_in(list, known).take(known.len() as int)[i] == known[i]);
    assert(panels_in(list, known)[i].id == id);
}

proof fn lemma_item_found(list: Seq<JsonView>, known: Seq<PanelView>, k: int, id: i64)
    requires
        0 <= k < list.len(),
        whole_of(member(list[k], "id"@)) == Some(id) || (items_of(member(list[k], "panels"@)) matches Some(nested)
            && exists|n: int| 0 <= n < nested.len() && whole_of(member(#[trigger] nested[n], "id"@)) == Some(id)),
    ensures
        has_panel(panels_in(list, known), id),
    decreases list,
{
    let before = panels_in(list.drop_last(), known);
    let item = list.last();
    let with = match whole_of(member(item, "id"@)) {
        Some(id) if !has_panel(before, id) => before.push(panel_of(id, item)),
        _ => before,
    };
    lemma_member_is_smaller(item, "panels"@);
    assert(decreases_to!(list => list[list.len() - 1]));
    if k < list.len() - 1 {
        lemma_item_found(list.drop_last(), known, k, id);
        assert(has_panel(with, id)) by {
            let i = choose|i: int| 0 <= i < before.len() && (#[trigger] before[i]).id == id;
            assert(with[i].id == id);
        }
    } else if whole_of(member(item, "id"@)) == Some(id) {
        assert(has_panel(with, id)) by {
            if !has_panel(before, id) {
                assert(with[before.len() as int].id == id);
            }
        }
    }
    if let Some(JsonView::Array(nested)) = member(item, "panels"@) {
        if has_panel(with, id) {
            lemma_has_panel_stays(nested, with, id);
        } else {
            let n = choose|n: int| 0 <= n < nested.len() && whole_of(member(#[trigger] nested[n], "id"@)) == Some(id);
            assert(decreases_to!(member(item, "panels"@)->0 => (member(item, "panels"@)->0)->Array_0));
            lemma_item_found(nested, with, n, id);
        }
    }
}

/// Every item of a dashboard that has a number is among its panels, and so is every item inside
/// another one, as in a row.
pub proof fn every_numbered_item_is_a_panel(dashboard: JsonView, list: Seq<JsonView>, k: int, id: i64)
    requires
        member(dashboard, "panels"@) == Some(JsonView::Array(list)),
        0 <= k < list.len(),
        whole_of(member(list[k], "id"@)) == Some(id) || (items_of(member(list[k], "panels"@)) matches Some(nested)
            && exists|n: int| 0 <= n < nested.len() && whole_of(member(#[trigger] nested[n], "id"@)) == Some(id)),
    ensures
        exists|i: int| 0 <= i < dashboard_panels(dashboard).len() && (#[trigger] dashboard_panels(dashboard)[i]).id == id,
{
    lemma_item_found(list, Seq::<PanelView>::empty(), k, id);
    let all = dashboard_panels(dashboard);
    assert(all == panels_in(list, Seq::<PanelView>::empty()));
    let i = choose|i: int| 0 <= i < all.len() && (#[trigger] all[i]).id == id;
    assert(all[i].id == id);
}

/// The first item of a dashboard that has a number of its own is the panel of that number.
pub proof fn the_first_item_of_a_number_counts(dashboard: JsonView, list: Seq<JsonView>, id: i64)
    requires
        member(dashboard, "panels"@) == Some(JsonView::Array(list)),
        list.len() > 0,
        whole_of(member(list[0], "id"@)) == Some(id),
    ensures
        dashboard_panels(dashboard).len() > 0,
        dashboard_panels(dashboard)[0] == panel_of(id, list[0]),
{
    lemma_first(list, id);
}

proof fn lemma_first(list: Seq<JsonView>, id: i64)
    requires
        list.len() > 0,
        whole_of(member(list[0], "id"@)) == Some(id),
    ensures
        panels_in(list, Seq::<PanelView>::empty()).len() > 0,
        panels_in(list, Seq::<PanelView>::empty())[0] == panel_of(id, list[0]),
    decreases list.len(),
{
    let none = Seq::<PanelView>::empty();
    let before = panels_in(list.drop_last(), none);
    let item = list.last();
    let with = match whole_of(member(item, "id"@)) {
        Some(id) if !has_panel(before, id) => before.push(panel_of(id, item)),
        _ => before,
    };
    if list.len() > 1 {
        lemma_first(list.drop_last(), id);
    } else {
        assert(before =~= none);
        assert(!has_panel(before, id));
    }
    assert(with.len() > 0 && with[0] == panel_of(id, list[0]));
    if let Some(JsonView::Array(nested)) = member(item, "panels"@) {
        lemma_known_stay(nested, with);
        assert(panels_in(nested, with).take(with.len() as int)[0] == with[0]);
    }
}

/// A panel can be queried where it is no row, has a datasource, and has a target that is shown and
/// has an expression.
pub proof fn a_panel_can_be_queried_where_a_target_can(p: PanelView, i: int, expr: Seq<char>)
    requires
        0 <= i < p.targets.len(),
        str_at(p.targets[i], "expr"@) == Some(expr),
        trimmed(expr).len() > 0,
        bool_of(member(p.targets[i], "hide"@)) != Some(true),
    ensures
        can_query(p) <==> p.kind != "row"@ && p.datasource != JsonView::Null,
{
    assert(!is_hidden(p.targets[i]) && expression_of(p.targets[i]) is Some);
}

/// A panel whose targets are all hidden or have no expression cannot be queried.
pub proof fn a_panel_of_hidden_targets_cannot_be_queried(p: PanelView)
    requires
        forall|i: int|
            0 <= i < p.targets.len() ==> bool_of(member(#[trigger] p.targets[i], "hide"@)) == Some(true) || (str_at(
                p.targets[i],
                "expr"@,
            ) matches Some(s) ==> trimmed(s).len() == 0),
    ensures
        !can_query(p),
{
    if can_query(p) {
        let i = choose|i: int|
            0 <= i < p.targets.len() && !is_hidden(#[trigger] p.targets[i]) && expression_of(p.targets[i]) is Some;
        assert(str_at(p.targets[i], "expr"@) is Some);
    }
}

/// That no panel is meant is told with every panel that can be queried: its number and its title.
pub proof fn a_panel_that_is_not_found_is_told_with_the_others(ps: Seq<PanelView>, i: int)
    requires
        0 <= i < ps.len(),
        can_query(ps[i]),
    ensures
        meant_panel(ps, None, None) matches Err(e) ==> holds(e, int_text(ps[i].id as int) + " — "@ + ps[i].title),
{
    if let Err(e) = meant_panel(ps, None, None) {
        let q = queryable_panels(ps);
        lemma_filtered(ps, Seq::<char>::empty());
        lemma_kept(ps, queried(), i);
        let k = choose|k: int| 0 <= k < q.len() && q[k] == ps[i];
        let v = q.map_values(|p: PanelView| int_text(p.id as int) + " — "@ + p.title);
        let s = sorted_texts(v);
        sorting_keeps_every_text(v);
        v.to_multiset_ensures();
        s.to_multiset_ensures();
        assert(v[k] == int_text(ps[i].id as int) + " — "@ + ps[i].title);
        assert(v.contains(v[k]));
        assert(s.to_multiset().count(v[k]) > 0);
        assert(s.contains(v[k]));
        let n = choose|n: int| 0 <= n < s.len() && s[n] == v[k];
        joined_text_holds_its_parts(s, "\n  "@, n);
        let list = joined(s, "\n  "@);
        let front = "select a panel with --panel"@ + ". Queryable panels:\n  "@;
        let none = Seq::<char>::empty();
        a_whole_holds_its_middle(front, list, none);
        assert(e =~= front + list + none);
        holding_is_handed_on(e, list, v[k]);
    }
}

proof fn lemma_kept(ps: Seq<PanelView>, wanted: spec_fn(PanelView) -> bool, i: int)
    requires
        0 <= i < ps.len(),
        wanted(ps[i]),
    ensures
        ps.filter(wanted).contains(ps[i]),
    decreases ps.len(),
{
    reveal(Seq::filter);
    let front = ps.drop_last();
    let f = ps.filter(wanted);
    if i < ps.len() - 1 {
        lemma_kept(front, wanted, i);
        assert(front[i] == ps[i]);
        let k = choose|k: int| 0 <= k < front.filter(wanted).len() && front.filter(wanted)[k] == ps[i];
        assert(f[k] == ps[i]);
    } else {
        assert(f[f.len() - 1] == ps[i]);
    }
}

/// Two URLs have one origin where their schemes, their hosts in lower case and the ports that they
/// mean are the same, and nowhere else.
pub proof fn an_origin_is_scheme_host_and_port(a: UrlView, b: UrlView, h: Seq<char>, g: Seq<char>)
    requires
        a.host == Some(h),
        b.host == Some(g),
    ensures
        one_origin(a, b) <==> a.scheme == b.scheme && ascii_lowered(h) == ascii_lowered(g) && a.known_port
            == b.known_port,
        one_origin(a, b) == one_origin(b, a),
{
}

/// A URL that is outside the path of Grafana, or at its login, names no dashboard.
pub proof fn a_url_elsewhere_names_nothing(url: UrlView, base: UrlView)
    requires
        base.path.len() > 0,
        base.path.last() != '/',
    ensures
        !begins(url.path, base.path) ==> reference_in(url, base) is Err,
        url.path == base.path + "/login"@ ==> reference_in(url, base) is Err,
{
    reveal_strlit("/login");
    reveal_strlit("/");
    assert(cut_back(base.path, CharSet::Only('/')) == base.path);
    if url.path == base.path + "/login"@ {
        assert(url.path.subrange(0, base.path.len() as int) =~= base.path);
        assert(url.path.skip(base.path.len() as int) =~= "/login"@);
        assert("/login"@.subrange(0, 6) =~= "/login"@);
        assert("/login"@.subrange(0, 1) =~= "/"@);
    }
}

/// The URL of a path below the base URL is the base URL, without slashes at its end, and the path.
pub proof fn a_path_is_put_behind_the_base(base: UrlView, path: Seq<char>)
    requires
        base.text.len() > 0,
        base.text.last() != '/',
    ensures
        url_below(base, path) == parsed_url(base.text + path),
        url_below(UrlView { text: base.text + "/"@, ..base }, path) == parsed_url(base.text + path),
{
    reveal_strlit("/");
    let set = CharSet::Only('/');
    assert(cut_back(base.text, set) == base.text);
    let long = base.text + "/"@;
    assert(long.last() == '/' && long.drop_last() =~= base.text);
    assert(cut_back(long, set) == cut_back(base.text, set));
}

/// A title that several panels have is told with the number of each of them.
pub proof fn an_ambiguous_title_is_told_with_its_numbers(ps: Seq<PanelView>, title: Seq<char>, i: int, j: int)
    requires
        panel_number(title) is Err,
        0 <= i < j < ps.len(),
        can_query(ps[i]) && ps[i].title == title,
        can_query(ps[j]) && ps[j].title == title,
    ensures
        meant_panel(ps, Some(title), None) matches Err(e) && holds(e, int_text(ps[i].id as int)) && holds(
            e,
            int_text(ps[j].id as int),
        ),
{
    lemma_filtered(ps, title);
    let found = titled(queryable_panels(ps), title);
    lemma_one_of(ps, queried_under(title));
    assert(queried_under(title)(ps[i]) && queried_under(title)(ps[j]));
    assert(found.len() > 1);
    lemma_number_told(ps, title, i);
    lemma_number_told(ps, title, j);
}

proof fn lemma_number_told(ps: Seq<PanelView>, title: Seq<char>, i: int)
    requires
        0 <= i < ps.len(),
        can_query(ps[i]) && ps[i].title == title,
    ensures
        holds(
            "panel title "@ + quoted(title) + " is ambiguous; matching IDs: "@ + joined(
                panel_numbers(titled(queryable_panels(ps), title)),
                ", "@,
            ),
            int_text(ps[i].id as int),
        ),
{
    lemma_filtered(ps, title);
    lemma_kept(ps, queried_under(title), i);
    let found = titled(queryable_panels(ps), title);
    let k = choose|k: int| 0 <= k < found.len() && found[k] == ps[i];
    let v = panel_numbers(found);
    assert(v[k] == int_text(ps[i].id as int));
    joined_text_holds_its_parts(v, ", "@, k);
    let front = "panel title "@ + quoted(title) + " is ambiguous; matching IDs: "@;
    let list = joined(v, ", "@);
    let none = Seq::<char>::empty();
    a_whole_holds_its_middle(front, list, none);
    assert(front + list + none =~= front + list);
    holding_is_handed_on(front + list, list, v[k]);
}

/// An item that does not say what it is is a panel without a title, of no known kind, with no unit,
/// no datasource and no targets.
pub proof fn an_item_that_says_nothing_is_untitled(id: i64, item: JsonView)
    ensures
        str_at(item, "title"@) is None ==> panel_of(id, item).title == "(untitled)"@,
        str_at(item, "type"@) is None ==> panel_of(id, item).kind == "unknown"@,
        member(item, "fieldConfig"@) is None ==> panel_of(id, item).unit is None,
        member(item, "datasource"@) is None ==> panel_of(id, item).datasource == JsonView::Null,
        member(item, "targets"@) is None ==> panel_of(id, item).targets.len() == 0,
{
}

} // verus!
