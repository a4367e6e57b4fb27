//! Panels: which ones a dashboard has, and which one is meant.

use super::url::{panel_number, parse_panel_id};
use crate::json::{
    as_bool, as_items, as_str, as_whole, bool_of, copy_items, field_of, items, member, opt_json, str_at,
    str_of, whole_of, Json, JsonView,
};
use crate::live::reply::list_of;
use crate::number::{int_text, int_to_text};
use crate::order::{sort_texts, sorted_texts};
use crate::text::{
    copy_opt, join, joined, opt_str, opt_text, owned, push_text, quote, quoted, texts, trim, trimmed,
};
use vstd::prelude::*;

verus! {

/// A panel of a dashboard.
pub struct Panel {
    pub id: i64,
    pub title: String,
    pub kind: String,
    pub unit: Option<String>,
    pub datasource: Json,
    pub targets: Vec<Json>,
}

/// The model of a panel.
#[verifier::ext_equal]
pub struct PanelView {
    pub id: i64,
    pub title: Seq<char>,
    pub kind: Seq<char>,
    pub unit: Option<Seq<char>>,
    pub datasource: JsonView,
    pub targets: Seq<JsonView>,
}

impl View for Panel {
    type V = PanelView;

    open spec fn view(&self) -> PanelView {
        PanelView {
            id: self.id,
            title: self.title@,
            kind: self.kind@,
            unit: opt_text(self.unit),
            datasource: self.datasource@,
            targets: items(self.targets@),
        }
    }
}

/// The views of panels.
pub open spec fn panel_views(v: Seq<Panel>) -> Seq<PanelView> {
    v.map_values(|p: Panel| p@)
}

impl Panel {
    /// A copy of the panel.
    pub fn copy(&self) -> (r: Panel)
        ensures
            r@ == self@,
    {
        Panel {
            id: self.id,
            title: owned(self.title.as_str()),
            kind: owned(self.kind.as_str()),
            unit: copy_opt(&self.unit),
            datasource: self.datasource.copy(),
            targets: copy_items(&self.targets),
        }
    }
}

/// A text field of a value, or another text.
pub open spec fn str_or(j: JsonView, key: Seq<char>, other: Seq<char>) -> Seq<char> {
    match str_at(j, key) {
        Some(s) => s,
        None => other,
    }
}

/// Reads a text field of a value, or takes another text.
pub fn read_str_or(j: &Json, key: &str, other: &str) -> (r: String)
    ensures
        r@ == str_or(j@, key@, other@),
{
    match j.get_str(key) {
        Some(s) => s,
        None => owned(other),
    }
}

/// A value down a path of two or three names.
pub open spec fn member_in(j: Option<JsonView>, key: Seq<char>) -> Option<JsonView> {
    match j {
        Some(v) => member(v, key),
        None => None,
    }
}

/// Finds a field of a value that may be missing.
pub fn get_in<'a>(j: Option<&'a Json>, key: &str) -> (r: Option<&'a Json>)
    ensures
        opt_json(r) == member_in(opt_json(j), key@),
{
    match j {
        Some(v) => v.get(key),
        None => None,
    }
}

/// The panel that an item stands for, under a number.
pub open spec fn panel_of(id: i64, item: JsonView) -> PanelView {
    PanelView {
        id,
        title: str_or(item, "title"@, "(untitled)"@),
        kind: str_or(item, "type"@, "unknown"@),
        unit: str_of(member_in(member_in(member(item, "fieldConfig"@), "defaults"@), "unit"@)),
        datasource: match member(item, "datasource"@) {
            Some(d) => d,
            None => JsonView::Null,
        },
        targets: list_of(member(item, "targets"@)),
    }
}

fn read_panel(id: i64, item: &Json) -> (r: Panel)
    ensures
        r@ == panel_of(id, item@),
{
    let targets = match as_items(item.get("targets")) {
        Some(t) => copy_items(t),
        None => {
            let none: Vec<Json> = Vec::new();
            assert(items(none@) =~= Seq::<JsonView>::empty());
            none
        },
    };
    Panel {
        id,
        title: read_str_or(item, "title", "(untitled)"),
        kind: read_str_or(item, "type", "unknown"),
        unit: as_str(get_in(get_in(item.get("fieldConfig"), "defaults"), "unit")),
        datasource: match item.get("datasource") {
            Some(d) => d.copy(),
            None => Json::Null,
        },
        targets,
    }
}

/// Whether a panel of this number is among panels.
pub open spec fn has_panel(ps: Seq<PanelView>, id: i64) -> bool {
    exists|i: int| 0 <= i < ps.len() && (#[trigger] ps[i]).id == id
}

/// A field is smaller than the value that it belongs to.
pub proof fn lemma_member_is_smaller(j: JsonView, key: Seq<char>)
    ensures
        member(j, key) matches Some(x) ==> decreases_to!(j => x),
{
    if let JsonView::Object(o) = j {
        lemma_field_is_inside(o, key);
        if let Some(x) = field_of(o, key) {
            let i = choose|i: int| 0 <= i < o.len() && (#[trigger] o[i]).1 == x;
            assert(decreases_to!(j => j->Object_0));
            assert(decreases_to!(j->Object_0 => j->Object_0[i]));
            assert(decreases_to!(j->Object_0[i] => j->Object_0[i].1));
        }
    }
}

proof fn lemma_field_is_inside(o: Seq<(Seq<char>, JsonView)>, key: Seq<char>)
    ensures
        field_of(o, key) matches Some(x) ==> exists|i: int| 0 <= i < o.len() && (#[trigger] o[i]).1 == x,
    decreases o.len(),
{
    if o.len() > 0 {
        lemma_field_is_inside(o.drop_last(), key);
        if let Some(x) = field_of(o.drop_last(), key) {
            let i = choose|i: int| 0 <= i < o.drop_last().len() && (#[trigger] o.drop_last()[i]).1 == x;
            assert(o[i].1 == x);
        } else if o.last().0 == key {
            assert(o[o.len() - 1].1 == o.last().1);
        }
    }
}

/// The panels in a list of items on top of those that are known: each number counts once, and
/// the panels inside an item follow it.
pub open spec fn panels_in(list: Seq<JsonView>, known: Seq<PanelView>) -> Seq<PanelView>
    decreases list,
{
    if list.len() == 0 {
        known
    } else {
        let before = panels_in(list.drop_last(), known);
        let item = list.last();
        let with = match whole_of(member(item, "id"@)) {
            Some(id) if !has_panel(before, id) => before.push(panel_of(id, item)),
            _ => before,
        };
        proof {
            lemma_member_is_smaller(item, "panels"@);
            assert(decreases_to!(list => list[list.len() - 1]));
        }
        match member(item, "panels"@) {
            Some(JsonView::Array(nested)) => panels_in(nested, with),
            _ => with,
        }
    }
}

/// The panels of a dashboard.
pub open spec fn dashboard_panels(dashboard: JsonView) -> Seq<PanelView> {
    panels_in(list_of(member(dashboard, "panels"@)), Seq::<PanelView>::empty())
}

fn known(ps: &Vec<Panel>, id: i64) -> (r: bool)
    ensures
        r == has_panel(panel_views(ps@), id),
{
    let ghost all = panel_views(ps@);
    for i in 0..ps.len()
        invariant
            all == panel_views(ps@),
            forall|k: int| 0 <= k < i ==> (#[trigger] all[k]).id != id,
    {
        if ps[i].id == id {
            assert(all[i as int].id == id);
            return true;
        }
    }
    false
}

fn walk(list: &Vec<Json>, out: &mut Vec<Panel>)
    ensures
        panel_views(final(out)@) == panels_in(items(list@), panel_views(old(out)@)),
    decreases items(list@),
{
    let ghost all = items(list@);
    let ghost was = panel_views(out@);
    assert(panels_in(all.take(0), was) =~= was);
    for i in 0..list.len()
        invariant
            all == items(list@),
            panel_views(out@) == panels_in(all.take(i as int), was),
    {
        let item = &list[i];
        let ghost so_far = panel_views(out@);
        proof {
            assert(all.take(i as int + 1).drop_last() =~= all.take(i as int));
            assert(all.take(i as int + 1).last() == item@);
            assert(all[i as int] == item@);
            lemma_member_is_smaller(item@, "panels"@);
            assert(decreases_to!(all => all[i as int]));
        }
        if let Some(id) = as_whole(item.get("id")) {
            if !known(out, id) {
                let p = read_panel(id, item);
                let ghost pv = p@;
                out.push(p);
                assert(panel_views(out@) =~= so_far.push(pv));
            }
        }
        if let Some(nested) = as_items(item.get("panels")) {
            proof {
                let inner = member(item@, "panels"@)->0;
                assert(decreases_to!(inner => inner->Array_0));
            }
            walk(nested, out);
        }
    }
    assert(all.take(list@.len() as int) =~= all);
}

/// Collects the panels of a dashboard.
pub fn collect_panels(dashboard: &Json) -> (r: Vec<Panel>)
    ensures
        panel_views(r@) == dashboard_panels(dashboard@),
{
    let mut out: Vec<Panel> = Vec::new();
    assert(panel_views(out@) =~= Seq::<PanelView>::empty());
    if let Some(list) = as_items(dashboard.get("panels")) {
        walk(list, &mut out);
    }
    out
}

/// Whether a target is hidden.
pub open spec fn is_hidden(t: JsonView) -> bool {
    bool_of(member(t, "hide"@)) == Some(true)
}

/// The expression of a target, where it is not blank.
pub open spec fn expression_of(t: JsonView) -> Option<Seq<char>> {
    match str_at(t, "expr"@) {
        Some(s) if trimmed(s).len() > 0 => Some(s),
        _ => None,
    }
}

/// Tells whether a target is hidden.
pub fn hidden(t: &Json) -> (r: bool)
    ensures
        r == is_hidden(t@),
{
    match as_bool(t.get("hide")) {
        Some(b) => b,
        None => false,
    }
}

/// Reads the expression of a target, where it is not blank.
pub fn read_expression(t: &Json) -> (r: Option<String>)
    ensures
        opt_text(r) == expression_of(t@),
{
    match t.get_str("expr") {
        Some(s) => if trim(s.as_str()).as_str().is_empty() {
            None
        } else {
            Some(s)
        },
        None => None,
    }
}

/// Whether any of targets can be queried.
pub open spec fn any_query(targets: Seq<JsonView>) -> bool {
    exists|i: int| 0 <= i < targets.len() && !is_hidden(#[trigger] targets[i]) && expression_of(targets[i]) is Some
}

/// Whether a panel can be queried: it is no row, has a datasource, and has a target that is not
/// hidden and has an expression.
pub open spec fn can_query(p: PanelView) -> bool {
    p.kind != "row"@ && !(p.datasource is Null) && any_query(p.targets)
}

/// Tells whether a panel can be queried.
pub fn queryable(p: &Panel) -> (r: bool)
    ensures
        r == can_query(p@),
{
    if *p.kind.as_str() == *"row" {
        return false;
    }
    if let Json::Null = &p.datasource {
        return false;
    }
    let ghost all = items(p.targets@);
    let n: usize = p.targets.len();
    for i in 0..n
        invariant
            n == p.targets@.len(),
            all == items(p.targets@),
            p.kind@ != "row"@,
            !(p.datasource@ is Null),
            forall|k: int| 0 <= k < i ==> is_hidden(#[trigger] all[k]) || expression_of(all[k]) is None,
    {
        assert(all[i as int] == p.targets@[i as int]@);
        if !hidden(&p.targets[i]) && read_expression(&p.targets[i]).is_some() {
            return true;
        }
    }
    false
}

/// The panels that can be queried.
pub open spec fn queryable_panels(ps: Seq<PanelView>) -> Seq<PanelView>
    decreases ps.len(),
{
    if ps.len() == 0 {
        ps
    } else if can_query(ps.last()) {
        queryable_panels(ps.drop_last()).push(ps.last())
    } else {
        queryable_panels(ps.drop_last())
    }
}

fn pick_queryable(ps: &Vec<Panel>) -> (r: Vec<Panel>)
    ensures
        panel_views(r@) == queryable_panels(panel_views(ps@)),
{
    let ghost all = panel_views(ps@);
    let mut out: Vec<Panel> = Vec::new();
    assert(panel_views(out@) =~= queryable_panels(all.take(0)));
    for i in 0..ps.len()
        invariant
            all == panel_views(ps@),
            panel_views(out@) == queryable_panels(all.take(i as int)),
    {
        let ghost so_far = panel_views(out@);
        assert(all.take(i as int + 1).drop_last() =~= all.take(i as int));
        assert(all.take(i as int + 1).last() == ps@[i as int]@);
        if queryable(&ps[i]) {
            out.push(ps[i].copy());
            assert(panel_views(out@) =~= so_far.push(all[i as int]));
        }
    }
    assert(all.take(ps@.len() as int) =~= all);
    out
}

/// The panels of a title.
pub open spec fn titled(ps: Seq<PanelView>, title: Seq<char>) -> Seq<PanelView>
    decreases ps.len(),
{
    if ps.len() == 0 {
        ps
    } else if ps.last().title == title {
        titled(ps.drop_last(), title).push(ps.last())
    } else {
        titled(ps.drop_last(), title)
    }
}

fn pick_titled(ps: &Vec<Panel>, title: &str) -> (r: Vec<Panel>)
    ensures
        panel_views(r@) == titled(panel_views(ps@), title@),
{
    let ghost all = panel_views(ps@);
    let mut out: Vec<Panel> = Vec::new();
    assert(panel_views(out@) =~= titled(all.take(0), title@));
    for i in 0..ps.len()
        invariant
            all == panel_views(ps@),
            panel_views(out@) == titled(all.take(i as int), title@),
    {
        let ghost so_far = panel_views(out@);
        assert(all.take(i as int + 1).drop_last() =~= all.take(i as int));
        assert(all.take(i as int + 1).last() == ps@[i as int]@);
        if *ps[i].title.as_str() == *title {
            out.push(ps[i].copy());
            assert(panel_views(out@) =~= so_far.push(all[i as int]));
        }
    }
    assert(all.take(ps@.len() as int) =~= all);
    out
}

/// A complaint with the panels that can be queried.
pub open spec fn panel_complaint(ps: Seq<PanelView>, message: Seq<char>) -> Seq<char> {
    message + ". Queryable panels:\n  "@ + joined(
        sorted_texts(ps.map_values(|p: PanelView| int_text(p.id as int) + " — "@ + p.title)),
        "\n  "@,
    )
}

/// Makes a complaint with the panels that can be queried.
pub fn panel_error(ps: &Vec<Panel>, message: &str) -> (r: String)
    ensures
        r@ == panel_complaint(panel_views(ps@), message@),
{
    let ghost whole = panel_views(ps@).map_values(|p: PanelView| int_text(p.id as int) + " — "@ + p.title);
    let mut list: Vec<String> = Vec::new();
    for i in 0..ps.len()
        invariant
            whole == panel_views(ps@).map_values(|p: PanelView| int_text(p.id as int) + " — "@ + p.title),
            texts(list@) == whole.take(i as int),
    {
        let ghost so_far = texts(list@);
        let mut s = int_to_text(ps[i].id);
        s.append(" — ");
        s.append(ps[i].title.as_str());
        push_text(&mut list, s);
        assert(whole.take(i as int + 1) =~= so_far.push(whole[i as int]));
    }
    assert(whole.take(ps@.len() as int) =~= whole);
    let mut s = owned(message);
    s.append(". Queryable panels:\n  ");
    s.append(join(&sort_texts(&list), "\n  ").as_str());
    s
}

/// The first panel of a number.
pub open spec fn panel_at(ps: Seq<PanelView>, id: i64) -> Option<PanelView>
    decreases ps.len(),
{
    if ps.len() == 0 {
        None
    } else if ps[0].id == id {
        Some(ps[0])
    } else {
        panel_at(ps.skip(1), id)
    }
}

/// The panel of a number, where there is one that can be queried.
pub open spec fn numbered_panel(ps: Seq<PanelView>, id: i64) -> Result<PanelView, Seq<char>> {
    match panel_at(ps, id) {
        Some(p) => if can_query(p) {
            Ok(p)
        } else {
            Err("panel "@ + int_text(id as int) + " is not queryable"@)
        },
        None => Err(
            panel_complaint(queryable_panels(ps), "panel "@ + int_text(id as int) + " not found"@),
        ),
    }
}

/// The numbers of panels as text.
pub open spec fn panel_numbers(ps: Seq<PanelView>) -> Seq<Seq<char>> {
    ps.map_values(|p: PanelView| int_text(p.id as int))
}

/// The panel of a title, where there is exactly one that can be queried.
pub open spec fn titled_panel(ps: Seq<PanelView>, wanted: Seq<char>) -> Result<PanelView, Seq<char>> {
    let found = titled(queryable_panels(ps), wanted);
    if found.len() == 1 {
        Ok(found[0])
    } else if found.len() == 0 {
        Err(
            panel_complaint(
                queryable_panels(ps),
                "panel title "@ + quoted(wanted) + " not found"@,
            ),
        )
    } else {
        Err(
            "panel title "@ + quoted(wanted) + " is ambiguous; matching IDs: "@ + joined(
                panel_numbers(found),
                ", "@,
            ),
        )
    }
}

/// The panel that is meant: the one asked for by number or by title, the one that the URL names,
/// or the only one that can be queried.
pub open spec fn meant_panel(ps: Seq<PanelView>, explicit: Option<Seq<char>>, from_url: Option<i64>) -> Result<
    PanelView,
    Seq<char>,
> {
    let wanted = match explicit {
        Some(s) => Some(s),
        None => match from_url {
            Some(id) => Some(int_text(id as int)),
            None => None,
        },
    };
    match wanted {
        Some(w) => match panel_number(w) {
            Ok(id) => numbered_panel(ps, id),
            Err(_) => titled_panel(ps, w),
        },
        None => if queryable_panels(ps).len() == 1 {
            Ok(queryable_panels(ps)[0])
        } else {
            Err(panel_complaint(queryable_panels(ps), "select a panel with --panel"@))
        },
    }
}

/// The view of a panel or of why there is none.
pub open spec fn panel_outcome(r: Result<Panel, String>) -> Result<PanelView, Seq<char>> {
    match r {
        Ok(p) => Ok(p@),
        Err(e) => Err(e@),
    }
}

fn find_numbered(ps: &Vec<Panel>, id: i64) -> (r: Result<Panel, String>)
    ensures
        panel_outcome(r) == numbered_panel(panel_views(ps@), id),
{
    let ghost all = panel_views(ps@);
    assert(all.skip(0) =~= all);
    for i in 0..ps.len()
        invariant
            all == panel_views(ps@),
            panel_at(all, id) == panel_at(all.skip(i as int), id),
    {
        assert(all.skip(i as int)[0] == ps@[i as int]@);
        assert(all.skip(i as int).skip(1) =~= all.skip(i as int + 1));
        if ps[i].id == id {
            if queryable(&ps[i]) {
                return Ok(ps[i].copy());
            }
            let mut e = owned("panel ");
            e.append(int_to_text(id).as_str());
            e.append(" is not queryable");
            return Err(e);
        }
    }
    assert(all.skip(ps@.len() as int).len() == 0);
    let mut m = owned("panel ");
    m.append(int_to_text(id).as_str());
    m.append(" not found");
    Err(panel_error(&pick_queryable(ps), m.as_str()))
}

fn number_panels(ps: &Vec<Panel>) -> (r: Vec<String>)
    ensures
        texts(r@) == panel_numbers(panel_views(ps@)),
{
    let ghost whole = panel_numbers(panel_views(ps@));
    let mut out: Vec<String> = Vec::new();
    for i in 0..ps.len()
        invariant
            whole == panel_numbers(panel_views(ps@)),
            texts(out@) == whole.take(i as int),
    {
        let ghost so_far = texts(out@);
        push_text(&mut out, int_to_text(ps[i].id));
        assert(whole.take(i as int + 1) =~= so_far.push(whole[i as int]));
    }
    assert(whole.take(ps@.len() as int) =~= whole);
    out
}

fn find_titled(ps: &Vec<Panel>, wanted: &str) -> (r: Result<Panel, String>)
    ensures
        panel_outcome(r) == titled_panel(panel_views(ps@), wanted@),
{
    let candidates = pick_queryable(ps);
    let found = pick_titled(&candidates, wanted);
    assert(panel_views(found@).len() == found@.len());
    if found.len() == 1 {
        assert(panel_views(found@)[0] == found@[0]@);
        return Ok(found[0].copy());
    }
    let mut m = owned("panel title ");
    m.append(quote(wanted).as_str());
    if found.len() == 0 {
        m.append(" not found");
        return Err(panel_error(&candidates, m.as_str()));
    }
    m.append(" is ambiguous; matching IDs: ");
    m.append(join(&number_panels(&found), ", ").as_str());
    Err(m)
}

/// Selects the panel that is meant.
pub fn select_panel(ps: &Vec<Panel>, explicit: Option<&str>, from_url: Option<i64>) -> (r: Result<Panel, String>)
    ensures
        panel_outcome(r) == meant_panel(panel_views(ps@), opt_str(explicit), from_url),
{
    let wanted: Option<String> = match explicit {
        Some(s) => Some(owned(s)),
        None => match from_url {
            Some(id) => Some(int_to_text(id)),
            None => None,
        },
    };
    if let Some(w) = wanted {
        return match parse_panel_id(w.as_str()) {
            Ok(id) => find_numbered(ps, id),
            Err(_) => find_titled(ps, w.as_str()),
        };
    }
    let candidates = pick_queryable(ps);
    assert(panel_views(candidates@).len() == candidates@.len());
    if candidates.len() == 1 {
        assert(panel_views(candidates@)[0] == candidates@[0]@);
        return Ok(candidates[0].copy());
    }
    Err(panel_error(&candidates, "select a panel with --panel"))
}

proof fn lemma_queryable(ps: Seq<PanelView>)
    ensures
        forall|i: int| 0 <= i < queryable_panels(ps).len() ==> can_query(#[trigger] queryable_panels(ps)[i]),
    decreases ps.len(),
{
    if ps.len() > 0 {
        let front = queryable_panels(ps.drop_last());
        lemma_queryable(ps.drop_last());
        assert forall|i: int| 0 <= i < queryable_panels(ps).len() implies can_query(
            #[trigger] queryable_panels(ps)[i],
        ) by {
            if i < front.len() {
                assert(can_query(front[i]));
            }
        }
    }
}

proof fn lemma_titled(ps: Seq<PanelView>, title: Seq<char>)
    requires
        forall|i: int| 0 <= i < ps.len() ==> can_query(#[trigger] ps[i]),
    ensures
        forall|i: int| 0 <= i < titled(ps, title).len() ==> can_query(#[trigger] titled(ps, title)[i]),
    decreases ps.len(),
{
    if ps.len() > 0 {
        assert forall|i: int| 0 <= i < ps.drop_last().len() implies can_query(#[trigger] ps.drop_last()[i]) by {
            assert(ps.drop_last()[i] == ps[i]);
        }
        lemma_titled(ps.drop_last(), title);
        assert(can_query(ps[ps.len() - 1]));
        let front = titled(ps.drop_last(), title);
        assert forall|i: int| 0 <= i < titled(ps, title).len() implies can_query(#[trigger] titled(ps, title)[i]) by {
            if i < front.len() {
                assert(can_query(front[i]));
            }
        }
    }
}

/// The panel that is selected can always be queried.
pub proof fn selected_panel_can_be_queried(
    ps: Seq<PanelView>,
    explicit: Option<Seq<char>>,
    from_url: Option<i64>,
)
    ensures
        meant_panel(ps, explicit, from_url) matches Ok(p) ==> can_query(p),
{
    lemma_queryable(ps);
    if let Some(w) = explicit {
        lemma_titled(queryable_panels(ps), w);
    }
    if let Some(id) = from_url {
        lemma_titled(queryable_panels(ps), int_text(id as int));
    }
}

proof fn lemma_panels_once(list: Seq<JsonView>, known: Seq<PanelView>)
    requires
        forall|i: int, j: int| 0 <= i < j < known.len() ==> (#[trigger] known[i]).id != (#[trigger] known[j]).id,
    ensures
        forall|i: int, j: int|
            0 <= i < j < panels_in(list, known).len() ==> (#[trigger] panels_in(list, known)[i]).id != (
            #[trigger] panels_in(list, known)[j]).id,
    decreases list,
{
    if list.len() > 0 {
        lemma_panels_once(list.drop_last(), known);
        let before = panels_in(list.drop_last(), known);
        let item = list.last();
        let with = match whole_of(member(item, "id"@)) {
            Some(id) if !has_panel(before, id) => before.push(panel_of(id, item)),
            _ => before,
        };
        assert forall|i: int, j: int| 0 <= i < j < with.len() implies (#[trigger] with[i]).id != (
        #[trigger] with[j]).id by {
            if j < before.len() {
                assert(before[i].id != before[j].id);
            } else {
                assert(with[i] == before[i]);
            }
        }
        lemma_member_is_smaller(item, "panels"@);
        assert(decreases_to!(list => list[list.len() - 1]));
        if let Some(JsonView::Array(nested)) = member(item, "panels"@) {
            assert(decreases_to!(member(item, "panels"@)->0 => (member(item, "panels"@)->0)->Array_0));
            lemma_panels_once(nested, with);
        }
    }
}

/// No two panels of a dashboard have one number.
pub proof fn panels_have_their_own_numbers(dashboard: JsonView)
    ensures
        forall|i: int, j: int|
            0 <= i < j < dashboard_panels(dashboard).len() ==> (#[trigger] dashboard_panels(dashboard)[i]).id != (
            #[trigger] dashboard_panels(dashboard)[j]).id,
{
    lemma_panels_once(list_of(member(dashboard, "panels"@)), Seq::<PanelView>::empty());
}

} // verus!
