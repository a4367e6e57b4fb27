//! Variables: which values a dashboard's variables have, and how they get into its queries.

use super::panels::{get_in, member_in, read_str_or, str_or};
use super::table::{entry_at, later_table_wins, with_all, with_entry, Table};
use crate::json::{as_bool, as_items, bool_of, items, lemma_array, member, opt_json, str_at, Json, JsonView};
use crate::live::reply::list_of;
use crate::live::scope::text_outcome;
use crate::number::{int_text, int_to_text};
use crate::patterns::{
    find_group, first_group, group, group_of, match_views, own_pattern, regex_matches, regex_pieces, weave,
    woven, FORMATTED_VARIABLE, VARIABLE,
};
use crate::text::{
    chars_of, find_char, join, joined, opt_text, owned, pairs, place_of, push_pair, push_text, quote, quoted,
    text_between, texts,
};
use vstd::prelude::*;

verus! {

/// The text that a value of a variable stands for: a list is its texts with bars between them;
/// what is empty stands for nothing.
pub open spec fn value_text(j: JsonView) -> Option<Seq<char>>
    decreases j,
{
    match j {
        JsonView::Str(s) => if s.len() > 0 {
            Some(s)
        } else {
            None
        },
        JsonView::Number { text, .. } => Some(text),
        JsonView::Bool(b) => Some(
            if b {
                "true"@
            } else {
                "false"@
            },
        ),
        JsonView::Array(a) => {
            let parts = value_texts(a);
            if parts.len() > 0 {
                Some(joined(parts, "|"@))
            } else {
                None
            }
        },
        _ => None,
    }
}

/// The texts that values of a variable stand for.
pub open spec fn value_texts(a: Seq<JsonView>) -> Seq<Seq<char>>
    decreases a,
{
    if a.len() == 0 {
        Seq::<Seq<char>>::empty()
    } else {
        proof {
            assert(decreases_to!(a => a[a.len() - 1]));
        }
        match value_text(a.last()) {
            Some(s) => value_texts(a.drop_last()).push(s),
            None => value_texts(a.drop_last()),
        }
    }
}

fn read_values(a: &Vec<Json>) -> (r: Vec<String>)
    ensures
        texts(r@) == value_texts(items(a@)),
    decreases items(a@),
{
    let ghost all = items(a@);
    let mut out: Vec<String> = Vec::new();
    assert(texts(out@) =~= value_texts(all.take(0)));
    for i in 0..a.len()
        invariant
            all == items(a@),
            texts(out@) == value_texts(all.take(i as int)),
    {
        proof {
            assert(all.take(i as int + 1).drop_last() =~= all.take(i as int));
            assert(all.take(i as int + 1).last() == a@[i as int]@);
            assert(all[i as int] == a@[i as int]@);
            assert(decreases_to!(all => all[i as int]));
        }
        if let Some(s) = json_value(&a[i]) {
            push_text(&mut out, s);
        }
    }
    assert(all.take(a@.len() as int) =~= all);
    out
}

/// Reads the text that a value of a variable stands for.
pub fn json_value(j: &Json) -> (r: Option<String>)
    ensures
        opt_text(r) == value_text(j@),
    decreases j@,
{
    match j {
        Json::Str(s) => if s.as_str().is_empty() {
            None
        } else {
            Some(owned(s.as_str()))
        },
        Json::Number { text, .. } => Some(owned(text.as_str())),
        Json::Bool(b) => if *b {
            Some(owned("true"))
        } else {
            Some(owned("false"))
        },
        Json::Array(a) => {
            proof {
                lemma_array(*a);
                assert(decreases_to!(j@ => j@->Array_0));
            }
            let parts = read_values(a);
            assert(texts(parts@).len() == parts@.len());
            if parts.len() > 0 {
                Some(join(&parts, "|"))
            } else {
                None
            }
        },
        _ => None,
    }
}

/// The first option that is selected.
pub open spec fn first_selected(options: Seq<JsonView>) -> Option<JsonView>
    decreases options.len(),
{
    if options.len() == 0 {
        None
    } else if bool_of(member(options[0], "selected"@)) == Some(true) {
        Some(options[0])
    } else {
        first_selected(options.skip(1))
    }
}

fn find_selected<'a>(options: &'a Vec<Json>) -> (r: Option<&'a Json>)
    ensures
        opt_json(r) == first_selected(items(options@)),
{
    let ghost all = items(options@);
    assert(all.skip(0) =~= all);
    for i in 0..options.len()
        invariant
            all == items(options@),
            first_selected(all) == first_selected(all.skip(i as int)),
    {
        assert(all.skip(i as int)[0] == options@[i as int]@);
        assert(all.skip(i as int).skip(1) =~= all.skip(i as int + 1));
        if let Some(true) = as_bool(options[i].get("selected")) {
            return Some(&options[i]);
        }
    }
    assert(all.skip(options@.len() as int).len() == 0);
    None
}

/// The text of a value that may be missing.
pub open spec fn text_in(j: Option<JsonView>) -> Option<Seq<char>> {
    match j {
        Some(v) => value_text(v),
        None => None,
    }
}

fn read_text_in(j: Option<&Json>) -> (r: Option<String>)
    ensures
        opt_text(r) == text_in(opt_json(j)),
{
    match j {
        Some(v) => json_value(v),
        None => None,
    }
}

/// The value that a dashboard gives a variable: the current one, or the option that is selected.
pub open spec fn declared_value(var: JsonView) -> Option<Seq<char>> {
    match text_in(member_in(member(var, "current"@), "value"@)) {
        Some(v) => Some(v),
        None => text_in(member_in(first_selected(list_of(member(var, "options"@))), "value"@)),
    }
}

fn read_declared(var: &Json) -> (r: Option<String>)
    ensures
        opt_text(r) == declared_value(var@),
{
    match read_text_in(get_in(var.get("current"), "value")) {
        Some(v) => Some(v),
        None => match as_items(var.get("options")) {
            Some(options) => read_text_in(get_in(find_selected(options), "value")),
            None => None,
        },
    }
}

/// The values that a dashboard gives its variables.
pub open spec fn declared(list: Seq<JsonView>) -> Seq<(Seq<char>, Seq<char>)>
    decreases list.len(),
{
    if list.len() == 0 {
        Seq::<(Seq<char>, Seq<char>)>::empty()
    } else {
        let before = declared(list.drop_last());
        match (str_at(list.last(), "name"@), declared_value(list.last())) {
            (Some(name), Some(value)) => with_entry(before, name, value),
            _ => before,
        }
    }
}

/// The variables of a dashboard.
pub open spec fn dashboard_variables(dashboard: JsonView) -> Seq<(Seq<char>, Seq<char>)> {
    declared(list_of(member_in(member(dashboard, "templating"@), "list"@)))
}

fn read_variables(dashboard: &Json) -> (r: Table)
    ensures
        r@ == dashboard_variables(dashboard@),
        r.wf(),
{
    let mut t = Table::new();
    let list = match as_items(get_in(dashboard.get("templating"), "list")) {
        Some(l) => l,
        None => {
            return t;
        },
    };
    let ghost all = items(list@);
    assert(t@ =~= declared(all.take(0)));
    for i in 0..list.len()
        invariant
            all == items(list@),
            t@ == declared(all.take(i as int)),
            t.wf(),
    {
        assert(all.take(i as int + 1).drop_last() =~= all.take(i as int));
        assert(all.take(i as int + 1).last() == list@[i as int]@);
        if let Some(name) = list[i].get_str("name") {
            if let Some(value) = read_declared(&list[i]) {
                t.insert(name.as_str(), value.as_str());
            }
        }
    }
    assert(all.take(list@.len() as int) =~= all);
    t
}

/// The name and the value in an assignment, or what is wrong with it.
pub open spec fn assignment(raw: Seq<char>) -> Result<(Seq<char>, Seq<char>), Seq<char>> {
    match place_of(raw, '=') {
        None => Err("invalid --var "@ + quoted(raw) + "; expected NAME=VALUE"@),
        Some(at) => if at == 0 {
            Err("--var name cannot be empty"@)
        } else {
            Ok((raw.take(at), raw.skip(at + 1)))
        },
    }
}

fn read_assignment(raw: &str) -> (r: Result<(String, String), String>)
    ensures
        match r {
            Ok(p) => assignment(raw@) == Ok::<(Seq<char>, Seq<char>), Seq<char>>((p.0@, p.1@)),
            Err(e) => assignment(raw@) == Err::<(Seq<char>, Seq<char>), Seq<char>>(e@),
        },
{
    let v = chars_of(raw);
    match find_char(&v, '=') {
        Some(at) => {
            if at == 0 {
                return Err(owned("--var name cannot be empty"));
            }
            let name = text_between(&v, 0, at);
            let value = text_between(&v, at + 1, v.len());
            assert(name@ =~= raw@.take(at as int));
            assert(value@ =~= raw@.skip(at as int + 1));
            Ok((name, value))
        },
        None => {
            let mut e = owned("invalid --var ");
            e.append(quote(raw).as_str());
            e.append("; expected NAME=VALUE");
            Err(e)
        },
    }
}

/// Assignments in the order in which they stand, or what is wrong with the first bad one.
pub open spec fn assignments(cli: Seq<Seq<char>>) -> Result<Seq<(Seq<char>, Seq<char>)>, Seq<char>>
    decreases cli.len(),
{
    if cli.len() == 0 {
        Ok(Seq::<(Seq<char>, Seq<char>)>::empty())
    } else {
        match assignments(cli.drop_last()) {
            Err(e) => Err(e),
            Ok(before) => match assignment(cli.last()) {
                Ok(p) => Ok(before.push(p)),
                Err(e) => Err(e),
            },
        }
    }
}

proof fn lemma_assignments_stop(cli: Seq<Seq<char>>, n: int)
    requires
        0 <= n <= cli.len(),
        assignments(cli.take(n)) is Err,
    ensures
        assignments(cli) == assignments(cli.take(n)),
    decreases cli.len() - n,
{
    if n < cli.len() {
        assert(cli.take(n + 1).drop_last() =~= cli.take(n));
        lemma_assignments_stop(cli, n + 1);
    } else {
        assert(cli.take(n) =~= cli);
    }
}

fn read_assignments(cli: &Vec<String>) -> (r: Result<Vec<(String, String)>, String>)
    ensures
        match r {
            Ok(v) => assignments(texts(cli@)) == Ok::<Seq<(Seq<char>, Seq<char>)>, Seq<char>>(pairs(v@)),
            Err(e) => assignments(texts(cli@)) == Err::<Seq<(Seq<char>, Seq<char>)>, Seq<char>>(e@),
        },
{
    let ghost all = texts(cli@);
    let mut out: Vec<(String, String)> = Vec::new();
    assert(pairs(out@) =~= Seq::<(Seq<char>, Seq<char>)>::empty());
    for i in 0..cli.len()
        invariant
            all == texts(cli@),
            assignments(all.take(i as int)) == Ok::<Seq<(Seq<char>, Seq<char>)>, Seq<char>>(pairs(out@)),
    {
        assert(all.take(i as int + 1).drop_last() =~= all.take(i as int));
        assert(all.take(i as int + 1).last() == cli@[i as int]@);
        match read_assignment(cli[i].as_str()) {
            Ok(p) => {
                push_pair(&mut out, p.0.as_str(), p.1.as_str());
            },
            Err(e) => {
                proof {
                    lemma_assignments_stop(all, i as int + 1);
                }
                return Err(e);
            },
        }
    }
    assert(all.take(cli@.len() as int) =~= all);
    Ok(out)
}

/// The variables that are always there, at a step and a range in seconds.
pub open spec fn standing_variables(step: i64, range: i64) -> Seq<(Seq<char>, Seq<char>)> {
    seq![
        ("__interval"@, int_text(step as int) + "s"@),
        ("__rate_interval"@, int_text(step as int) + "s"@),
        ("__range"@, int_text(range as int) + "s"@),
        ("__all"@, ".*"@),
    ]
}

fn make_standing(step: i64, range: i64) -> (r: Vec<(String, String)>)
    ensures
        pairs(r@) == standing_variables(step, range),
{
    let mut s = int_to_text(step);
    s.append("s");
    let mut w = int_to_text(range);
    w.append("s");
    let mut v: Vec<(String, String)> = Vec::new();
    push_pair(&mut v, "__interval", s.as_str());
    push_pair(&mut v, "__rate_interval", s.as_str());
    push_pair(&mut v, "__range", w.as_str());
    push_pair(&mut v, "__all", ".*");
    assert(pairs(v@) =~= standing_variables(step, range));
    v
}

/// The values of variables: those that are always there, over those assigned on the command
/// line, over those of the URL, over those of the dashboard.
pub open spec fn variables_of(
    dashboard: JsonView,
    url: Seq<(Seq<char>, Seq<char>)>,
    cli: Seq<Seq<char>>,
    step: i64,
    range: i64,
) -> Result<Seq<(Seq<char>, Seq<char>)>, Seq<char>> {
    match assignments(cli) {
        Ok(given) => Ok(
            with_all(
                with_all(with_all(dashboard_variables(dashboard), url), given),
                standing_variables(step, range),
            ),
        ),
        Err(e) => Err(e),
    }
}

/// The view of a table or of why there is none.
pub open spec fn table_outcome(r: Result<Table, String>) -> Result<Seq<(Seq<char>, Seq<char>)>, Seq<char>> {
    match r {
        Ok(t) => Ok(t@),
        Err(e) => Err(e@),
    }
}

/// Finds the values of variables.
pub fn resolve_variables(
    dashboard: &Json,
    url: &Table,
    cli: &Vec<String>,
    step_seconds: i64,
    range_seconds: i64,
) -> (r: Result<Table, String>)
    ensures
        table_outcome(r) == variables_of(dashboard@, url@, texts(cli@), step_seconds, range_seconds),
        r matches Ok(t) ==> t.wf(),
{
    let given = match read_assignments(cli) {
        Ok(g) => g,
        Err(e) => {
            return Err(e);
        },
    };
    let mut t = read_variables(dashboard);
    t.extend(&url.entries);
    t.extend(&given);
    t.extend(&make_standing(step_seconds, range_seconds));
    Ok(t)
}

/// A variable has the value that is always its own, or the one assigned last on the command
/// line, or the one of the URL, or the one of the dashboard: the first of these that there is.
pub proof fn command_line_wins_over_url_over_dashboard(
    dashboard: JsonView,
    url: Seq<(Seq<char>, Seq<char>)>,
    cli: Seq<Seq<char>>,
    step: i64,
    range: i64,
    name: Seq<char>,
)
    ensures
        (variables_of(dashboard, url, cli, step, range), assignments(cli)) matches (Ok(values), Ok(given))
            ==> entry_at(values, name) == match entry_at(standing_variables(step, range), name) {
            Some(v) => Some(v),
            None => match entry_at(given, name) {
                Some(v) => Some(v),
                None => match entry_at(url, name) {
                    Some(v) => Some(v),
                    None => entry_at(dashboard_variables(dashboard), name),
                },
            },
        },
{
    if let Ok(given) = assignments(cli) {
        let own = dashboard_variables(dashboard);
        later_table_wins(own, url, name);
        later_table_wins(with_all(own, url), given, name);
        later_table_wins(with_all(with_all(own, url), given), standing_variables(step, range), name);
    }
}

/// The name of the variable that a match stands for.
pub open spec fn variable_name(m: Seq<Option<Seq<char>>>) -> Option<Seq<char>> {
    match group_of(m, 1) {
        Some(n) => Some(n),
        None => group_of(m, 2),
    }
}

fn name_variable(m: &Vec<Option<String>>) -> (r: Option<String>)
    ensures
        opt_text(r) == variable_name(m@.map_values(|g: Option<String>| opt_text(g))),
{
    match group(m, 1) {
        Some(n) => Some(n),
        None => group(m, 2),
    }
}

/// The variables among matches that have no value, in order, each once.
pub open spec fn missing_in(
    ms: Seq<Seq<Option<Seq<char>>>>,
    values: Seq<(Seq<char>, Seq<char>)>,
) -> Seq<(Seq<char>, Seq<char>)>
    decreases ms.len(),
{
    if ms.len() == 0 {
        Seq::<(Seq<char>, Seq<char>)>::empty()
    } else {
        let before = missing_in(ms.drop_last(), values);
        match variable_name(ms.last()) {
            Some(n) if entry_at(values, n) is None => with_entry(before, n, ""@),
            _ => before,
        }
    }
}

/// Finds the variables among matches that have no value.
pub fn find_missing(ms: &Vec<Vec<Option<String>>>, values: &Table) -> (r: Table)
    ensures
        r@ == missing_in(match_views(ms@), values@),
        r.wf(),
{
    let ghost all = match_views(ms@);
    let mut t = Table::new();
    assert(t@ =~= missing_in(all.take(0), values@));
    for i in 0..ms.len()
        invariant
            all == match_views(ms@),
            t@ == missing_in(all.take(i as int), values@),
            t.wf(),
    {
        assert(all.take(i as int + 1).drop_last() =~= all.take(i as int));
        assert(all.take(i as int + 1).last() == ms@[i as int]@.map_values(|g: Option<String>| opt_text(g)));
        if let Some(n) = name_variable(&ms[i]) {
            if !values.contains_key(n.as_str()) {
                t.insert(n.as_str(), "");
            }
        }
    }
    assert(all.take(ms@.len() as int) =~= all);
    t
}

/// What a match is replaced by: the value of its variable.
pub open spec fn filling(m: Seq<Option<Seq<char>>>, values: Seq<(Seq<char>, Seq<char>)>) -> Seq<char> {
    match variable_name(m) {
        Some(n) => match entry_at(values, n) {
            Some(v) => v,
            None => ""@,
        },
        None => ""@,
    }
}

/// What matches are replaced by.
pub open spec fn fillings_for(
    ms: Seq<Seq<Option<Seq<char>>>>,
    values: Seq<(Seq<char>, Seq<char>)>,
) -> Seq<Seq<char>> {
    ms.map_values(|m: Seq<Option<Seq<char>>>| filling(m, values))
}

/// Finds what matches are replaced by.
pub fn make_fillings(ms: &Vec<Vec<Option<String>>>, values: &Table) -> (r: Vec<String>)
    ensures
        texts(r@) == fillings_for(match_views(ms@), values@),
        r@.len() == ms@.len(),
{
    let ghost all = match_views(ms@);
    let ghost whole = fillings_for(all, values@);
    let mut out: Vec<String> = Vec::new();
    for i in 0..ms.len()
        invariant
            all == match_views(ms@),
            whole == fillings_for(all, values@),
            texts(out@) == whole.take(i as int),
            out@.len() == i,
    {
        let ghost so_far = texts(out@);
        assert(all[i as int] == ms@[i as int]@.map_values(|g: Option<String>| opt_text(g)));
        let s = match name_variable(&ms[i]) {
            Some(n) => match values.get(n.as_str()) {
                Some(v) => v,
                None => owned(""),
            },
            None => owned(""),
        };
        push_text(&mut out, s);
        assert(whole.take(i as int + 1) =~= so_far.push(whole[i as int]));
    }
    assert(whole.take(ms@.len() as int) =~= whole);
    out
}

/// A text with its variables replaced by their values, once.
pub open spec fn substituted(text: Seq<char>, values: Seq<(Seq<char>, Seq<char>)>) -> Seq<char> {
    woven(
        regex_pieces(VARIABLE@, false, text),
        fillings_for(regex_matches(VARIABLE@, false, text), values),
    )
}

/// The names in a table.
pub open spec fn names_in(t: Seq<(Seq<char>, Seq<char>)>) -> Seq<Seq<char>> {
    t.map_values(|e: (Seq<char>, Seq<char>)| e.0)
}

/// The options that would give the variables in a table values.
pub open spec fn options_for(t: Seq<(Seq<char>, Seq<char>)>) -> Seq<Seq<char>> {
    t.map_values(|e: (Seq<char>, Seq<char>)| "--var "@ + e.0 + "=value"@)
}

/// The complaint about variables that have no value.
pub open spec fn missing_complaint(t: Seq<(Seq<char>, Seq<char>)>) -> Seq<char> {
    "unresolved dashboard variables: "@ + joined(names_in(t), ", "@) + ". Supply "@ + joined(
        options_for(t),
        " "@,
    )
}

fn complain_missing(t: &Table) -> (r: String)
    ensures
        r@ == missing_complaint(t@),
{
    let ghost names_whole = names_in(t@);
    let ghost options_whole = options_for(t@);
    let mut names: Vec<String> = Vec::new();
    let mut options: Vec<String> = Vec::new();
    let n: usize = t.entries.len();
    for i in 0..n
        invariant
            n == t.entries@.len(),
            names_whole == names_in(t@),
            options_whole == options_for(t@),
            texts(names@) == names_whole.take(i as int),
            texts(options@) == options_whole.take(i as int),
    {
        let ghost a = texts(names@);
        let ghost b = texts(options@);
        let name = t.entries[i].0.as_str();
        push_text(&mut names, owned(name));
        let mut o = owned("--var ");
        o.append(name);
        o.append("=value");
        push_text(&mut options, o);
        assert(names_whole.take(i as int + 1) =~= a.push(names_whole[i as int]));
        assert(options_whole.take(i as int + 1) =~= b.push(options_whole[i as int]));
    }
    assert(names_whole.take(n as int) =~= names_whole);
    assert(options_whole.take(n as int) =~= options_whole);
    let mut s = owned("unresolved dashboard variables: ");
    s.append(join(&names, ", ").as_str());
    s.append(". Supply ");
    s.append(join(&options, " ").as_str());
    s
}

/// A text with its variables replaced by their values, and the variables in those in turn, at
/// most so many times.
pub open spec fn settled(text: Seq<char>, values: Seq<(Seq<char>, Seq<char>)>, rounds: nat) -> Result<
    Seq<char>,
    Seq<char>,
>
    decreases rounds,
{
    let ms = regex_matches(VARIABLE@, false, text);
    if rounds == 0 {
        if ms.len() > 0 {
            Err("dashboard variable interpolation cycle or excessive nesting"@)
        } else {
            Ok(text)
        }
    } else if missing_in(ms, values).len() > 0 {
        Err(missing_complaint(missing_in(ms, values)))
    } else if substituted(text, values) == text {
        Ok(text)
    } else {
        settled(substituted(text, values), values, (rounds - 1) as nat)
    }
}

/// How many times variables are replaced.
pub const ROUNDS: usize = 16;

/// A text with its variables replaced by their values; a variable with a format is refused.
pub open spec fn interpolated(input: Seq<char>, values: Seq<(Seq<char>, Seq<char>)>) -> Result<
    Seq<char>,
    Seq<char>,
> {
    match first_group(FORMATTED_VARIABLE@, input, 0) {
        Some(m) => Err(
            "unsupported Grafana interpolation "@ + quoted(m) + "; v1 supports $Name and ${Name}"@,
        ),
        None => settled(input, values, ROUNDS as nat),
    }
}

/// Replaces the variables in a text by their values. A text without variables stays as it is.
pub fn interpolate(input: &str, values: &Table) -> (r: Result<String, String>)
    ensures
        text_outcome(r) == interpolated(input@, values@),
        first_group(FORMATTED_VARIABLE@, input@, 0) is None && regex_matches(VARIABLE@, false, input@).len() == 0
            ==> text_outcome(r) == Ok::<Seq<char>, Seq<char>>(input@),
{
    if let Some(m) = find_group(FORMATTED_VARIABLE, input, 0) {
        let mut e = owned("unsupported Grafana interpolation ");
        e.append(quote(m.as_str()).as_str());
        e.append("; v1 supports $Name and ${Name}");
        return Err(e);
    }
    let pattern = own_pattern(VARIABLE);
    let mut text = owned(input);
    let ghost plain = regex_matches(VARIABLE@, false, input@).len() == 0;
    for i in 0..ROUNDS
        invariant
            pattern.source() == VARIABLE@,
            !pattern.ignores_case(),
            plain == (regex_matches(VARIABLE@, false, input@).len() == 0),
            first_group(FORMATTED_VARIABLE@, input@, 0) is None,
            plain ==> text@ == input@,
            interpolated(input@, values@) == settled(text@, values@, (ROUNDS - i) as nat),
    {
        let ms = pattern.matches(text.as_str());
        let ghost all = match_views(ms@);
        assert(all.len() == ms@.len());
        let missing = find_missing(&ms, values);
        assert(missing@.len() == missing.entries@.len());
        if missing.entries.len() > 0 {
            proof {
                if plain {
                    assert(all =~= Seq::<Seq<Option<Seq<char>>>>::empty());
                    assert(missing_in(all, values@).len() == 0);
                }
            }
            return Err(complain_missing(&missing));
        }
        let parts = pattern.split(text.as_str());
        let fillings = make_fillings(&ms, values);
        let next = weave(&parts, &fillings);
        if *next.as_str() == *text.as_str() {
            return Ok(text);
        }
        proof {
            if plain {
                assert(texts(parts@)[0] == parts@[0]@);
                assert(next@ == text@);
            }
        }
        text = next;
    }
    if pattern.is_match(text.as_str()) {
        Err(owned("dashboard variable interpolation cycle or excessive nesting"))
    } else {
        Ok(text)
    }
}

/// The datasource that a value names: its identifier and its kind.
pub open spec fn datasource_in(value: JsonView, values: Seq<(Seq<char>, Seq<char>)>) -> Result<
    (Seq<char>, Seq<char>),
    Seq<char>,
> {
    let raw = match value {
        JsonView::Str(uid) => Some((uid, "prometheus"@)),
        JsonView::Object(_) => Some((str_or(value, "uid"@, ""@), str_or(value, "type"@, "prometheus"@))),
        _ => None,
    };
    match raw {
        None => Err("selected panel has no concrete datasource"@),
        Some((uid, kind)) => match interpolated(uid, values) {
            Err(e) => Err(e),
            Ok(uid) => match interpolated(kind, values) {
                Err(e) => Err(e),
                Ok(kind) => if uid.len() == 0 {
                    Err("selected panel datasource UID is empty"@)
                } else if kind == "mixed"@ || kind == "__expr__"@ {
                    Err("unsupported panel datasource type "@ + quoted(kind))
                } else {
                    Ok((uid, kind))
                },
            },
        },
    }
}

/// The view of a pair of texts or of why there is none.
pub open spec fn pair_outcome(r: Result<(String, String), String>) -> Result<(Seq<char>, Seq<char>), Seq<char>> {
    match r {
        Ok(p) => Ok((p.0@, p.1@)),
        Err(e) => Err(e@),
    }
}

/// Reads the datasource that a value names.
pub fn datasource_parts(value: &Json, variables: &Table) -> (r: Result<(String, String), String>)
    ensures
        pair_outcome(r) == datasource_in(value@, variables@),
{
    let (uid, kind) = match value {
        Json::Str(uid) => (owned(uid.as_str()), owned("prometheus")),
        Json::Object(_) => (read_str_or(value, "uid", ""), read_str_or(value, "type", "prometheus")),
        _ => {
            return Err(owned("selected panel has no concrete datasource"));
        },
    };
    let uid = match interpolate(uid.as_str(), variables) {
        Ok(s) => s,
        Err(e) => {
            return Err(e);
        },
    };
    let kind = match interpolate(kind.as_str(), variables) {
        Ok(s) => s,
        Err(e) => {
            return Err(e);
        },
    };
    if uid.as_str().is_empty() {
        return Err(owned("selected panel datasource UID is empty"));
    }
    if *kind.as_str() == *"mixed" || *kind.as_str() == *"__expr__" {
        let mut e = owned("unsupported panel datasource type ");
        e.append(quote(kind.as_str()).as_str());
        return Err(e);
    }
    Ok((uid, kind))
}

} // verus!
