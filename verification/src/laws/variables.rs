//! Laws of the variables of a dashboard and of the range that it is looked at over.

use super::texts::joined_text_holds_its_parts;
use crate::dashboard::range::{default_step, on_command_line, range_of, second_of, AskedView};
use crate::dashboard::table::{entry_at, entry_is_what_was_put};
use crate::dashboard::targets::goes_to;
use crate::dashboard::variables::{
    assignment, assignments, datasource_in, declared, declared_value, first_selected, fillings_for, interpolated,
    missing_complaint, missing_in, names_in, settled, standing_variables, substituted, value_text, value_texts,
    variable_name,
};
use crate::json::{bool_of, member, member2, str_at, JsonView};
use crate::live::duration::{compound_secs, lemma_decimal_is_digits};
use crate::number::{decimal, int_text, int_text_reads_back, is_digit};
use crate::patterns::{first_group, regex_matches, regex_pieces, woven, FORMATTED_VARIABLE, VARIABLE};
use crate::text::{ascii_lowered, begins, holds, is_space, joined, lemma_place_of, place_of, quoted, trimmed};
use vstd::prelude::*;

verus! {

/// An assignment gives a name everything after its first equals sign.
pub proof fn an_assignment_gives_a_name_its_value(name: Seq<char>, value: Seq<char>)
    requires
        name.len() > 0,
        !name.contains('='),
    ensures
        assignment(name + "="@ + value) == Ok::<(Seq<char>, Seq<char>), Seq<char>>((name, value)),
{
    reveal_strlit("=");
    let raw = name + "="@ + value;
    let at = name.len() as int;
    lemma_place_of(raw, '=');
    assert(raw[at] == '=');
    assert forall|j: int| 0 <= j < at implies raw[j] != '=' by {
        assert(name.contains(name[j]));
    }
    assert(place_of(raw, '=') == Some(at));
    assert(raw.take(at) =~= name);
    assert(raw.skip(at + 1) =~= value);
}

/// Assignments are taken one by one, in their order.
pub proof fn assignments_are_taken_one_by_one(cli: Seq<Seq<char>>)
    ensures
        assignments(cli) matches Ok(v) ==> v.len() == cli.len() && forall|k: int|
            0 <= k < cli.len() ==> assignment(cli[k]) == Ok::<(Seq<char>, Seq<char>), Seq<char>>(#[trigger] v[k]),
        assignments(cli) is Err ==> exists|k: int| 0 <= k < cli.len() && assignment(#[trigger] cli[k]) is Err,
    decreases cli.len(),
{
    if cli.len() > 0 {
        let front = cli.drop_last();
        assignments_are_taken_one_by_one(front);
        let last = cli.len() - 1;
        match assignments(cli) {
            Ok(v) => {
                let before = assignments(front)->Ok_0;
                assert forall|k: int| 0 <= k < cli.len() implies assignment(cli[k]) == Ok::<
                    (Seq<char>, Seq<char>),
                    Seq<char>,
                >(#[trigger] v[k]) by {
                    if k < last {
                        assert(v[k] == before[k]);
                        assert(front[k] == cli[k]);
                    }
                }
            },
            Err(_) => {
                if assignments(front) is Err {
                    let k = choose|k: int| 0 <= k < front.len() && assignment(#[trigger] front[k]) is Err;
                    assert(cli[k] == front[k]);
                } else {
                    assert(assignment(cli[last]) is Err);
                }
            },
        }
    }
}

/// The interval and the range are always there, as seconds, and so is what matches everything.
pub proof fn interval_and_range_are_always_there(step: i64, range: i64)
    ensures
        entry_at(standing_variables(step, range), "__interval"@) == Some(int_text(step as int) + "s"@),
        entry_at(standing_variables(step, range), "__rate_interval"@) == Some(int_text(step as int) + "s"@),
        entry_at(standing_variables(step, range), "__range"@) == Some(int_text(range as int) + "s"@),
        entry_at(standing_variables(step, range), "__all"@) == Some(".*"@),
{
    let s = standing_variables(step, range);
    reveal_strlit("__interval");
    reveal_strlit("__rate_interval");
    reveal_strlit("__range");
    reveal_strlit("__all");
    assert("__interval"@.len() == 10 && "__rate_interval"@.len() == 15 && "__range"@.len() == 7 && "__all"@.len() == 5);
    let a = s.drop_last();
    let b = a.drop_last();
    let c = b.drop_last();
    assert(s.last() == ("__all"@, ".*"@));
    assert(a.last() == ("__range"@, int_text(range as int) + "s"@));
    assert(b.last() == ("__rate_interval"@, int_text(step as int) + "s"@));
    assert(c.last() == ("__interval"@, int_text(step as int) + "s"@));
    reveal_with_fuel(entry_at, 5);
}

/// A variable has the current value that its dashboard gives it, whatever options it has.
pub proof fn the_current_value_comes_first(var: JsonView, value: Seq<char>)
    requires
        value.len() > 0,
        member2(var, "current"@, "value"@) == Some(JsonView::Str(value)),
    ensures
        declared_value(var) == Some(value),
{
}

proof fn lemma_first_selected(options: Seq<JsonView>, k: int)
    requires
        0 <= k < options.len(),
        bool_of(member(options[k], "selected"@)) == Some(true),
        forall|j: int| 0 <= j < k ==> bool_of(member(#[trigger] options[j], "selected"@)) != Some(true),
    ensures
        first_selected(options) == Some(options[k]),
    decreases k,
{
    if k > 0 {
        assert(bool_of(member(options[0], "selected"@)) != Some(true));
        let rest = options.skip(1);
        assert forall|j: int| 0 <= j < k - 1 implies bool_of(member(#[trigger] rest[j], "selected"@)) != Some(true) by {
            assert(rest[j] == options[j + 1]);
        }
        lemma_first_selected(rest, k - 1);
    }
}

/// A variable without a current value has that of the first option that is selected.
pub proof fn the_first_selected_option_comes_next(var: JsonView, options: Seq<JsonView>, k: int, value: Seq<char>)
    requires
        member(var, "current"@) is None,
        member(var, "options"@) == Some(JsonView::Array(options)),
        0 <= k < options.len(),
        bool_of(member(options[k], "selected"@)) == Some(true),
        forall|j: int| 0 <= j < k ==> bool_of(member(#[trigger] options[j], "selected"@)) != Some(true),
        value.len() > 0,
        member(options[k], "value"@) == Some(JsonView::Str(value)),
    ensures
        declared_value(var) == Some(value),
{
    lemma_first_selected(options, k);
}

/// A list of texts stands for all of them, with bars between them.
pub proof fn a_list_stands_for_all_its_texts(v: Seq<Seq<char>>)
    requires
        v.len() > 0,
        forall|i: int| 0 <= i < v.len() ==> (#[trigger] v[i]).len() > 0,
    ensures
        value_text(JsonView::Array(v.map_values(|s: Seq<char>| JsonView::Str(s)))) == Some(joined(v, "|"@)),
{
    lemma_texts(v);
}

proof fn lemma_texts(v: Seq<Seq<char>>)
    requires
        forall|i: int| 0 <= i < v.len() ==> (#[trigger] v[i]).len() > 0,
    ensures
        value_texts(v.map_values(|s: Seq<char>| JsonView::Str(s))) == v,
    decreases v.len(),
{
    let a = v.map_values(|s: Seq<char>| JsonView::Str(s));
    if v.len() > 0 {
        let front = v.drop_last();
        assert forall|i: int| 0 <= i < front.len() implies (#[trigger] front[i]).len() > 0 by {
            assert(front[i] == v[i]);
        }
        lemma_texts(front);
        assert(a.drop_last() =~= front.map_values(|s: Seq<char>| JsonView::Str(s)));
        assert(v[v.len() - 1].len() > 0);
        assert(value_text(a.last()) == Some(v.last()));
        assert(front.push(v.last()) =~= v);
    } else {
        assert(value_texts(a) =~= v);
    }
}

/// A dashboard gives a variable the value that it declares for it; of two with one name the later
/// one counts.
pub proof fn a_dashboard_gives_its_variables_values(list: Seq<JsonView>, k: int, name: Seq<char>, value: Seq<char>)
    requires
        0 <= k < list.len(),
        str_at(list[k], "name"@) == Some(name),
        declared_value(list[k]) == Some(value),
        forall|j: int| k < j < list.len() ==> str_at(#[trigger] list[j], "name"@) != Some(name),
    ensures
        entry_at(declared(list), name) == Some(value),
    decreases list.len(),
{
    let front = list.drop_last();
    let last = list.len() - 1;
    if k < last {
        assert(front[k] == list[k]);
        assert forall|j: int| k < j < front.len() implies str_at(#[trigger] front[j], "name"@) != Some(name) by {
            assert(front[j] == list[j]);
        }
        a_dashboard_gives_its_variables_values(front, k, name, value);
        assert(str_at(list[last], "name"@) != Some(name));
        if let (Some(n), Some(v)) = (str_at(list.last(), "name"@), declared_value(list.last())) {
            entry_is_what_was_put(declared(front), n, v, name);
        }
    } else {
        entry_is_what_was_put(declared(front), name, value, name);
    }
}

/// A variable in a text is replaced by its value, and what stands around it stays.
pub proof fn a_variable_is_replaced_by_its_value(
    text: Seq<char>,
    values: Seq<(Seq<char>, Seq<char>)>,
    before: Seq<char>,
    after: Seq<char>,
    m: Seq<Option<Seq<char>>>,
    name: Seq<char>,
    value: Seq<char>,
)
    requires
        regex_pieces(VARIABLE@, false, text) == seq![before, after],
        regex_matches(VARIABLE@, false, text) == seq![m],
        m.len() > 2,
        m[1] == Some(name) || (m[1] is None && m[2] == Some(name)),
        entry_at(values, name) == Some(value),
    ensures
        substituted(text, values) == before + value + after,
{
    let parts = seq![before, after];
    let f = fillings_for(seq![m], values);
    assert(f =~= seq![value]);
    assert(parts.drop_last() =~= seq![before]);
    assert(f.drop_last() =~= Seq::<Seq<char>>::empty());
    assert(woven(seq![before], Seq::<Seq<char>>::empty()) == before);
    assert(woven(parts, f) =~= before + value + after);
}

proof fn lemma_missing(ms: Seq<Seq<Option<Seq<char>>>>, values: Seq<(Seq<char>, Seq<char>)>, name: Seq<char>)
    ensures
        entry_at(missing_in(ms, values), name) is Some <==> entry_at(values, name) is None && exists|k: int|
            0 <= k < ms.len() && variable_name(#[trigger] ms[k]) == Some(name),
    decreases ms.len(),
{
    if ms.len() > 0 {
        let front = ms.drop_last();
        lemma_missing(front, values, name);
        let before = missing_in(front, values);
        let last = ms.len() - 1;
        assert(ms[last] == ms.last());
        if let Some(n) = variable_name(ms.last()) {
            if entry_at(values, n) is None {
                entry_is_what_was_put(before, n, ""@, name);
            }
        }
        if exists|k: int| 0 <= k < ms.len() && variable_name(#[trigger] ms[k]) == Some(name) {
            let k = choose|k: int| 0 <= k < ms.len() && variable_name(#[trigger] ms[k]) == Some(name);
            if k < last {
                assert(front[k] == ms[k]);
            }
        }
        if exists|k: int| 0 <= k < front.len() && variable_name(#[trigger] front[k]) == Some(name) {
            let k = choose|k: int| 0 <= k < front.len() && variable_name(#[trigger] front[k]) == Some(name);
            assert(front[k] == ms[k]);
        }
    }
}

proof fn lemma_entry_is_named(t: Seq<(Seq<char>, Seq<char>)>, name: Seq<char>)
    requires
        entry_at(t, name) is Some,
    ensures
        exists|k: int| 0 <= k < t.len() && (#[trigger] names_in(t)[k]) == name,
    decreases t.len(),
{
    if t.last().0 == name {
        assert(names_in(t)[t.len() - 1] == name);
    } else {
        lemma_entry_is_named(t.drop_last(), name);
        let k = choose|k: int| 0 <= k < t.drop_last().len() && (#[trigger] names_in(t.drop_last())[k]) == name;
        assert(names_in(t)[k] == name);
    }
}

/// A text with a variable that has no value is refused, and the complaint names the variable.
pub proof fn a_variable_without_a_value_is_named(
    input: Seq<char>,
    values: Seq<(Seq<char>, Seq<char>)>,
    k: int,
    name: Seq<char>,
)
    requires
        first_group(FORMATTED_VARIABLE@, input, 0) is None,
        0 <= k < regex_matches(VARIABLE@, false, input).len(),
        variable_name(regex_matches(VARIABLE@, false, input)[k]) == Some(name),
        entry_at(values, name) is None,
    ensures
        interpolated(input, values) matches Err(e) && holds(e, name),
{
    let ms = regex_matches(VARIABLE@, false, input);
    let t = missing_in(ms, values);
    assert(variable_name(ms[k]) == Some(name));
    lemma_missing(ms, values, name);
    assert(t.len() > 0);
    lemma_entry_is_named(t, name);
    let i = choose|i: int| 0 <= i < t.len() && (#[trigger] names_in(t)[i]) == name;
    joined_text_holds_its_parts(names_in(t), ", "@, i);
    let list = joined(names_in(t), ", "@);
    let e = missing_complaint(t);
    let front = "unresolved dashboard variables: "@;
    let rest = e.skip((front.len() + list.len()) as int);
    assert(e =~= front + list + rest);
    super::texts::a_whole_holds_its_middle(front, list, rest);
    super::texts::holding_is_handed_on(e, list, name);
}

/// A range is what was asked for. On the command line a start is taken as it stands, or else the
/// range reaches back from its end as far as is said, or an hour; where the command line says
/// nothing, the URL decides; and a range that nobody ends ends now.
pub proof fn a_range_is_what_was_asked_for(a: AskedView, now: i64)
    ensures
        range_of(a, now) matches Ok((start, end, step)) ==> (a.start matches Some(s) ==> second_of(s, now) == Ok::<
            i64,
            Seq<char>,
        >(start)) && (a.start is None && a.since is Some ==> compound_secs(a.since->0) == Some((end - start) as i64)) && (
        on_command_line(a) ==> (match a.end {
            Some(e) => second_of(e, now) == Ok::<i64, Seq<char>>(end),
            None => end == now,
        })) && (!on_command_line(a) ==> (match a.url_to {
            Some(e) => second_of(e, now) == Ok::<i64, Seq<char>>(end),
            None => end == now,
        }) && (match a.url_from {
            Some(s) => second_of(s, now) == Ok::<i64, Seq<char>>(start),
            None => end - start == 3600,
        })) && (a.start is None && a.since is None && a.end is Some ==> end - start == 3600) && (a.step matches Some(s)
            ==> compound_secs(s) == Some(step)),
{
    now_is_now(now);
}

/// Now is now, and so is nothing.
pub proof fn now_is_now(now: i64)
    ensures
        second_of("now"@, now) == Ok::<i64, Seq<char>>(now),
        second_of(""@, now) == Ok::<i64, Seq<char>>(now),
{
    reveal_strlit("now");
    reveal_strlit("");
    assert(trimmed("now"@) == "now"@) by {
        assert(!is_space("now"@[0]) && !is_space("now"@.last()));
    }
    assert(trimmed(""@).len() == 0);
}

/// A time before now is as long before it as it says.
pub proof fn a_time_before_now_is_that_long_ago(d: Seq<char>, now: i64)
    requires
        d.len() > 0,
        !is_space(d.last()),
        compound_secs(d) is Some,
        now >= 0,
    ensures
        second_of("now-"@ + d, now) == Ok::<i64, Seq<char>>((now - compound_secs(d)->0) as i64),
{
    reveal_strlit("now-");
    reveal_strlit("now");
    let t = "now-"@ + d;
    assert(t[0] == 'n' && t.last() == d.last());
    assert(trimmed(t) == t) by {
        assert(!is_space(t[0]) && !is_space(t.last()));
    }
    assert(t.len() > 4);
    assert(t.subrange(0, 4) =~= "now-"@);
    assert(t.skip(4) =~= d);
}

/// A number is a second since the epoch, and one of thirteen digits or more a millisecond.
pub proof fn a_number_is_a_second_or_a_millisecond(n: i64, now: i64)
    requires
        n >= 0,
    ensures
        decimal(n as nat).len() < 13 ==> second_of(decimal(n as nat), now) == Ok::<i64, Seq<char>>(n),
        decimal(n as nat).len() >= 13 ==> second_of(decimal(n as nat), now) == Ok::<i64, Seq<char>>(
            (n as int / 1000) as i64,
        ),
{
    reveal_strlit("now");
    reveal_strlit("now-");
    let t = decimal(n as nat);
    lemma_decimal_is_digits(n as nat);
    int_text_reads_back(n);
    assert(int_text(n as int) == t);
    assert(is_digit(t[0]) && is_digit(t[t.len() - 1]));
    assert(trimmed(t) == t) by {
        assert(!is_space(t[0]) && !is_space(t.last()));
    }
    assert(t != "now"@) by {
        assert("now"@[0] == 'n');
    }
    assert(!begins(t, "now-"@)) by {
        if begins(t, "now-"@) {
            assert(t.subrange(0, 4)[0] == 'n');
        }
    }
}

/// A datasource that is named is taken by its name; in an object by its identifier and its kind.
/// Mixed datasources and expressions are refused, and so is nothing at all.
pub proof fn a_datasource_is_taken_by_its_name(
    value: JsonView,
    values: Seq<(Seq<char>, Seq<char>)>,
    uid: Seq<char>,
    kind: Seq<char>,
)
    requires
        interpolated(uid, values) == Ok::<Seq<char>, Seq<char>>(uid),
        interpolated(kind, values) == Ok::<Seq<char>, Seq<char>>(kind),
        interpolated("prometheus"@, values) == Ok::<Seq<char>, Seq<char>>("prometheus"@),
        uid.len() > 0,
    ensures
        datasource_in(JsonView::Str(uid), values) == Ok::<(Seq<char>, Seq<char>), Seq<char>>((uid, "prometheus"@)),
        value is Object && str_at(value, "uid"@) == Some(uid) && str_at(value, "type"@) == Some(kind) ==> (if kind
            == "mixed"@ || kind == "__expr__"@ {
            datasource_in(value, values) is Err
        } else {
            datasource_in(value, values) == Ok::<(Seq<char>, Seq<char>), Seq<char>>((uid, kind))
        }),
        datasource_in(JsonView::Null, values) is Err,
        datasource_in(JsonView::Str(""@), values) is Err || interpolated(""@, values) != Ok::<Seq<char>, Seq<char>>(""@),
{
    reveal_strlit("prometheus");
    reveal_strlit("mixed");
    reveal_strlit("__expr__");
    reveal_strlit("");
    assert("prometheus"@.len() == 10 && "mixed"@.len() == 5 && "__expr__"@.len() == 8);
}

/// A target of a panel may name the datasource of the panel, its kind in any case, and no other.
pub proof fn a_target_goes_to_the_datasource_of_its_panel(
    raw: JsonView,
    d: JsonView,
    ds: (Seq<char>, Seq<char>),
    values: Seq<(Seq<char>, Seq<char>)>,
    uid: Seq<char>,
    kind: Seq<char>,
)
    requires
        member(raw, "datasource"@) == Some(d),
        datasource_in(d, values) == Ok::<(Seq<char>, Seq<char>), Seq<char>>((uid, kind)),
    ensures
        goes_to(raw, ds, values) is Ok <==> uid == ds.0 && ascii_lowered(kind) == ascii_lowered(ds.1),
{
}

/// A text whose variables have all values, none of which holds a variable in turn, has them
/// replaced; a variable with a format is refused by name.
pub proof fn variables_are_replaced_until_none_is_left(input: Seq<char>, values: Seq<(Seq<char>, Seq<char>)>)
    ensures
        first_group(FORMATTED_VARIABLE@, input, 0) matches Some(m) ==> (interpolated(input, values) matches Err(e)
            && holds(e, quoted(m))),
        first_group(FORMATTED_VARIABLE@, input, 0) is None && (forall|k: int|
            0 <= k < regex_matches(VARIABLE@, false, input).len() ==> (variable_name(
                #[trigger] regex_matches(VARIABLE@, false, input)[k],
            ) matches Some(n) ==> entry_at(values, n) is Some)) && regex_matches(
            VARIABLE@,
            false,
            substituted(input, values),
        ).len() == 0 && substituted(substituted(input, values), values) == substituted(input, values) ==> interpolated(
            input,
            values,
        ) == Ok::<Seq<char>, Seq<char>>(substituted(input, values)),
{
    if let Some(m) = first_group(FORMATTED_VARIABLE@, input, 0) {
        let e = interpolated(input, values)->Err_0;
        let front = "unsupported Grafana interpolation "@;
        let rest = "; v1 supports $Name and ${Name}"@;
        super::texts::a_whole_holds_its_middle(front, quoted(m), rest);
        assert(e =~= front + quoted(m) + rest);
    } else {
        let ms = regex_matches(VARIABLE@, false, input);
        let next = substituted(input, values);
        if (forall|k: int| 0 <= k < ms.len() ==> (variable_name(#[trigger] ms[k]) matches Some(n) ==> entry_at(
            values,
            n,
        ) is Some)) && regex_matches(VARIABLE@, false, next).len() == 0 && substituted(next, values) == next {
            assert(missing_in(ms, values).len() == 0) by {
                if missing_in(ms, values).len() > 0 {
                    let t = missing_in(ms, values);
                    lemma_missing(ms, values, t.last().0);
                    assert(entry_at(t, t.last().0) is Some);
                }
            }
            assert(missing_in(regex_matches(VARIABLE@, false, next), values).len() == 0);
            reveal_with_fuel(settled, 3);
        }
    }
}

/// The step that is chosen where none is given is the smallest that leaves at most five hundred
/// whole steps in the range, between a second and an hour.
pub proof fn the_chosen_step_is_the_smallest(range: int)
    requires
        range > 0,
    ensures
        default_step(range) == 1 || (default_step(range) - 1) * 500 < range,
        default_step(range) == 3600 || range <= default_step(range) * 500,
        1 <= default_step(range) <= 3600,
{
}

/// The complaint about variables without values says how to give each of them one.
pub proof fn the_complaint_says_how_to_give_a_value(t: Seq<(Seq<char>, Seq<char>)>, k: int)
    requires
        0 <= k < t.len(),
    ensures
        holds(missing_complaint(t), "--var "@ + t[k].0 + "=value"@),
{
    let v = crate::dashboard::variables::options_for(t);
    assert(v[k] == "--var "@ + t[k].0 + "=value"@);
    joined_text_holds_its_parts(v, " "@, k);
    let list = joined(v, " "@);
    let e = missing_complaint(t);
    let front = "unresolved dashboard variables: "@ + joined(names_in(t), ", "@) + ". Supply "@;
    let none = Seq::<char>::empty();
    super::texts::a_whole_holds_its_middle(front, list, none);
    assert(e =~= front + list + none);
    super::texts::holding_is_handed_on(e, list, v[k]);
}

} // verus!
