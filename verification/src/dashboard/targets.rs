//! Targets: the queries of a panel.

use super::panels::{expression_of, hidden, is_hidden, read_expression, read_str_or, str_or, Panel, PanelView};
use super::table::Table;
use super::variables::{datasource_in, datasource_parts, interpolate, interpolated};
use crate::json::{items, member, str_at, Json, JsonView};
use crate::text::{ascii_lowered, opt_text, owned, to_ascii_lower};
use vstd::prelude::*;

verus! {

/// A query of a panel.
pub struct Target {
    pub ref_id: String,
    pub expression: String,
    pub legend_format: Option<String>,
}

/// The model of a query of a panel.
#[verifier::ext_equal]
pub struct TargetView {
    pub ref_id: Seq<char>,
    pub expression: Seq<char>,
    pub legend_format: Option<Seq<char>>,
}

impl View for Target {
    type V = TargetView;

    open spec fn view(&self) -> TargetView {
        TargetView {
            ref_id: self.ref_id@,
            expression: self.expression@,
            legend_format: opt_text(self.legend_format),
        }
    }
}

/// The views of queries.
pub open spec fn target_views(v: Seq<Target>) -> Seq<TargetView> {
    v.map_values(|t: Target| t@)
}

/// Whether a target may go to the datasource of the panel: it names none, or the same one.
pub open spec fn goes_to(
    raw: JsonView,
    ds: (Seq<char>, Seq<char>),
    values: Seq<(Seq<char>, Seq<char>)>,
) -> Result<(), Seq<char>> {
    match member(raw, "datasource"@) {
        None => Ok(()),
        Some(d) => match datasource_in(d, values) {
            Err(e) => Err(e),
            Ok(own) => if own.0 != ds.0 || ascii_lowered(own.1) != ascii_lowered(ds.1) {
                Err("mixed or multiple target datasources are unsupported in dashboard v1"@)
            } else {
                Ok(())
            },
        },
    }
}

/// The query of a target, where it is not hidden and has an expression, or what is wrong with it.
pub open spec fn target_of(
    raw: JsonView,
    ds: (Seq<char>, Seq<char>),
    values: Seq<(Seq<char>, Seq<char>)>,
) -> Result<Option<TargetView>, Seq<char>> {
    match expression_of(raw) {
        Some(expr) if !is_hidden(raw) => match goes_to(raw, ds, values) {
            Err(e) => Err(e),
            Ok(_) => match interpolated(expr, values) {
                Err(e) => Err(e),
                Ok(expression) => Ok(
                    Some(
                        TargetView {
                            ref_id: str_or(raw, "refId"@, "?"@),
                            expression,
                            legend_format: str_at(raw, "legendFormat"@),
                        },
                    ),
                ),
            },
        },
        _ => Ok(None),
    }
}

/// The queries of targets, or what is wrong with the first bad one.
pub open spec fn targets_in(
    list: Seq<JsonView>,
    ds: (Seq<char>, Seq<char>),
    values: Seq<(Seq<char>, Seq<char>)>,
) -> Result<Seq<TargetView>, Seq<char>>
    decreases list.len(),
{
    if list.len() == 0 {
        Ok(Seq::<TargetView>::empty())
    } else {
        match targets_in(list.drop_last(), ds, values) {
            Err(e) => Err(e),
            Ok(before) => match target_of(list.last(), ds, values) {
                Err(e) => Err(e),
                Ok(Some(t)) => Ok(before.push(t)),
                Ok(None) => Ok(before),
            },
        }
    }
}

proof fn lemma_targets_stop(
    list: Seq<JsonView>,
    ds: (Seq<char>, Seq<char>),
    values: Seq<(Seq<char>, Seq<char>)>,
    n: int,
)
    requires
        0 <= n <= list.len(),
        targets_in(list.take(n), ds, values) is Err,
    ensures
        targets_in(list, ds, values) == targets_in(list.take(n), ds, values),
    decreases list.len() - n,
{
    if n < list.len() {
        assert(list.take(n + 1).drop_last() =~= list.take(n));
        lemma_targets_stop(list, ds, values, n + 1);
    } else {
        assert(list.take(n) =~= list);
    }
}

/// The queries of a panel, of which there must be one, or what is wrong with them.
pub open spec fn panel_targets(
    panel: PanelView,
    ds: (Seq<char>, Seq<char>),
    values: Seq<(Seq<char>, Seq<char>)>,
) -> Result<Seq<TargetView>, Seq<char>> {
    match targets_in(panel.targets, ds, values) {
        Err(e) => Err(e),
        Ok(v) => if v.len() == 0 {
            Err("selected panel has no enabled PromQL targets"@)
        } else {
            Ok(v)
        },
    }
}

fn complain_elsewhere(raw: &Json, ds: &(String, String), variables: &Table) -> (r: Option<String>)
    ensures
        match r {
            None => goes_to(raw@, (ds.0@, ds.1@), variables@) is Ok,
            Some(e) => goes_to(raw@, (ds.0@, ds.1@), variables@) == Err::<(), Seq<char>>(e@),
        },
{
    match raw.get("datasource") {
        None => None,
        Some(d) => match datasource_parts(d, variables) {
            Err(e) => Some(e),
            Ok(own) => if !(*own.0.as_str() == *ds.0.as_str()) || !(*to_ascii_lower(own.1.as_str()).as_str()
                == *to_ascii_lower(ds.1.as_str()).as_str()) {
                Some(owned("mixed or multiple target datasources are unsupported in dashboard v1"))
            } else {
                None
            },
        },
    }
}

fn read_target(raw: &Json, ds: &(String, String), variables: &Table) -> (r: Result<Option<Target>, String>)
    ensures
        match r {
            Ok(Some(t)) => target_of(raw@, (ds.0@, ds.1@), variables@) == Ok::<Option<TargetView>, Seq<char>>(
                Some(t@),
            ),
            Ok(None) => target_of(raw@, (ds.0@, ds.1@), variables@) == Ok::<Option<TargetView>, Seq<char>>(None),
            Err(e) => target_of(raw@, (ds.0@, ds.1@), variables@) == Err::<Option<TargetView>, Seq<char>>(e@),
        },
{
    if hidden(raw) {
        return Ok(None);
    }
    let expr = match read_expression(raw) {
        Some(e) => e,
        None => {
            return Ok(None);
        },
    };
    if let Some(e) = complain_elsewhere(raw, ds, variables) {
        return Err(e);
    }
    match interpolate(expr.as_str(), variables) {
        Ok(expression) => Ok(
            Some(
                Target {
                    ref_id: read_str_or(raw, "refId", "?"),
                    expression,
                    legend_format: raw.get_str("legendFormat"),
                },
            ),
        ),
        Err(e) => Err(e),
    }
}

/// The view of queries or of why there are none.
pub open spec fn targets_outcome(r: Result<Vec<Target>, String>) -> Result<Seq<TargetView>, Seq<char>> {
    match r {
        Ok(v) => Ok(target_views(v@)),
        Err(e) => Err(e@),
    }
}

/// Finds the queries of a panel.
pub fn resolve_targets(panel: &Panel, panel_ds: &(String, String), variables: &Table) -> (r: Result<
    Vec<Target>,
    String,
>)
    ensures
        targets_outcome(r) == panel_targets(panel@, (panel_ds.0@, panel_ds.1@), variables@),
{
    let ghost all = items(panel.targets@);
    let ghost ds = (panel_ds.0@, panel_ds.1@);
    let mut out: Vec<Target> = Vec::new();
    assert(target_views(out@) =~= Seq::<TargetView>::empty());
    let n: usize = panel.targets.len();
    for i in 0..n
        invariant
            n == panel.targets@.len(),
            all == items(panel.targets@),
            ds == (panel_ds.0@, panel_ds.1@),
            targets_in(all.take(i as int), ds, variables@) == Ok::<Seq<TargetView>, Seq<char>>(
                target_views(out@),
            ),
    {
        let ghost so_far = target_views(out@);
        assert(all.take(i as int + 1).drop_last() =~= all.take(i as int));
        assert(all.take(i as int + 1).last() == panel.targets@[i as int]@);
        match read_target(&panel.targets[i], panel_ds, variables) {
            Ok(Some(t)) => {
                let ghost tv = t@;
                out.push(t);
                assert(target_views(out@) =~= so_far.push(tv));
            },
            Ok(None) => {},
            Err(e) => {
                proof {
                    lemma_targets_stop(all, ds, variables@, i as int + 1);
                }
                return Err(e);
            },
        }
    }
    assert(all.take(n as int) =~= all);
    assert(target_views(out@).len() == out@.len());
    if out.len() == 0 {
        Err(owned("selected panel has no enabled PromQL targets"))
    } else {
        Ok(out)
    }
}

} // verus!
