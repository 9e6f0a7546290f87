//! The documents the admin API of a served flow answers with: health,
//! metrics (the run report), status, and pause/resume replies.

use vstd::prelude::*;

use crate::json::{items_view, json_view, lemma_members_view, members_view, Json, JsonView};
use crate::runtime::history::{stat_json, stat_view, stats_json, stats_view};
use crate::runtime::serve::TriggerInfo;
use crate::runtime::stats::{RunReport, StepEntry};

verus! {

/// `{ "status": "running", "paused": paused }`.
pub open spec fn health_view(paused: bool) -> JsonView {
    JsonView::Object(seq![("status"@, JsonView::Str("running"@)), ("paused"@, JsonView::Bool(paused))])
}

/// `{ "paused": paused }`, the reply to pause and resume.
pub open spec fn paused_view(paused: bool) -> JsonView {
    JsonView::Object(seq![("paused"@, JsonView::Bool(paused))])
}

/// The per-step statistics as an object keyed by step id.
pub open spec fn step_members(steps: Seq<StepEntry>) -> Seq<(Seq<char>, JsonView)> {
    steps.map_values(|e: StepEntry| (e.id@, stat_view(e.stat)))
}

/// The members of a run report.
pub open spec fn report_members(report: RunReport) -> Seq<(Seq<char>, JsonView)> {
    seq![
        ("run_id"@, JsonView::Str(report.run_id@)),
        ("flow"@, JsonView::Str(report.flow@)),
        ("started_at"@, JsonView::Str(report.started_at@)),
        ("stats"@, stats_view(report.stats)),
        ("steps"@, JsonView::Object(step_members(report.steps@))),
    ]
}

/// A trigger summary as a JSON object.
pub open spec fn trigger_view(t: TriggerInfo) -> JsonView {
    JsonView::Object(seq![("id"@, JsonView::Str(t.id@)), ("kind"@, JsonView::Str(t.kind@))])
}

/// The status document: the run report with the paused flag and the
/// flow's triggers.
pub open spec fn status_view(report: RunReport, paused: bool, triggers: Seq<TriggerInfo>) -> JsonView {
    JsonView::Object(
        report_members(report) + seq![
            ("paused"@, JsonView::Bool(paused)),
            ("triggers"@, JsonView::Array(triggers.map_values(|t: TriggerInfo| trigger_view(t)))),
        ],
    )
}

/// The health document.
pub fn health_json(paused: bool) -> (r: Json)
    ensures
        r@ == health_view(paused),
{
    let mut m: Vec<(String, Json)> = Vec::new();
    m.push(("status".to_owned(), Json::Str("running".to_owned())));
    m.push(("paused".to_owned(), Json::Bool(paused)));
    proof {
        lemma_members_view(m@);
        assert(members_view(m@) =~= seq![("status"@, JsonView::Str("running"@)), ("paused"@, JsonView::Bool(paused))]);
    }
    Json::Object(m)
}

/// The reply to pause (`true`) and resume (`false`).
pub fn paused_json(paused: bool) -> (r: Json)
    ensures
        r@ == paused_view(paused),
{
    let mut m: Vec<(String, Json)> = Vec::new();
    m.push(("paused".to_owned(), Json::Bool(paused)));
    proof {
        lemma_members_view(m@);
        assert(members_view(m@) =~= seq![("paused"@, JsonView::Bool(paused))]);
    }
    Json::Object(m)
}

/// The members of a run report, in order.
fn report_vec(report: &RunReport) -> (r: Vec<(String, Json)>)
    ensures
        members_view(r@) == report_members(*report),
{
    let mut steps: Vec<(String, Json)> = Vec::new();
    let mut i: usize = 0;
    while i < report.steps.len()
        invariant
            i <= report.steps@.len(),
            members_view(steps@) == step_members(report.steps@.subrange(0, i as int)),
        decreases report.steps.len() - i,
    {
        let e = &report.steps[i];
        let ghost before = steps@;
        steps.push((e.id.clone(), stat_json(e.stat)));
        proof {
            assert(steps@.drop_last() =~= before);
            assert(step_members(report.steps@.subrange(0, i + 1)) =~= step_members(report.steps@.subrange(0, i as int)).push(
                (e.id@, stat_view(e.stat)),
            ));
        }
        i = i + 1;
    }
    assert(report.steps@.subrange(0, report.steps@.len() as int) =~= report.steps@);
    let ghost step_view = members_view(steps@);
    let mut m: Vec<(String, Json)> = Vec::new();
    m.push(("run_id".to_owned(), Json::Str(report.run_id.clone())));
    m.push(("flow".to_owned(), Json::Str(report.flow.clone())));
    m.push(("started_at".to_owned(), Json::Str(report.started_at.clone())));
    m.push(("stats".to_owned(), stats_json(report.stats)));
    m.push(("steps".to_owned(), Json::Object(steps)));
    proof {
        lemma_members_view(m@);
        assert(members_view(m@) =~= report_members(*report));
    }
    m
}

/// The metrics document: the run report.
pub fn report_json(report: &RunReport) -> (r: Json)
    ensures
        r@ == JsonView::Object(report_members(*report)),
{
    Json::Object(report_vec(report))
}

/// The status document.
pub fn status_json(report: &RunReport, paused: bool, triggers: &Vec<TriggerInfo>) -> (r: Json)
    ensures
        r@ == status_view(*report, paused, triggers@),
{
    let mut items: Vec<Json> = Vec::new();
    let mut i: usize = 0;
    while i < triggers.len()
        invariant
            i <= triggers@.len(),
            items_view(items@) == triggers@.subrange(0, i as int).map_values(|t: TriggerInfo| trigger_view(t)),
        decreases triggers.len() - i,
    {
        let t = &triggers[i];
        let mut o: Vec<(String, Json)> = Vec::new();
        o.push(("id".to_owned(), Json::Str(t.id.clone())));
        o.push(("kind".to_owned(), Json::Str(t.kind.clone())));
        proof {
            lemma_members_view(o@);
            assert(members_view(o@) =~= seq![("id"@, JsonView::Str(t.id@)), ("kind"@, JsonView::Str(t.kind@))]);
        }
        let item = Json::Object(o);
        assert(item@ == trigger_view(*t));
        let ghost before = items@;
        items.push(item);
        proof {
            assert(items@.drop_last() =~= before);
            assert(triggers@.subrange(0, i + 1).map_values(|t: TriggerInfo| trigger_view(t)) =~= triggers@.subrange(
                0,
                i as int,
            ).map_values(|t: TriggerInfo| trigger_view(t)).push(trigger_view(*t)));
        }
        i = i + 1;
    }
    assert(triggers@.subrange(0, triggers@.len() as int) =~= triggers@);
    let mut m = report_vec(report);
    let ghost head = m@;
    let ghost tv = items_view(items@);
    m.push(("paused".to_owned(), Json::Bool(paused)));
    let ghost mid = m@;
    m.push(("triggers".to_owned(), Json::Array(items)));
    proof {
        lemma_members_view(m@);
        lemma_members_view(head);
        assert(m@.len() == head.len() + 2);
        assert(m@[head.len() as int].0@ == "paused"@);
        assert(json_view(m@[head.len() + 1int].1) == JsonView::Array(tv));
        assert(members_view(m@) =~= report_members(*report) + seq![
            ("paused"@, JsonView::Bool(paused)),
            ("triggers"@, JsonView::Array(triggers@.map_values(|t: TriggerInfo| trigger_view(t)))),
        ]);
    }
    Json::Object(m)
}

} // verus!
