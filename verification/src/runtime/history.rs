//! The run history: one JSON entry per finished run.

use vstd::prelude::*;

use crate::json::{items_view, lemma_items_view, lemma_members_view, members_view, Json, JsonView};
use crate::runtime::stats::{RunReport, StatsSnapshot, StepEntry, StepStat};
use crate::text::{decimal, digits};

verus! {

/// A count as a JSON number.
pub open spec fn count_view(n: nat) -> JsonView {
    JsonView::Number(digits(n, 10))
}

/// The run counters as a JSON object.
pub open spec fn stats_view(s: StatsSnapshot) -> JsonView {
    JsonView::Object(
        seq![
            ("processed"@, count_view(s.processed as nat)),
            ("filtered"@, count_view(s.filtered as nat)),
            ("errors"@, count_view(s.errors as nat)),
            ("waiting"@, count_view(s.waiting as nat)),
            ("duplicates"@, count_view(s.duplicates as nat)),
        ],
    )
}

/// A step's statistics as a JSON object.
pub open spec fn stat_view(s: StepStat) -> JsonView {
    JsonView::Object(
        seq![
            ("processed"@, count_view(s.processed as nat)),
            ("filtered"@, count_view(s.filtered as nat)),
            ("errors"@, count_view(s.errors as nat)),
            ("nanos"@, count_view(s.nanos as nat)),
        ],
    )
}

/// The per-step statistics as `[id, statistics]` pairs.
pub open spec fn steps_view(steps: Seq<StepEntry>) -> Seq<JsonView> {
    steps.map_values(|e: StepEntry| JsonView::Array(seq![JsonView::Str(e.id@), stat_view(e.stat)]))
}

/// The history entry of a finished run: ids, start and finish times, the
/// status, the error when there is one, the counters and the per-step
/// statistics.
pub open spec fn entry_view(report: RunReport, finished_at: Seq<char>, status: Seq<char>, error: Option<Seq<char>>) -> JsonView {
    JsonView::Object(
        seq![
            ("run_id"@, JsonView::Str(report.run_id@)),
            ("flow"@, JsonView::Str(report.flow@)),
            ("started_at"@, JsonView::Str(report.started_at@)),
            ("finished_at"@, JsonView::Str(finished_at)),
            ("status"@, JsonView::Str(status)),
        ] + match error {
            Some(e) => seq![("error"@, JsonView::Str(e))],
            None => Seq::empty(),
        } + seq![("stats"@, stats_view(report.stats)), ("steps"@, JsonView::Array(steps_view(report.steps@)))],
    )
}

/// A count as a JSON number.
pub(crate) fn count(n: u64) -> (r: Json)
    ensures
        r@ == count_view(n as nat),
{
    Json::Number(decimal(n))
}

/// The counters of a run.
pub(crate) fn stats_json(s: StatsSnapshot) -> (r: Json)
    ensures
        r@ == stats_view(s),
{
    let mut m: Vec<(String, Json)> = Vec::new();
    m.push(("processed".to_owned(), count(s.processed as u64)));
    m.push(("filtered".to_owned(), count(s.filtered as u64)));
    m.push(("errors".to_owned(), count(s.errors as u64)));
    m.push(("waiting".to_owned(), count(s.waiting as u64)));
    m.push(("duplicates".to_owned(), count(s.duplicates as u64)));
    proof {
        lemma_members_view(m@);
        assert(members_view(m@) =~= seq![
            ("processed"@, count_view(s.processed as nat)),
            ("filtered"@, count_view(s.filtered as nat)),
            ("errors"@, count_view(s.errors as nat)),
            ("waiting"@, count_view(s.waiting as nat)),
            ("duplicates"@, count_view(s.duplicates as nat)),
        ]);
    }
    Json::Object(m)
}

/// The statistics of one step.
pub(crate) fn stat_json(s: StepStat) -> (r: Json)
    ensures
        r@ == stat_view(s),
{
    let mut m: Vec<(String, Json)> = Vec::new();
    m.push(("processed".to_owned(), count(s.processed)));
    m.push(("filtered".to_owned(), count(s.filtered)));
    m.push(("errors".to_owned(), count(s.errors)));
    m.push(("nanos".to_owned(), count(s.nanos)));
    proof {
        lemma_members_view(m@);
        assert(members_view(m@) =~= seq![
            ("processed"@, count_view(s.processed as nat)),
            ("filtered"@, count_view(s.filtered as nat)),
            ("errors"@, count_view(s.errors as nat)),
            ("nanos"@, count_view(s.nanos as nat)),
        ]);
    }
    Json::Object(m)
}

/// The history entry of a finished run, to be written as one line.
pub fn history_entry(report: &RunReport, finished_at: String, status: &str, error: Option<&str>) -> (r: Json)
    ensures
        r@ == entry_view(*report, finished_at@, status@, match error {
            Some(e) => Some(e@),
            None => None,
        }),
{
    let mut steps: Vec<Json> = Vec::new();
    let mut i: usize = 0;
    while i < report.steps.len()
        invariant
            i <= report.steps@.len(),
            items_view(steps@) == steps_view(report.steps@.subrange(0, i as int)),
        decreases report.steps.len() - i,
    {
        let e = &report.steps[i];
        let mut pair: Vec<Json> = Vec::new();
        pair.push(Json::Str(e.id.clone()));
        pair.push(stat_json(e.stat));
        proof {
            lemma_items_view(pair@);
            assert(items_view(pair@) =~= seq![JsonView::Str(e.id@), stat_view(e.stat)]);
        }
        let ghost before = steps@;
        let item = Json::Array(pair);
        assert(item@ == JsonView::Array(seq![JsonView::Str(e.id@), stat_view(e.stat)]));
        steps.push(item);
        proof {
            assert(steps@.drop_last() =~= before);
            assert(items_view(steps@) == items_view(before).push(JsonView::Array(seq![JsonView::Str(e.id@), stat_view(e.stat)])));
            assert(steps_view(report.steps@.subrange(0, i + 1)) =~= steps_view(report.steps@.subrange(0, i as int)).push(
                JsonView::Array(seq![JsonView::Str(e.id@), stat_view(e.stat)]),
            ));
        }
        i = i + 1;
    }
    assert(report.steps@.subrange(0, report.steps@.len() as int) =~= report.steps@);
    let mut m: Vec<(String, Json)> = Vec::new();
    m.push(("run_id".to_owned(), Json::Str(report.run_id.clone())));
    m.push(("flow".to_owned(), Json::Str(report.flow.clone())));
    m.push(("started_at".to_owned(), Json::Str(report.started_at.clone())));
    m.push(("finished_at".to_owned(), Json::Str(finished_at)));
    m.push(("status".to_owned(), Json::Str(status.to_owned())));
    match error {
        Some(e) => {
            m.push(("error".to_owned(), Json::Str(e.to_owned())));
        },
        None => {},
    }
    m.push(("stats".to_owned(), stats_json(report.stats)));
    m.push(("steps".to_owned(), Json::Array(steps)));
    proof {
        lemma_members_view(m@);
        let head = seq![
            ("run_id"@, JsonView::Str(report.run_id@)),
            ("flow"@, JsonView::Str(report.flow@)),
            ("started_at"@, JsonView::Str(report.started_at@)),
            ("finished_at"@, JsonView::Str(finished_at@)),
            ("status"@, JsonView::Str(status@)),
        ];
        let mid: Seq<(Seq<char>, JsonView)> = match error {
            Some(e) => seq![("error"@, JsonView::Str(e@))],
            None => Seq::empty(),
        };
        let tail = seq![("stats"@, stats_view(report.stats)), ("steps"@, JsonView::Array(steps_view(report.steps@)))];
        assert(members_view(m@) =~= head + mid + tail);
    }
    Json::Object(m)
}

} // verus!
