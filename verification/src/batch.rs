//! A batch tests the selected links one after the other: what a worker reports
//! before and after each of them, and at the end.

use crate::bench::Results;
use crate::board::{ProbeOutcome, WorkerMsg};
use crate::links::{short_of, LinkPair, Mode};
use crate::orchestrate::{batch_failed, batch_status};
use crate::text::dec;
use vstd::prelude::*;

verus! {

/// What a report says.
pub enum Said {
    Log(Seq<char>),
    Status(Seq<char>),
    Item { label: Seq<char>, results: Results },
    Complete,
    Done(Results),
    Failed(Seq<char>),
    Probed(ProbeOutcome),
}

pub open spec fn said(m: WorkerMsg) -> Said {
    match m {
        WorkerMsg::Log(s) => Said::Log(s@),
        WorkerMsg::Status(s) => Said::Status(s@),
        WorkerMsg::BatchItem { label, results } => Said::Item { label: label@, results },
        WorkerMsg::BatchDone => Said::Complete,
        WorkerMsg::Done(r) => Said::Done(r),
        WorkerMsg::Failed(e) => Said::Failed(e@),
        WorkerMsg::Probed(o) => Said::Probed(o),
    }
}

pub open spec fn all_said(v: Seq<WorkerMsg>) -> Seq<Said> {
    v.map_values(|m: WorkerMsg| said(m))
}

/// What is said as test `i` begins.
pub open spec fn testing(rows: Seq<(LinkPair, Mode)>, i: int) -> Said {
    Said::Status(
        "testing "@ + short_of(rows[i].0, rows[i].1) + " ("@ + dec((i + 1) as nat) + " of "@ + dec(
            rows.len(),
        ) + ")…"@,
    )
}

/// What the worker of a batch does when it comes to row `i`; `stopped` says
/// whether a stop was asked for. With rows left and no stop it tests the row,
/// otherwise the batch is complete.
pub fn row_begins(rows: &Vec<(LinkPair, Mode)>, i: usize, stopped: bool) -> (r: (
    Vec<WorkerMsg>,
    Option<usize>,
))
    ensures
        r.1 == if i < rows@.len() && !stopped {
            Some(i)
        } else {
            None
        },
        all_said(r.0@) == if i >= rows@.len() {
            seq![Said::Complete]
        } else if stopped {
            seq![Said::Log("batch stopped"@), Said::Complete]
        } else {
            seq![testing(rows@, i as int)]
        },
{
    let mut messages: Vec<WorkerMsg> = Vec::new();
    let n = rows.len();
    if i < n && !stopped {
        messages.push(WorkerMsg::Status(batch_status(&rows[i].0, rows[i].1, i, n)));
        assert(all_said(messages@) =~= seq![testing(rows@, i as int)]);
        return (messages, Some(i));
    }
    if i < n {
        messages.push(WorkerMsg::Log("batch stopped".to_owned()));
    }
    messages.push(WorkerMsg::BatchDone);
    assert(all_said(messages@) =~= if i >= rows@.len() {
        seq![Said::Complete]
    } else {
        seq![Said::Log("batch stopped"@), Said::Complete]
    });
    (messages, None)
}

/// What is said of a test that was made: its results as an item, or why it failed
/// in the log.
pub open spec fn tested(row: (LinkPair, Mode), outcome: Result<Results, Seq<char>>) -> Said {
    match outcome {
        Ok(results) => Said::Item { label: short_of(row.0, row.1), results },
        Err(why) => Said::Log("link "@ + short_of(row.0, row.1) + " FAILED: "@ + why),
    }
}

pub open spec fn outcome_of(r: Result<Results, String>) -> Result<Results, Seq<char>> {
    match r {
        Ok(results) => Ok(results),
        Err(e) => Err(e@),
    }
}

/// Row `i` was tested: what to report, and the row to come to next. A failure does
/// not end the batch.
pub fn row_ends(rows: &Vec<(LinkPair, Mode)>, i: usize, outcome: Result<Results, String>) -> (r: (
    WorkerMsg,
    usize,
))
    requires
        i < rows@.len(),
    ensures
        said(r.0) == tested(rows@[i as int], outcome_of(outcome)),
        r.1 == i + 1,
{
    let n = rows.len();
    let (link, mode) = (&rows[i].0, rows[i].1);
    let message = match outcome {
        Ok(results) => WorkerMsg::BatchItem { label: link.short(mode), results },
        Err(why) => WorkerMsg::Log(batch_failed(link, mode, why.as_str())),
    };
    assert(i < n);
    (message, i + 1)
}

/// Everything a batch reports from row `i` on, where test `k` comes to
/// `outcomes[k]` and nobody stops it.
pub open spec fn batch_from(
    rows: Seq<(LinkPair, Mode)>,
    outcomes: Seq<Result<Results, Seq<char>>>,
    i: int,
) -> Seq<Said>
    decreases rows.len() - i,
{
    if i >= rows.len() {
        seq![Said::Complete]
    } else {
        seq![testing(rows, i), tested(rows[i], outcomes[i])] + batch_from(rows, outcomes, i + 1)
    }
}

/// A batch tests every row once and in order, whatever came of the ones before:
/// one item for each test that succeeds, a line in the log for each that fails,
/// and one completion message, which comes last.
pub proof fn law_batch_reports_every_row(
    rows: Seq<(LinkPair, Mode)>,
    outcomes: Seq<Result<Results, Seq<char>>>,
)
    requires
        outcomes.len() == rows.len(),
    ensures
        ({
            let all = batch_from(rows, outcomes, 0);
            &&& all.len() == 2 * rows.len() + 1
            &&& forall|k: int|
                #![trigger rows[k]]
                0 <= k < rows.len() ==> all[2 * k] == testing(rows, k) && all[2 * k + 1] == tested(
                    rows[k],
                    outcomes[k],
                )
            &&& forall|j: int|
                0 <= j < all.len() ==> (#[trigger] all[j] is Complete <==> j == 2 * rows.len())
        }),
{
    lemma_batch_from(rows, outcomes, 0);
}

proof fn lemma_batch_from(
    rows: Seq<(LinkPair, Mode)>,
    outcomes: Seq<Result<Results, Seq<char>>>,
    i: int,
)
    requires
        outcomes.len() == rows.len(),
        0 <= i <= rows.len(),
    ensures
        ({
            let all = batch_from(rows, outcomes, i);
            let n = rows.len() - i;
            &&& all.len() == 2 * n + 1
            &&& forall|k: int|
                #![trigger rows[k]]
                i <= k < rows.len() ==> all[2 * (k - i)] == testing(rows, k) && all[2 * (k - i) + 1]
                    == tested(rows[k], outcomes[k])
            &&& forall|j: int|
                0 <= j < all.len() ==> (#[trigger] all[j] is Complete <==> j == 2 * n)
        }),
    decreases rows.len() - i,
{
    if i < rows.len() {
        lemma_batch_from(rows, outcomes, i + 1);
        let all = batch_from(rows, outcomes, i);
        let rest = batch_from(rows, outcomes, i + 1);
        assert forall|j: int| 0 <= j < all.len() implies (#[trigger] all[j] is Complete <==> j == 2
            * (rows.len() - i)) by {
            if j >= 2 {
                assert(all[j] == rest[j - 2]);
            }
        }
        assert forall|k: int| #![trigger rows[k]] i <= k < rows.len() implies all[2 * (k - i)]
            == testing(rows, k) && all[2 * (k - i) + 1] == tested(rows[k], outcomes[k]) by {
            if k > i {
                assert(all[2 * (k - i)] == rest[2 * (k - i - 1)]);
                assert(all[2 * (k - i) + 1] == rest[2 * (k - i - 1) + 1]);
            }
        }
    }
}

/// A test that succeeded is reported with its own results under its own name, one
/// that failed with its name and the reason; neither ends the batch.
pub proof fn law_tests_are_reported_as_they_went(
    row: (LinkPair, Mode),
    results: Results,
    why: Seq<char>,
)
    ensures
        tested(row, Ok(results)) == (Said::Item { label: short_of(row.0, row.1), results }),
        tested(row, Err(why)) is Log,
        why.is_suffix_of(tested(row, Err(why))->Log_0),
        !(tested(row, Ok(results)) is Complete) && !(tested(row, Err(why)) is Complete),
{
    let t = tested(row, Err(why))->Log_0;
    assert(t.subrange(t.len() - why.len(), t.len() as int) =~= why);
}

} // verus!
