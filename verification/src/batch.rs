use vstd::prelude::*;
use crate::metrics::{MetricRecord, RecordV};
use crate::walk::{records_view, walk_models, walk_results, ModelDir, WalkEvent};

verus! {

/// What the caller found of one selected run folder: its results tree as
/// plain values, or the reason none could be taken.
pub enum RunListing {
    /// The run has no `results` subdirectory.
    MissingResults,
    /// The run's output directory could not be made.
    OutputDirFailed,
    /// The results tree could not be listed.
    ListFailed { message: String },
    /// The results tree, model directories in listed order.
    Tree { models: Vec<ModelDir> },
}

/// One selected run folder with what was found of it.
pub struct RunInput {
    pub name: String,
    pub listing: RunListing,
}

/// One line of the batch's processing log.
#[derive(Clone)]
pub enum LogLine {
    /// The base path processed.
    BasePath { path: String },
    /// The run folders selected, in the caller's order.
    Selected { names: Vec<String> },
    /// A run's processing began.
    ProcessingRun { name: String },
    /// The run has no results tree and was skipped.
    SkippedNoResults { name: String },
    /// The run's output directory failed and the run was skipped.
    OutputDirError { name: String },
    /// The run's results tree could not be walked.
    WalkFailed { name: String, message: String },
    /// The run's walk finished.
    RunDone { name: String },
    /// A per-dataset failure, skipped.
    Item { event: WalkEvent },
    /// The consolidated report was written, after this many processed runs.
    ReportWritten { count: usize },
    /// The consolidated report could not be written.
    ReportWriteFailed,
    /// No record was produced, so no report was written.
    NothingProcessed,
}

/// What a batch produced: the merged records, the log so far, how many runs
/// yielded a walk, and whether a report is owed.
pub struct BatchOutcome {
    pub records: Vec<MetricRecord>,
    pub log: Vec<LogLine>,
    pub processed: usize,
    pub write_needed: bool,
}

pub open spec fn events_as_lines(es: Seq<WalkEvent>) -> Seq<LogLine> {
    es.map_values(|e: WalkEvent| LogLine::Item { event: e })
}

/// One run's contribution: its records, its log lines, and whether it
/// counts as processed.
pub open spec fn run_step(run: RunInput) -> (Seq<RecordV>, Seq<LogLine>, int) {
    match run.listing {
        RunListing::MissingResults => (
            Seq::empty(),
            seq![
                LogLine::ProcessingRun { name: run.name },
                LogLine::SkippedNoResults { name: run.name },
            ],
            0,
        ),
        RunListing::OutputDirFailed => (
            Seq::empty(),
            seq![
                LogLine::ProcessingRun { name: run.name },
                LogLine::OutputDirError { name: run.name },
            ],
            0,
        ),
        RunListing::ListFailed { message } => (
            Seq::empty(),
            seq![
                LogLine::ProcessingRun { name: run.name },
                LogLine::WalkFailed { name: run.name, message },
            ],
            0,
        ),
        RunListing::Tree { models } => {
            let w = walk_models(models@);
            (
                w.0,
                seq![LogLine::ProcessingRun { name: run.name }] + events_as_lines(w.1) + seq![
                    LogLine::RunDone { name: run.name },
                ],
                1,
            )
        },
    }
}

/// The runs' contributions, joined in the caller's order.
pub open spec fn batch_fold(runs: Seq<RunInput>) -> (Seq<RecordV>, Seq<LogLine>, int)
    decreases runs.len(),
{
    if runs.len() == 0 {
        (Seq::empty(), Seq::empty(), 0)
    } else {
        let p = batch_fold(runs.drop_last());
        let q = run_step(runs.last());
        (p.0 + q.0, p.1 + q.1, p.2 + q.2)
    }
}

/// The whole batch: a header naming the base path and the selection, then
/// each run's lines; where nothing was produced, the notice, and no report
/// is owed.
pub open spec fn batch_spec(base: String, selected: Vec<String>, runs: Seq<RunInput>) -> (
    Seq<RecordV>,
    Seq<LogLine>,
    int,
    bool,
) {
    let f = batch_fold(runs);
    let head = seq![LogLine::BasePath { path: base }, LogLine::Selected { names: selected }];
    if f.0.len() > 0 {
        (f.0, head + f.1, f.2, true)
    } else {
        (f.0, head + f.1 + seq![LogLine::NothingProcessed], f.2, false)
    }
}

/// Processes the selected run folders, in the given order: each run's tree
/// is walked and its records merged; a run without results, without an
/// output directory or without a listable tree is logged and skipped, never
/// stopping the batch. A report is owed exactly when a record was produced.
pub fn process_batch(base_path: String, selected: Vec<String>, runs: Vec<RunInput>) -> (r:
    BatchOutcome)
    ensures
        records_view(r.records@) == batch_spec(base_path, selected, runs@).0,
        r.log@ == batch_spec(base_path, selected, runs@).1,
        r.processed as int == batch_spec(base_path, selected, runs@).2,
        r.write_needed == batch_spec(base_path, selected, runs@).3,
        r.write_needed <==> r.records@.len() > 0,
{
    let ghost all = runs@;
    let n = runs.len();
    let mut rest = runs;
    let mut records: Vec<MetricRecord> = Vec::new();
    let mut log: Vec<LogLine> = Vec::new();
    let mut processed: usize = 0;
    log.push(LogLine::BasePath { path: base_path });
    log.push(LogLine::Selected { names: selected });
    let ghost head = log@;
    let ghost mut i: int = 0;
    proof {
        assert(batch_fold(all.take(0)) == (Seq::<RecordV>::empty(), Seq::<LogLine>::empty(), 0int));
        assert(records_view(records@) =~= Seq::<RecordV>::empty());
    }
    while rest.len() > 0
        invariant
            0 <= i <= all.len(),
            all.len() == n,
            rest@ == all.skip(i),
            records_view(records@) == batch_fold(all.take(i)).0,
            log@ == head + batch_fold(all.take(i)).1,
            processed as int == batch_fold(all.take(i)).2,
            processed <= i,
        decreases rest@.len(),
    {
        assert(i < all.len());
        let run = rest.remove(0);
        assert(run == all[i]);
        assert(rest@ =~= all.skip(i + 1));
        proof {
            let post = all.take(i + 1);
            assert(post.drop_last() =~= all.take(i));
            assert(post.last() == all[i]);
        }
        let ghost base_r = records_view(records@);
        let ghost base_l = log@;
        let RunInput { name, listing } = run;
        log.push(LogLine::ProcessingRun { name: name.clone() });
        match listing {
            RunListing::MissingResults => {
                log.push(LogLine::SkippedNoResults { name });
            },
            RunListing::OutputDirFailed => {
                log.push(LogLine::OutputDirError { name });
            },
            RunListing::ListFailed { message } => {
                log.push(LogLine::WalkFailed { name, message });
            },
            RunListing::Tree { models } => {
                let ghost w = walk_models(models@);
                let (recs, evs) = walk_results(models);
                let mut recs_m = recs;
                records.append(&mut recs_m);
                proof {
                    assert(records_view(records@) =~= base_r + w.0);
                }
                let ghost evs0 = evs@;
                let mut evs_m = evs;
                let ghost mut k: int = 0;
                while evs_m.len() > 0
                    invariant
                        0 <= k <= evs0.len(),
                        evs_m@ == evs0.skip(k),
                        log@ == base_l + seq![LogLine::ProcessingRun { name: all[i].name }]
                            + events_as_lines(evs0.take(k)),
                        name == all[i].name,
                    decreases evs_m@.len(),
                {
                    assert(k < evs0.len());
                    let e = evs_m.remove(0);
                    assert(e == evs0[k]);
                    assert(evs_m@ =~= evs0.skip(k + 1));
                    log.push(LogLine::Item { event: e });
                    proof {
                        assert(events_as_lines(evs0.take(k + 1)) =~= events_as_lines(
                            evs0.take(k),
                        ).push(LogLine::Item { event: evs0[k] }));
                        assert(log@ =~= base_l + seq![
                            LogLine::ProcessingRun { name: all[i].name },
                        ] + events_as_lines(evs0.take(k + 1)));
                        k = k + 1;
                    }
                }
                proof {
                    assert(evs0.take(evs0.len() as int) =~= evs0);
                }
                log.push(LogLine::RunDone { name });
                processed += 1;
                proof {
                    assert(log@ =~= base_l + (seq![LogLine::ProcessingRun { name: all[i].name }]
                        + events_as_lines(w.1) + seq![LogLine::RunDone { name: all[i].name }]));
                }
            },
        }
        proof {
            assert(records_view(records@) =~= batch_fold(all.take(i + 1)).0);
            assert(log@ =~= head + batch_fold(all.take(i + 1)).1);
            i = i + 1;
        }
    }
    proof {
        assert(all.take(all.len() as int) =~= all);
    }
    let write_needed = records.len() > 0;
    if !write_needed {
        log.push(LogLine::NothingProcessed);
    }
    proof {
        if records@.len() == 0 {
            assert(records_view(records@) =~= Seq::<RecordV>::empty());
        } else {
            assert(records_view(records@).len() > 0);
        }
    }
    BatchOutcome { records, log, processed, write_needed }
}

} // verus!
