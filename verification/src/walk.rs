use vstd::prelude::*;
use crate::ident::{extract_dataset_number, ident_result};
use crate::metrics::{metrics_from_bytes, parse_metrics_bytes, MetricRecord, MetricsError, RecordV};
use crate::sort::{sort_by_key, sort_vec_by_key, SortKey};

verus! {

/// One dataset directory inside a model's results: its name and, where the
/// conventional results file exists, that file's byte content.
pub struct DatasetDir {
    pub name: String,
    pub metrics: Option<Vec<u8>>,
}

/// One model directory inside a run's results tree.
pub struct ModelDir {
    pub name: String,
    pub datasets: Vec<DatasetDir>,
}

/// A recoverable per-dataset failure, logged and skipped.
#[derive(Clone)]
pub enum WalkEvent {
    /// The conventional results file is absent.
    MissingMetrics { model: String, dataset: String },
    /// The results file would not parse.
    ParseFailed { model: String, dataset: String, error: MetricsError },
}

impl SortKey for DatasetDir {
    /// Datasets order by their extracted identifier; one that yields none
    /// sorts as 0.
    open spec fn key(&self) -> int {
        match ident_result(self.name@) {
            Ok(v) => v,
            Err(_) => 0,
        }
    }

    fn key_exec(&self) -> (k: i32)
        ensures
            k as int == self.key(),
    {
        match extract_dataset_number(self.name.as_str()) {
            Ok(v) => v,
            Err(_) => 0,
        }
    }
}

pub open spec fn records_view(rs: Seq<MetricRecord>) -> Seq<RecordV> {
    rs.map_values(|x: MetricRecord| x@)
}

/// The records and events of one model's datasets, in the order given: a
/// dataset without its results file, or whose file will not parse, is an
/// event; each other yields its record.
pub open spec fn collect_datasets(model: String, ds: Seq<DatasetDir>) -> (Seq<RecordV>, Seq<
    WalkEvent,
>)
    decreases ds.len(),
{
    if ds.len() == 0 {
        (Seq::empty(), Seq::empty())
    } else {
        let p = collect_datasets(model, ds.drop_last());
        let d = ds.last();
        match d.metrics {
            None => (p.0, p.1.push(WalkEvent::MissingMetrics { model, dataset: d.name })),
            Some(bytes) => match metrics_from_bytes(bytes@, model, d.name) {
                Ok(rec) => (p.0.push(rec), p.1),
                Err(e) => (
                    p.0,
                    p.1.push(WalkEvent::ParseFailed { model, dataset: d.name, error: e }),
                ),
            },
        }
    }
}

/// The walk of a whole results tree: models in the order given, each
/// model's datasets sorted ascending by extracted identifier.
pub open spec fn walk_models(models: Seq<ModelDir>) -> (Seq<RecordV>, Seq<WalkEvent>)
    decreases models.len(),
{
    if models.len() == 0 {
        (Seq::empty(), Seq::empty())
    } else {
        let p = walk_models(models.drop_last());
        let m = models.last();
        let q = collect_datasets(m.name, sort_by_key(m.datasets@));
        (p.0 + q.0, p.1 + q.1)
    }
}

/// Walks a run's results tree: per model, sorts the datasets by identifier,
/// parses each dataset's results file, collects the records and notes each
/// skipped dataset. A failure never stops the walk.
pub fn walk_results(models: Vec<ModelDir>) -> (r: (Vec<MetricRecord>, Vec<WalkEvent>))
    ensures
        records_view(r.0@) == walk_models(models@).0,
        r.1@ == walk_models(models@).1,
{
    let ghost all = models@;
    let mut rest = models;
    let mut recs: Vec<MetricRecord> = Vec::new();
    let mut events: Vec<WalkEvent> = Vec::new();
    let ghost mut i: int = 0;
    while rest.len() > 0
        invariant
            0 <= i <= all.len(),
            rest@ == all.skip(i),
            records_view(recs@) == walk_models(all.take(i)).0,
            events@ == walk_models(all.take(i)).1,
        decreases rest@.len(),
    {
        assert(i < all.len());
        let model = rest.remove(0);
        assert(model == all[i]);
        assert(rest@ =~= all.skip(i + 1));
        proof {
            let post = all.take(i + 1);
            assert(post.drop_last() =~= all.take(i));
            assert(post.last() == all[i]);
        }
        let ModelDir { name: mname, datasets } = model;
        let mut ds = datasets;
        sort_vec_by_key(&mut ds);
        let ghost sorted = sort_by_key(all[i].datasets@);
        assert(ds@ == sorted);
        let ghost base_r = records_view(recs@);
        let ghost base_e = events@;
        let ghost mut k: int = 0;
        while ds.len() > 0
            invariant
                0 <= k <= sorted.len(),
                ds@ == sorted.skip(k),
                mname == all[i].name,
                records_view(recs@) == base_r + collect_datasets(mname, sorted.take(k)).0,
                events@ == base_e + collect_datasets(mname, sorted.take(k)).1,
            decreases ds@.len(),
        {
            assert(k < sorted.len());
            let d = ds.remove(0);
            assert(d == sorted[k]);
            assert(ds@ =~= sorted.skip(k + 1));
            proof {
                let post = sorted.take(k + 1);
                assert(post.drop_last() =~= sorted.take(k));
                assert(post.last() == sorted[k]);
            }
            let DatasetDir { name: dname, metrics } = d;
            match metrics {
                None => {
                    events.push(WalkEvent::MissingMetrics { model: mname.clone(), dataset: dname });
                    assert(records_view(recs@) =~= base_r + collect_datasets(
                        mname,
                        sorted.take(k + 1),
                    ).0);
                },
                Some(bytes) => {
                    match parse_metrics_bytes(&bytes, &mname, &dname) {
                        Ok(rec) => {
                            recs.push(rec);
                            proof {
                                let post = sorted.take(k + 1);
                                let pc = collect_datasets(mname, post);
                                let qc = collect_datasets(mname, sorted.take(k));
                                assert(post.last() == sorted[k]);
                                assert(sorted[k].metrics == Some(bytes));
                                assert(sorted[k].name == dname);
                                assert(metrics_from_bytes(bytes@, mname, dname) is Ok);
                                assert(pc.0 == qc.0.push(rec@));
                                assert(records_view(recs@) =~= (base_r + qc.0).push(rec@));
                                assert((base_r + qc.0).push(rec@) =~= base_r + qc.0.push(rec@));
                            }
                        },
                        Err(e) => {
                            events.push(
                                WalkEvent::ParseFailed {
                                    model: mname.clone(),
                                    dataset: dname,
                                    error: e,
                                },
                            );
                            assert(records_view(recs@) =~= base_r + collect_datasets(
                                mname,
                                sorted.take(k + 1),
                            ).0);
                        },
                    }
                },
            }
            proof {
                k = k + 1;
            }
        }
        proof {
            assert(sorted.take(sorted.len() as int) =~= sorted);
            assert(records_view(recs@) =~= walk_models(all.take(i + 1)).0);
            assert(events@ =~= walk_models(all.take(i + 1)).1);
            i = i + 1;
        }
    }
    proof {
        assert(all.take(all.len() as int) =~= all);
    }
    (recs, events)
}

} // verus!
