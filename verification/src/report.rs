use vstd::prelude::*;
use vstd::string::StringExecFns;
use crate::csvio::{csv_encode_ok, csv_encoding, write_csv_rows};
use crate::decimal::{chars_to_string, dec_chars, dec_to_chars};
use crate::metrics::{MetricRecord, RecordV};
use crate::walk::records_view;

verus! {

/// Why a report could not be rendered.
#[derive(Clone, Copy, Debug, PartialEq, Eq, Structural)]
pub enum ReportError {
    /// The row encoder refused the rows.
    Write,
}

/// The fixed column order of the report.
pub open spec fn header_cells() -> Seq<Seq<char>> {
    seq![
        "model"@,
        "dataset"@,
        "Miou"@,
        "F1_score"@,
        "Accuracy"@,
        "Specificity"@,
        "Sensitivity"@,
        "DSC"@,
        "Precision"@,
        "Parameters(M)"@,
        "FLOPS(G)"@,
    ]
}

/// One record's cells, in the fixed column order.
pub open spec fn record_cells(r: RecordV) -> Seq<Seq<char>> {
    seq![
        r.model@,
        r.dataset@,
        dec_chars(r.miou),
        dec_chars(r.f1_score),
        dec_chars(r.accuracy),
        dec_chars(r.specificity),
        dec_chars(r.sensitivity),
        dec_chars(r.dsc),
        dec_chars(r.precision),
        dec_chars(r.parameters_m),
        dec_chars(r.flops_g),
    ]
}

/// The whole report: the header row, then one row per record, in order.
pub open spec fn report_cells(rs: Seq<RecordV>) -> Seq<Seq<Seq<char>>> {
    seq![header_cells()] + rs.map_values(|r: RecordV| record_cells(r))
}

fn header_row() -> (r: Vec<String>)
    ensures
        r.deep_view() == header_cells(),
{
    let mut v: Vec<String> = Vec::new();
    v.push(String::from_str("model"));
    v.push(String::from_str("dataset"));
    v.push(String::from_str("Miou"));
    v.push(String::from_str("F1_score"));
    v.push(String::from_str("Accuracy"));
    v.push(String::from_str("Specificity"));
    v.push(String::from_str("Sensitivity"));
    v.push(String::from_str("DSC"));
    v.push(String::from_str("Precision"));
    v.push(String::from_str("Parameters(M)"));
    v.push(String::from_str("FLOPS(G)"));
    assert(v.deep_view() =~= header_cells());
    v
}

fn record_row(rec: &MetricRecord) -> (r: Vec<String>)
    ensures
        r.deep_view() == record_cells(rec@),
{
    let mut v: Vec<String> = Vec::new();
    v.push(rec.model.clone());
    v.push(rec.dataset.clone());
    v.push(chars_to_string(&dec_to_chars(&rec.miou)));
    v.push(chars_to_string(&dec_to_chars(&rec.f1_score)));
    v.push(chars_to_string(&dec_to_chars(&rec.accuracy)));
    v.push(chars_to_string(&dec_to_chars(&rec.specificity)));
    v.push(chars_to_string(&dec_to_chars(&rec.sensitivity)));
    v.push(chars_to_string(&dec_to_chars(&rec.dsc)));
    v.push(chars_to_string(&dec_to_chars(&rec.precision)));
    v.push(chars_to_string(&dec_to_chars(&rec.parameters_m)));
    v.push(chars_to_string(&dec_to_chars(&rec.flops_g)));
    assert(v.deep_view() =~= record_cells(rec@));
    v
}

/// Renders the records as the report's byte content: the fixed header row,
/// then one row per record, in the order given.
pub fn render_report(records: &Vec<MetricRecord>) -> (r: Result<Vec<u8>, ReportError>)
    ensures
        r is Ok <==> csv_encode_ok(report_cells(records_view(records@))),
        r is Ok ==> r->Ok_0@ == csv_encoding(report_cells(records_view(records@))),
{
    let ghost goal = report_cells(records_view(records@));
    let mut rows: Vec<Vec<String>> = Vec::new();
    rows.push(header_row());
    proof {
        assert(records_view(records@.take(0)) =~= Seq::<RecordV>::empty());
        assert(rows.deep_view() =~= report_cells(records_view(records@.take(0))));
    }
    let n = records.len();
    let mut j: usize = 0;
    while j < n
        invariant
            j <= n,
            n == records@.len(),
            rows.deep_view() == report_cells(records_view(records@.take(j as int))),
        decreases n - j,
    {
        let row = record_row(&records[j]);
        rows.push(row);
        proof {
            let pre = records_view(records@.take(j as int));
            let post = records_view(records@.take(j + 1 as int));
            assert(post =~= pre.push(records@[j as int]@));
            assert(report_cells(pre.push(records@[j as int]@)) =~= report_cells(pre).push(
                record_cells(records@[j as int]@),
            ));
            assert(rows.deep_view() =~= report_cells(pre).push(record_cells(records@[j as int]@)));
        }
        j += 1;
    }
    proof {
        assert(records@.take(n as int) =~= records@);
    }
    match write_csv_rows(&rows) {
        Ok(bytes) => Ok(bytes),
        Err(_) => Err(ReportError::Write),
    }
}

} // verus!
