use vstd::prelude::*;
use vstd::string::StringExecFns;
use crate::decimal::{
    dec_of_str, dec_scaled, lemma_dec_of_str_wf, parse_decimal_chars, scale_decimal, DecVal,
    Decimal,
};
use crate::csvio::{
    csv_data_rows, csv_decode_ok, csv_header_bad, csv_header_row, read_csv_bytes, CsvFailure,
};
use crate::ident::str_to_chars;

verus! {

/// Why one dataset's results file yielded no record.
#[derive(Clone, Copy, Debug, PartialEq, Eq, Structural)]
pub enum MetricsError {
    /// The header row could not be read.
    HeaderRead,
    /// A data record could not be read.
    RecordRead,
    /// The file holds no data row.
    EmptyFile,
    /// The named source column (by schema position) is absent.
    ColumnNotFound(usize),
    /// The row is too short for the column's position.
    ValueMissing(usize),
    /// The cell does not read as a number.
    ValueParse(usize),
}

/// One consolidated row of the report: percentage metrics carry two more
/// decimal places than the source ratio; parameter and compute counts are
/// scaled to millions and billions.
pub struct MetricRecord {
    pub model: String,
    pub dataset: String,
    pub miou: Decimal,
    pub f1_score: Decimal,
    pub accuracy: Decimal,
    pub specificity: Decimal,
    pub sensitivity: Decimal,
    pub dsc: Decimal,
    pub precision: Decimal,
    pub parameters_m: Decimal,
    pub flops_g: Decimal,
}

/// The mathematical content of a record.
pub ghost struct RecordV {
    pub model: String,
    pub dataset: String,
    pub miou: DecVal,
    pub f1_score: DecVal,
    pub accuracy: DecVal,
    pub specificity: DecVal,
    pub sensitivity: DecVal,
    pub dsc: DecVal,
    pub precision: DecVal,
    pub parameters_m: DecVal,
    pub flops_g: DecVal,
}

impl View for MetricRecord {
    type V = RecordV;

    open spec fn view(&self) -> RecordV {
        RecordV {
            model: self.model,
            dataset: self.dataset,
            miou: self.miou@,
            f1_score: self.f1_score@,
            accuracy: self.accuracy@,
            specificity: self.specificity@,
            sensitivity: self.sensitivity@,
            dsc: self.dsc@,
            precision: self.precision@,
            parameters_m: self.parameters_m@,
            flops_g: self.flops_g@,
        }
    }
}

/// The source column read for schema position `k`.
pub open spec fn col_name(k: int) -> Seq<char> {
    if k == 0 {
        "test/MeanIoU"@
    } else if k == 1 {
        "test/BinaryF1Score"@
    } else if k == 2 {
        "test/BinaryAccuracy"@
    } else if k == 3 {
        "test/BinarySpecificity"@
    } else if k == 4 {
        "test/BinaryRecall"@
    } else if k == 5 {
        "test/Dice"@
    } else if k == 6 {
        "test/BinaryPrecision"@
    } else if k == 7 {
        "Parameters"@
    } else {
        "FLOPs"@
    }
}

/// The unit conversion at schema position `k`: ratios to percentages, raw
/// counts to millions or billions.
pub open spec fn col_scale(k: int) -> int {
    if k <= 6 {
        2
    } else if k == 7 {
        -6
    } else {
        -9
    }
}

/// Index of the last header equal to `name`, or -1: where a header repeats,
/// the rightmost occurrence is the one read.
pub open spec fn last_index_of(headers: Seq<Seq<char>>, name: Seq<char>) -> int
    decreases headers.len(),
{
    if headers.len() == 0 {
        -1
    } else if headers.last() == name {
        headers.len() - 1
    } else {
        last_index_of(headers.drop_last(), name)
    }
}

/// The value at schema position `k` of a row under the given headers:
/// looked up by column name, read as a decimal, unit-converted.
pub open spec fn field_of(headers: Seq<Seq<char>>, row: Seq<Seq<char>>, k: int) -> Result<
    DecVal,
    MetricsError,
> {
    let idx = last_index_of(headers, col_name(k));
    if idx < 0 {
        Err(MetricsError::ColumnNotFound(k as usize))
    } else if idx >= row.len() {
        Err(MetricsError::ValueMissing(k as usize))
    } else {
        match dec_of_str(row[idx]) {
            Some(d) => Ok(dec_scaled(d, col_scale(k))),
            None => Err(MetricsError::ValueParse(k as usize)),
        }
    }
}

/// The record of a parsed table: the last data row is the authoritative
/// one; the nine schema columns are read in order and the first failure
/// wins.
pub open spec fn metrics_of(
    headers: Seq<Seq<char>>,
    rows: Seq<Seq<Seq<char>>>,
    model: String,
    dataset: String,
) -> Result<RecordV, MetricsError> {
    if rows.len() == 0 {
        Err(MetricsError::EmptyFile)
    } else {
        let row = rows.last();
        let f0 = field_of(headers, row, 0);
        let f1 = field_of(headers, row, 1);
        let f2 = field_of(headers, row, 2);
        let f3 = field_of(headers, row, 3);
        let f4 = field_of(headers, row, 4);
        let f5 = field_of(headers, row, 5);
        let f6 = field_of(headers, row, 6);
        let f7 = field_of(headers, row, 7);
        let f8 = field_of(headers, row, 8);
        if f0 is Err {
            Err(f0->Err_0)
        } else if f1 is Err {
            Err(f1->Err_0)
        } else if f2 is Err {
            Err(f2->Err_0)
        } else if f3 is Err {
            Err(f3->Err_0)
        } else if f4 is Err {
            Err(f4->Err_0)
        } else if f5 is Err {
            Err(f5->Err_0)
        } else if f6 is Err {
            Err(f6->Err_0)
        } else if f7 is Err {
            Err(f7->Err_0)
        } else if f8 is Err {
            Err(f8->Err_0)
        } else {
            Ok(
                RecordV {
                    model,
                    dataset,
                    miou: f0->Ok_0,
                    f1_score: f1->Ok_0,
                    accuracy: f2->Ok_0,
                    specificity: f3->Ok_0,
                    sensitivity: f4->Ok_0,
                    dsc: f5->Ok_0,
                    precision: f6->Ok_0,
                    parameters_m: f7->Ok_0,
                    flops_g: f8->Ok_0,
                },
            )
        }
    }
}

/// The last row alone decides the record: two tables of equal headers whose
/// last rows agree yield the same result, whatever the earlier rows held.
pub proof fn lemma_last_row_authoritative(
    headers: Seq<Seq<char>>,
    rows_a: Seq<Seq<Seq<char>>>,
    rows_b: Seq<Seq<Seq<char>>>,
    model: String,
    dataset: String,
)
    requires
        rows_a.len() > 0,
        rows_b.len() > 0,
        rows_a.last() == rows_b.last(),
    ensures
        metrics_of(headers, rows_a, model, dataset) == metrics_of(headers, rows_b, model, dataset),
{
}

/// Index of the rightmost header equal to `name`.
fn find_col(headers: &Vec<String>, name: &String) -> (r: Option<usize>)
    ensures
        r is Some ==> last_index_of(headers.deep_view(), name@) == r->0 as int && r->0
            < headers@.len(),
        r is None ==> last_index_of(headers.deep_view(), name@) == -1,
{
    let ghost hv = headers.deep_view();
    let n = headers.len();
    assert(hv.len() == n);
    let mut i: usize = n;
    assert(hv.take(n as int) =~= hv);
    while i > 0
        invariant
            i <= n,
            n == headers@.len(),
            hv == headers.deep_view(),
            hv.len() == n,
            last_index_of(hv, name@) == last_index_of(hv.take(i as int), name@),
        decreases i,
    {
        i -= 1;
        let h = &headers[i];
        let ghost t = hv.take(i + 1 as int);
        proof {
            assert(t.drop_last() =~= hv.take(i as int));
            assert(t.last() == hv[i as int]);
            assert(hv[i as int] == headers@[i as int]@);
        }
        if h.eq(name) {
            return Some(i);
        }
    }
    assert(hv.take(0) =~= Seq::<Seq<char>>::empty());
    None
}

/// Reads one schema column out of a row.
fn get_field(headers: &Vec<String>, row: &Vec<String>, k: usize, name: &String, scale: i32) -> (r:
    Result<Decimal, MetricsError>)
    requires
        k < 9,
        name@ == col_name(k as int),
        scale as int == col_scale(k as int),
    ensures
        r is Ok <==> field_of(headers.deep_view(), row.deep_view(), k as int) is Ok,
        r is Ok ==> r->Ok_0@ == field_of(headers.deep_view(), row.deep_view(), k as int)->Ok_0,
        r is Err ==> r->Err_0 == field_of(headers.deep_view(), row.deep_view(), k as int)->Err_0,
{
    let idx = match find_col(headers, name) {
        Some(i) => i,
        None => {
            return Err(MetricsError::ColumnNotFound(k));
        },
    };
    if idx >= row.len() {
        return Err(MetricsError::ValueMissing(k));
    }
    let cell = &row[idx];
    assert(row.deep_view()[idx as int] == cell@);
    let chars = str_to_chars(cell.as_str());
    match parse_decimal_chars(&chars) {
        Some(d) => {
            proof {
                lemma_dec_of_str_wf(cell@);
            }
            Ok(scale_decimal(d, scale))
        },
        None => Err(MetricsError::ValueParse(k)),
    }
}

/// Maps a parsed table to a record: keeps only the last row, looks each of
/// the nine source columns up by name, converts units.
pub fn map_metrics_row(
    headers: &Vec<String>,
    rows: &Vec<Vec<String>>,
    model: &String,
    dataset: &String,
) -> (r: Result<MetricRecord, MetricsError>)
    ensures
        r is Ok <==> metrics_of(headers.deep_view(), rows.deep_view(), *model, *dataset) is Ok,
        r is Ok ==> r->Ok_0@ == metrics_of(
            headers.deep_view(),
            rows.deep_view(),
            *model,
            *dataset,
        )->Ok_0,
        r is Err ==> r->Err_0 == metrics_of(
            headers.deep_view(),
            rows.deep_view(),
            *model,
            *dataset,
        )->Err_0,
{
    let n = rows.len();
    if n == 0 {
        return Err(MetricsError::EmptyFile);
    }
    let row = &rows[n - 1];
    proof {
        assert(rows.deep_view()[n - 1] == rows@[n - 1].deep_view());
        assert(rows.deep_view().last() == row.deep_view());
    }
    let name0 = String::from_str("test/MeanIoU");
    let name1 = String::from_str("test/BinaryF1Score");
    let name2 = String::from_str("test/BinaryAccuracy");
    let name3 = String::from_str("test/BinarySpecificity");
    let name4 = String::from_str("test/BinaryRecall");
    let name5 = String::from_str("test/Dice");
    let name6 = String::from_str("test/BinaryPrecision");
    let name7 = String::from_str("Parameters");
    let name8 = String::from_str("FLOPs");
    let f0 = match get_field(headers, row, 0, &name0, 2) {
        Ok(d) => d,
        Err(e) => {
            return Err(e);
        },
    };
    let f1 = match get_field(headers, row, 1, &name1, 2) {
        Ok(d) => d,
        Err(e) => {
            return Err(e);
        },
    };
    let f2 = match get_field(headers, row, 2, &name2, 2) {
        Ok(d) => d,
        Err(e) => {
            return Err(e);
        },
    };
    let f3 = match get_field(headers, row, 3, &name3, 2) {
        Ok(d) => d,
        Err(e) => {
            return Err(e);
        },
    };
    let f4 = match get_field(headers, row, 4, &name4, 2) {
        Ok(d) => d,
        Err(e) => {
            return Err(e);
        },
    };
    let f5 = match get_field(headers, row, 5, &name5, 2) {
        Ok(d) => d,
        Err(e) => {
            return Err(e);
        },
    };
    let f6 = match get_field(headers, row, 6, &name6, 2) {
        Ok(d) => d,
        Err(e) => {
            return Err(e);
        },
    };
    let f7 = match get_field(headers, row, 7, &name7, -6) {
        Ok(d) => d,
        Err(e) => {
            return Err(e);
        },
    };
    let f8 = match get_field(headers, row, 8, &name8, -9) {
        Ok(d) => d,
        Err(e) => {
            return Err(e);
        },
    };
    Ok(
        MetricRecord {
            model: model.clone(),
            dataset: dataset.clone(),
            miou: f0,
            f1_score: f1,
            accuracy: f2,
            specificity: f3,
            sensitivity: f4,
            dsc: f5,
            precision: f6,
            parameters_m: f7,
            flops_g: f8,
        },
    )
}

/// The record, or the failure, that a results file's byte content yields.
pub open spec fn metrics_from_bytes(bytes: Seq<u8>, model: String, dataset: String) -> Result<
    RecordV,
    MetricsError,
> {
    if csv_decode_ok(bytes) {
        metrics_of(csv_header_row(bytes), csv_data_rows(bytes), model, dataset)
    } else if csv_header_bad(bytes) {
        Err(MetricsError::HeaderRead)
    } else {
        Err(MetricsError::RecordRead)
    }
}

/// Parses one results file, given as its byte content, into a record.
pub fn parse_metrics_bytes(bytes: &Vec<u8>, model: &String, dataset: &String) -> (r: Result<
    MetricRecord,
    MetricsError,
>)
    ensures
        r is Ok <==> metrics_from_bytes(bytes@, *model, *dataset) is Ok,
        r is Ok ==> r->Ok_0@ == metrics_from_bytes(bytes@, *model, *dataset)->Ok_0,
        r is Err ==> r->Err_0 == metrics_from_bytes(bytes@, *model, *dataset)->Err_0,
{
    match read_csv_bytes(bytes) {
        Ok((headers, rows)) => map_metrics_row(&headers, &rows, model, dataset),
        Err(CsvFailure::Header) => Err(MetricsError::HeaderRead),
        Err(CsvFailure::Record) => Err(MetricsError::RecordRead),
    }
}

} // verus!
