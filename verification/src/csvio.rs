use vstd::prelude::*;

verus! {

/// Where reading a CSV table failed.
#[derive(Clone, Copy, Debug, PartialEq, Eq, Structural)]
pub enum CsvFailure {
    /// The header row could not be read.
    Header,
    /// A data record could not be read.
    Record,
}

/// Whether the byte content parses as a column-headered CSV table.
pub uninterp spec fn csv_decode_ok(bytes: Seq<u8>) -> bool;

/// The header row of the CSV byte content.
pub uninterp spec fn csv_header_row(bytes: Seq<u8>) -> Seq<Seq<char>>;

/// The data rows of the CSV byte content, in file order.
pub uninterp spec fn csv_data_rows(bytes: Seq<u8>) -> Seq<Seq<Seq<char>>>;

/// Whether a failed decode failed already at the header row.
pub uninterp spec fn csv_header_bad(bytes: Seq<u8>) -> bool;

/// The CSV encoding of the given rows.
pub uninterp spec fn csv_encoding(rows: Seq<Seq<Seq<char>>>) -> Seq<u8>;

/// Whether the rows encode cleanly (the writer refuses rows of unequal
/// widths).
pub uninterp spec fn csv_encode_ok(rows: Seq<Seq<Seq<char>>>) -> bool;

/// Relies on csv::Reader::from_reader, headers and records: reads the byte
/// content as a column-headered CSV table. The table is a function of the
/// bytes alone.
#[verifier::external_body]
pub fn read_csv_bytes(bytes: &Vec<u8>) -> (r: Result<(Vec<String>, Vec<Vec<String>>), CsvFailure>)
    ensures
        r is Ok <==> csv_decode_ok(bytes@),
        r is Ok ==> r->Ok_0.0.deep_view() == csv_header_row(bytes@),
        r is Ok ==> r->Ok_0.1.deep_view() == csv_data_rows(bytes@),
        r is Err ==> (r->Err_0 == CsvFailure::Header <==> csv_header_bad(bytes@)),
{
    let mut rdr = csv::Reader::from_reader(bytes.as_slice());
    let headers: Vec<String> = match rdr.headers() {
        Ok(h) => h.iter().map(|f| f.to_string()).collect(),
        Err(_) => return Err(CsvFailure::Header),
    };
    let rows: Result<Vec<Vec<String>>, CsvFailure> = rdr
        .records()
        .map(|rec| {
            rec.map(|row| row.iter().map(|f| f.to_string()).collect()).map_err(
                |_| CsvFailure::Record,
            )
        })
        .collect();
    Ok((headers, rows?))
}

/// Relies on csv::Writer::write_record, flush and into_inner: encodes the
/// rows as CSV bytes, one line per row. The encoding is a function of the
/// rows alone.
#[verifier::external_body]
pub fn write_csv_rows(rows: &Vec<Vec<String>>) -> (r: Result<Vec<u8>, ()>)
    ensures
        r is Ok <==> csv_encode_ok(rows.deep_view()),
        r is Ok ==> r->Ok_0@ == csv_encoding(rows.deep_view()),
{
    let mut w = csv::Writer::from_writer(Vec::new());
    for row in rows {
        if w.write_record(row).is_err() {
            return Err(());
        }
    }
    if w.flush().is_err() {
        return Err(());
    }
    w.into_inner().map_err(|_| ())
}

} // verus!
