use vstd::prelude::*;

pub mod batch;
pub mod csvio;
pub mod decimal;
pub mod ident;
pub mod metrics;
pub mod report;
pub mod scan;
pub mod sort;
pub mod walk;

verus! {

/// The library reads a tree of experiment runs handed in as plain values,
/// extracts each dataset's last recorded metrics row, and renders one
/// consolidated report; this function names the adopted report file.
pub fn report_file_name() -> (r: &'static str)
    ensures
        r@ == "final_result.csv"@,
{
    "final_result.csv"
}

} // verus!
