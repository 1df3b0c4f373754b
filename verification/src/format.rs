//! Selection of the output format from the `--format` argument.
use vstd::prelude::*;
use vstd::string::StringExecFns;

verus! {

/// How reports and profile results are printed: JSON, CSV or a table.
#[derive(Debug, Clone, Copy, PartialEq, Eq, Structural)]
pub enum OutputFormat {
    Json,
    Csv,
    Table,
}

/// "json" selects JSON and "csv" selects CSV; anything else, "table"
/// included, selects the table.
pub fn output_format(format: &str) -> (r: OutputFormat)
    ensures
        r == (if format@ == "json"@ {
            OutputFormat::Json
        } else if format@ == "csv"@ {
            OutputFormat::Csv
        } else {
            OutputFormat::Table
        }),
{
    let f = String::from_str(format);
    if f == String::from_str("json") {
        OutputFormat::Json
    } else if f == String::from_str("csv") {
        OutputFormat::Csv
    } else {
        OutputFormat::Table
    }
}

} // verus!
