//! Output: the CSV files results are written to and the Markdown report.

pub mod csv_data;
pub mod report;
