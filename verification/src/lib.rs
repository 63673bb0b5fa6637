//! Run accessions of the sequence read archives, the files that the ENA
//! lists for them, and the shapes in which those files are given out.

pub mod accession;
pub mod args;
pub mod decimal;
pub mod fetch;
pub mod order;
pub mod output;
pub mod run;
pub mod sink;
pub mod split;
pub mod text;
pub mod writer;

pub use accession::{read_accessions, validate_accession};
pub use args::Args;
pub use fetch::check_num_requests;
pub use output::{print_csv, print_csv_long, print_csv_wide, OutputFormat};
pub use run::{ENAApiResponse, Reads, Run};
pub use writer::CsvWriter;
