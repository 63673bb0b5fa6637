//! What an invocation asks for, and whether it is in order.

use vstd::prelude::*;
use std::path::PathBuf;
use crate::accession::{all_accessions, first_rejected, rejection, require_accessions};
use crate::fetch::{check_num_requests, clamped_requests};
use crate::output::OutputFormat;

verus! {

/// A path of the standard library. It is handed on unread.
#[verifier::external_type_specification]
#[verifier::external_body]
pub struct ExPathBuf(PathBuf);

/// What an invocation asks for.
#[derive(Debug)]
pub struct Args {
    /// The accessions of the runs to ask for.
    pub accession: Vec<String>,
    /// The number of requests that may be in flight at once, as asked for.
    pub num_requests: u8,
    /// A file that lists the accessions to ask for, one on a line.
    pub file: Option<PathBuf>,
    /// Whether the unpaired file of a run that has a pair as well is kept.
    pub keep_single_end: bool,
    /// The shape in which the runs are given out.
    pub format: OutputFormat,
}

/// Why an invocation is turned down before anything is asked of the
/// service.
#[derive(Clone, Debug, PartialEq, Eq)]
pub enum ArgsError {
    /// Neither an accession nor a file of accessions was given.
    NoAccessions,
    /// A string given as an accession is none; the message says which.
    InvalidAccession { message: String },
}

impl Args {
    /// Whether the invocation names a source of accessions: at least one
    /// accession, or a file.
    pub open spec fn has_source(&self) -> bool {
        self.accession.len() > 0 || self.file is Some
    }

    /// Whether the invocation is in order: it names a source, and every
    /// accession that it lists is one.
    pub open spec fn acceptable(&self) -> bool {
        self.has_source() && all_accessions(self.accession.deep_view())
    }

    /// Checks the invocation as a whole. One listed string that is no
    /// accession turns the whole invocation down.
    pub fn check(&self) -> (verdict: Result<(), ArgsError>)
        ensures
            verdict is Ok <==> self.acceptable(),
            verdict == Err::<(), ArgsError>(ArgsError::NoAccessions) <==> !self.has_source(),
            verdict matches Err(ArgsError::InvalidAccession { message }) ==> exists|k: int|
                #[trigger] first_rejected(self.accession.deep_view(), k) && message@ == rejection(
                    self.accession[k]@,
                ),
    {
        if self.accession.len() == 0 && self.file.is_none() {
            return Err(ArgsError::NoAccessions);
        }
        match require_accessions(&self.accession) {
            Ok(()) => Ok(()),
            Err(message) => Err(ArgsError::InvalidAccession { message }),
        }
    }

    /// Whether the accessions are to be read from the file rather than
    /// taken from the list: a file, where one is given, comes first.
    pub fn reads_file(&self) -> (from_file: bool)
        ensures
            from_file == self.file is Some,
    {
        self.file.is_some()
    }

    /// The number of requests that may be in flight at once: what was asked
    /// for, brought into the range that the service is owed.
    pub fn concurrency(&self) -> (bound: usize)
        ensures
            bound as int == clamped_requests(self.num_requests as int),
    {
        check_num_requests(self.num_requests)
    }
}

} // verus!
