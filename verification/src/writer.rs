//! A CSV document that is built record by record.

use vstd::prelude::*;
use crate::sink::{close_sink, csv_bytes, fits, open_sink, sink_records, sink_write};

verus! {

/// Why a record or a document was not written.
#[derive(Clone, Copy, Debug, PartialEq, Eq)]
pub enum WriteError {
    /// A record has another number of fields than the first record.
    UnequalLengths { expected: usize, found: usize },
    /// The encoder reported a failure of its own.
    Encoder,
}

impl WriteError {
    /// Whether the error says that a record of `found` fields was offered
    /// where the first of `records` has another number of them.
    pub open spec fn is_misfit(self, records: Seq<Seq<Seq<char>>>, found: nat) -> bool {
        &&& !fits(records, found)
        &&& self matches WriteError::UnequalLengths { expected, found: offered }
        &&& expected == records[0].len()
        &&& offered == found
    }
}

/// Whether every record has as many fields as the first.
pub open spec fn uniform(records: Seq<Seq<Seq<char>>>) -> bool {
    forall|i: int| 0 <= i < records.len() ==> (#[trigger] records[i]).len() == records[0].len()
}

/// A record that fits a uniform document keeps it uniform.
pub proof fn lemma_fitting_record_keeps_uniform(
    records: Seq<Seq<Seq<char>>>,
    record: Seq<Seq<char>>,
)
    requires
        uniform(records),
        fits(records, record.len()),
    ensures
        uniform(records.push(record)),
{
}

/// A CSV document in the making. Records are added one by one; each must
/// have as many fields as the first. The document is encoded when it is
/// finished.
pub struct CsvWriter {
    rows: Vec<Vec<String>>,
}

impl CsvWriter {
    /// The records written so far, oldest first, each as its fields.
    pub closed spec fn records(&self) -> Seq<Seq<Seq<char>>> {
        self.rows.deep_view()
    }

    /// A writer that holds no record yet.
    pub fn new() -> (writer: CsvWriter)
        ensures
            writer.records() == Seq::<Seq<Seq<char>>>::empty(),
    {
        CsvWriter { rows: Vec::new() }
    }

    /// Adds one record after those already written, unless its number of
    /// fields differs from that of the first record: then nothing is
    /// written, and the error gives both numbers.
    pub fn write_record(&mut self, record: Vec<String>) -> (written: Result<(), WriteError>)
        ensures
            written is Ok <==> fits(old(self).records(), record.len() as nat),
            written is Ok ==> final(self).records() == old(self).records().push(
                record.deep_view(),
            ),
            written is Err ==> final(self).records() == old(self).records(),
            written matches Err(e) ==> e.is_misfit(old(self).records(), record.len() as nat),
    {
        if self.rows.len() > 0 && self.rows[0].len() != record.len() {
            return Err(
                WriteError::UnequalLengths { expected: self.rows[0].len(), found: record.len() },
            );
        }
        self.rows.push(record);
        Ok(())
    }

    /// Ends the document and hands over its bytes, as the `csv` crate
    /// encodes the records. A document whose records differ in their
    /// number of fields is not encoded.
    pub fn into_inner(self) -> (output: Result<Vec<u8>, WriteError>)
        ensures
            output is Ok <==> uniform(self.records()),
            output matches Ok(bytes) ==> bytes@ == csv_bytes(self.records()),
            output matches Err(e) ==> exists|i: int|
                0 <= i < self.records().len() && e.is_misfit(
                    self.records(),
                    (#[trigger] self.records()[i]).len(),
                ),
    {
        let ghost records = self.rows.deep_view();
        let mut sink = open_sink();
        let mut i: usize = 0;
        while i < self.rows.len()
            invariant
                i <= self.rows.len(),
                records == self.rows.deep_view(),
                uniform(records.take(i as int)),
                sink_records(sink) == records.take(i as int),
            decreases self.rows.len() - i,
        {
            let expected = self.rows[0].len();
            let found = self.rows[i].len();
            if found != expected {
                assert((WriteError::UnequalLengths { expected, found }).is_misfit(
                    records,
                    records[i as int].len(),
                ));
                return Err(WriteError::UnequalLengths { expected, found });
            }
            proof {
                lemma_fitting_record_keeps_uniform(records.take(i as int), records[i as int]);
            }
            match sink_write(&mut sink, &self.rows[i]) {
                Ok(()) => {},
                Err(_) => {
                    return Err(WriteError::Encoder);
                },
            }
            i += 1;
        }
        assert(records.take(i as int) == records);
        match close_sink(sink) {
            Some(bytes) => Ok(bytes),
            None => Err(WriteError::Encoder),
        }
    }
}

} // verus!
