//! The CSV encoder of the `csv` crate, as far as this library relies on it.
//! Nothing in this file is proved: it states what the crate's writer does.

use vstd::prelude::*;

verus! {

/// The error of the `csv` crate. It is handed on unread.
#[verifier::external_type_specification]
#[verifier::external_body]
pub struct ExCsvError(csv::Error);

/// A writer of the `csv` crate in its default configuration, which gathers
/// what it writes in a vector of bytes. The verifier sees nothing of it.
#[verifier::external_body]
pub struct RecordSink {
    inner: csv::Writer<Vec<u8>>,
}

/// The records that a sink has been given through `write_record`, oldest
/// first, each as its fields.
pub uninterp spec fn sink_records(sink: RecordSink) -> Seq<Seq<Seq<char>>>;

/// The bytes that `csv::Writer::into_inner` hands over for a writer in the
/// default configuration that has been given these records: the CSV text
/// as the `csv` crate writes it.
pub uninterp spec fn csv_bytes(records: Seq<Seq<Seq<char>>>) -> Seq<u8>;

/// Whether a record of `width` fields agrees with the records before it:
/// every record has as many fields as the first.
pub open spec fn fits(records: Seq<Seq<Seq<char>>>, width: nat) -> bool {
    records.len() == 0 || records[0].len() == width
}

/// `csv::Writer::from_writer`, on an empty vector of bytes: a writer that
/// has been given no record yet.
#[verifier::external_body]
pub(crate) fn open_sink() -> (sink: RecordSink)
    ensures
        sink_records(sink) == Seq::<Seq<Seq<char>>>::empty(),
{
    RecordSink { inner: csv::Writer::from_writer(Vec::new()) }
}

/// `csv::Writer::write_record`: the record is added after those already
/// there. The writer refuses a record for one of two reasons only. One is
/// a number of fields other than that of the first record; `requires`
/// leaves that out. The other is an error of the output it writes to, and
/// a vector of bytes reports none.
#[verifier::external_body]
pub(crate) fn sink_write(sink: &mut RecordSink, record: &Vec<String>) -> (written: Result<
    (),
    csv::Error,
>)
    requires
        fits(sink_records(*old(sink)), record.len() as nat),
    ensures
        written is Ok,
        sink_records(*final(sink)) == sink_records(*old(sink)).push(record.deep_view()),
{
    sink.inner.write_record(record)
}

/// `csv::Writer::into_inner`: the output is flushed and handed over, which
/// fails only on an error of the output, and a vector of bytes reports
/// none. What it holds depends on the records alone.
#[verifier::external_body]
pub(crate) fn close_sink(sink: RecordSink) -> (output: Option<Vec<u8>>)
    ensures
        output is Some,
        output matches Some(bytes) ==> bytes@ == csv_bytes(sink_records(sink)),
{
    sink.inner.into_inner().ok()
}

} // verus!
