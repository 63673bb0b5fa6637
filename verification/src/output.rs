//! The tables in which runs are given out as CSV.

use vstd::prelude::*;
use crate::decimal::{decimal_digits, format_u64};
use crate::text::same_text;
use crate::run::{supported, Reads, ReadsView, Run, RunView};
use crate::sink::fits;
use crate::writer::{CsvWriter, WriteError};

verus! {

/// The shapes in which the runs can be given out.
#[derive(Clone, Copy, Debug, PartialEq, Eq)]
pub enum OutputFormat {
    /// One JSON document that holds every run with its files.
    Json,
    /// A table with one row for each file.
    Csv,
    /// A table with one row for each run.
    CsvWide,
    /// A table with one row for each variable of each file.
    CsvLong,
}

/// The three tables.
#[derive(Clone, Copy, Debug, PartialEq, Eq, Structural)]
pub enum Table {
    /// One row for each file: accession, address, checksum, size.
    PerRead,
    /// One row for each run, with room for three files.
    Wide,
    /// One row for each variable of each file: accession, name, value.
    Long,
}

/// The place that a file takes in a run.
#[derive(Clone, Copy, Debug, PartialEq, Eq, Structural)]
pub enum Slot {
    /// The unpaired file.
    SingleEnd,
    /// The first file of the pair.
    First,
    /// The second file of the pair.
    Second,
}

/// Why a table was not written in full.
#[derive(Clone, Debug, PartialEq, Eq)]
pub enum OutputError {
    /// A run has a number of files that the table has no shape for.
    ReadCount { accession: String },
    /// The writer did not take a record.
    Write(WriteError),
}

/// The format that a name stands for: `json`, `csv`, `csv-wide` or
/// `csv-long`. No other name stands for one.
pub open spec fn format_named(name: Seq<char>) -> Option<OutputFormat> {
    if name == "json"@ {
        Some(OutputFormat::Json)
    } else if name == "csv"@ {
        Some(OutputFormat::Csv)
    } else if name == "csv-wide"@ {
        Some(OutputFormat::CsvWide)
    } else if name == "csv-long"@ {
        Some(OutputFormat::CsvLong)
    } else {
        None
    }
}

impl Default for OutputFormat {
    /// Where no format is asked for, the runs are given out as JSON.
    fn default() -> (format: OutputFormat)
        ensures
            format == OutputFormat::Json,
    {
        OutputFormat::Json
    }
}

impl OutputFormat {
    /// The table that the format stands for; JSON stands for none.
    pub open spec fn table_of(self) -> Option<Table> {
        match self {
            OutputFormat::Json => None,
            OutputFormat::Csv => Some(Table::PerRead),
            OutputFormat::CsvWide => Some(Table::Wide),
            OutputFormat::CsvLong => Some(Table::Long),
        }
    }

    /// The format that `name` stands for, if it stands for one.
    pub fn from_name(name: &str) -> (format: Option<OutputFormat>)
        ensures
            format == format_named(name@),
    {
        if same_text(name, "json") {
            Some(OutputFormat::Json)
        } else if same_text(name, "csv") {
            Some(OutputFormat::Csv)
        } else if same_text(name, "csv-wide") {
            Some(OutputFormat::CsvWide)
        } else if same_text(name, "csv-long") {
            Some(OutputFormat::CsvLong)
        } else {
            None
        }
    }

    /// The table that the format stands for; JSON stands for none.
    pub fn table(self) -> (table: Option<Table>)
        ensures
            table == self.table_of(),
    {
        match self {
            OutputFormat::Json => None,
            OutputFormat::Csv => Some(Table::PerRead),
            OutputFormat::CsvWide => Some(Table::Wide),
            OutputFormat::CsvLong => Some(Table::Long),
        }
    }
}

impl OutputError {
    /// What is said of a run whose number of files has no shape.
    pub open spec fn read_count_text(accession: Seq<char>) -> Seq<char> {
        "Found too many or too few reads for "@ + accession
    }

    /// What is said of a record that the writer did not take.
    pub open spec fn width_text(expected: nat, found: nat) -> Seq<char> {
        "Found a record of "@ + decimal_digits(found) + " fields where records have "@
            + decimal_digits(expected)
    }

    /// The error in words.
    pub open spec fn text(self) -> Seq<char> {
        match self {
            OutputError::ReadCount { accession } => Self::read_count_text(accession@),
            OutputError::Write(WriteError::UnequalLengths { expected, found }) => Self::width_text(
                expected as nat,
                found as nat,
            ),
            OutputError::Write(WriteError::Encoder) => "The records could not be encoded"@,
        }
    }

    /// The error in words.
    pub fn message(&self) -> (message: String)
        ensures
            message@ == self.text(),
    {
        match self {
            OutputError::ReadCount { accession } => {
                let mut message = String::from_str("Found too many or too few reads for ");
                message.append(accession.as_str());
                message
            },
            OutputError::Write(WriteError::UnequalLengths { expected, found }) => {
                let mut message = String::from_str("Found a record of ");
                message.append(format_u64(*found as u64).as_str());
                message.append(" fields where records have ");
                message.append(format_u64(*expected as u64).as_str());
                message
            },
            OutputError::Write(WriteError::Encoder) => String::from_str(
                "The records could not be encoded",
            ),
        }
    }

    /// Whether the error says that the writer, whose first record is that
    /// of `records`, did not take a record of `found` fields.
    pub open spec fn is_misfit(self, records: Seq<Seq<Seq<char>>>, found: nat) -> bool {
        self matches OutputError::Write(e) && e.is_misfit(records, found)
    }
}

impl Slot {
    /// The name under which the long table gives the address of the file
    /// in this place.
    pub open spec fn url_name(self) -> Seq<char> {
        match self {
            Slot::SingleEnd => "url_se"@,
            Slot::First => "url_1"@,
            Slot::Second => "url_2"@,
        }
    }

    /// The name under which the long table gives the checksum of the file
    /// in this place.
    pub open spec fn md5_name(self) -> Seq<char> {
        match self {
            Slot::SingleEnd => "md5_se"@,
            Slot::First => "md5_1"@,
            Slot::Second => "md5_2"@,
        }
    }

    /// The name under which the long table gives the size of the file in
    /// this place.
    pub open spec fn bytes_name(self) -> Seq<char> {
        match self {
            Slot::SingleEnd => "bytes_se"@,
            Slot::First => "bytes_1"@,
            Slot::Second => "bytes_2"@,
        }
    }
}

/// The three fields that describe a file: address, checksum, size in
/// decimal.
pub open spec fn fields_of(read: ReadsView) -> Seq<Seq<char>> {
    seq![read.url, read.md5, decimal_digits(read.bytes as nat)]
}

/// The three empty fields that stand where a run has no file.
pub open spec fn blank_fields() -> Seq<Seq<char>> {
    seq![Seq::<char>::empty(), Seq::<char>::empty(), Seq::<char>::empty()]
}

/// The rows of the table of files for one run: one for each file, in the
/// run's order, each led by the run's accession.
pub open spec fn per_read_rows(run: RunView) -> Seq<Seq<Seq<char>>> {
    Seq::new(run.reads.len(), |i: int| seq![run.accession] + fields_of(run.reads[i]))
}

/// The row of the wide table for one run: the accession, then the unpaired
/// file, then the pair. A run of one file fills the first place, and only
/// where single-end files are kept; a run of two fills the places of the
/// pair; a run of three fills all. No other run has a row.
pub open spec fn wide_row(run: RunView, keep_single_end: bool) -> Option<Seq<Seq<char>>> {
    let head = seq![run.accession];
    if run.reads.len() == 1 && keep_single_end {
        Some(head + fields_of(run.reads[0]) + blank_fields() + blank_fields())
    } else if run.reads.len() == 2 {
        Some(head + blank_fields() + fields_of(run.reads[0]) + fields_of(run.reads[1]))
    } else if run.reads.len() == 3 {
        Some(head + fields_of(run.reads[0]) + fields_of(run.reads[1]) + fields_of(run.reads[2]))
    } else {
        None
    }
}

/// The three rows of the long table for one file: its address, its
/// checksum and its size, each led by the run's accession and named after
/// the file's place.
pub open spec fn long_rows_of(accession: Seq<char>, read: ReadsView, slot: Slot) -> Seq<
    Seq<Seq<char>>,
> {
    seq![
        seq![accession, slot.url_name(), read.url],
        seq![accession, slot.md5_name(), read.md5],
        seq![accession, slot.bytes_name(), decimal_digits(read.bytes as nat)],
    ]
}

/// The rows of the long table for one run: three for each file, the
/// unpaired file first, then the pair in its order. Only a run of one, two
/// or three files has rows.
pub open spec fn long_rows(run: RunView) -> Option<Seq<Seq<Seq<char>>>> {
    let name = run.accession;
    if run.reads.len() == 1 {
        Some(long_rows_of(name, run.reads[0], Slot::SingleEnd))
    } else if run.reads.len() == 2 {
        Some(
            long_rows_of(name, run.reads[0], Slot::First) + long_rows_of(
                name,
                run.reads[1],
                Slot::Second,
            ),
        )
    } else if run.reads.len() == 3 {
        Some(
            long_rows_of(name, run.reads[0], Slot::SingleEnd) + long_rows_of(
                name,
                run.reads[1],
                Slot::First,
            ) + long_rows_of(name, run.reads[2], Slot::Second),
        )
    } else {
        None
    }
}

impl Table {
    /// The number of fields of every record of the table.
    pub open spec fn width(self) -> nat {
        match self {
            Table::PerRead => 4,
            Table::Wide => 10,
            Table::Long => 3,
        }
    }

    /// The first record of the table, which names its columns.
    pub open spec fn header(self) -> Seq<Seq<char>> {
        match self {
            Table::PerRead => seq!["accession"@, "url"@, "md5"@, "bytes"@],
            Table::Wide => seq![
                "accession"@,
                "url_se"@,
                "md5_se"@,
                "bytes_1"@,
                "url_1"@,
                "md5_1"@,
                "bytes_se"@,
                "url_2"@,
                "md5_2"@,
                "bytes_2"@,
            ],
            Table::Long => seq!["accession"@, "variable"@, "value"@],
        }
    }

    /// The rows that the table holds for one run, or none where it has no
    /// shape for the run's number of files.
    pub open spec fn rows(self, run: RunView, keep_single_end: bool) -> Option<
        Seq<Seq<Seq<char>>>,
    > {
        match self {
            Table::PerRead => Some(per_read_rows(run)),
            Table::Wide => match wide_row(run, keep_single_end) {
                Some(row) => Some(seq![row]),
                None => None,
            },
            Table::Long => long_rows(run),
        }
    }

    /// The rows that the table holds for a list of runs, run after run.
    /// A run without a shape adds nothing.
    pub open spec fn body(self, runs: Seq<RunView>, keep_single_end: bool) -> Seq<
        Seq<Seq<char>>,
    >
        decreases runs.len(),
    {
        if runs.len() == 0 {
            Seq::<Seq<Seq<char>>>::empty()
        } else {
            self.body(runs.drop_last(), keep_single_end) + match self.rows(
                runs.last(),
                keep_single_end,
            ) {
                Some(rows) => rows,
                None => Seq::<Seq<Seq<char>>>::empty(),
            }
        }
    }

    /// The whole table for a list of runs: the header once, then the rows.
    pub open spec fn document(self, runs: Seq<RunView>, keep_single_end: bool) -> Seq<
        Seq<Seq<char>>,
    > {
        seq![self.header()] + self.body(runs, keep_single_end)
    }

    /// Whether `k` is the place of the first run for which the table has no
    /// shape.
    pub open spec fn first_misfit(self, runs: Seq<RunView>, keep_single_end: bool, k: int) -> bool {
        &&& 0 <= k < runs.len()
        &&& self.rows(runs[k], keep_single_end) is None
        &&& forall|j: int| 0 <= j < k ==> (#[trigger] self.rows(runs[j], keep_single_end)) is Some
    }

    /// Whether the table has a shape for every run of the list.
    pub open spec fn fits_all(self, runs: Seq<RunView>, keep_single_end: bool) -> bool {
        forall|j: int|
            0 <= j < runs.len() ==> (#[trigger] self.rows(runs[j], keep_single_end)) is Some
    }

    /// What comes of writing the table for `runs` to a writer that holds
    /// the records `before`: the outcome `done`, and the records `after`.
    ///
    /// A writer whose records have another width than the table takes
    /// nothing and says so. Otherwise the header is written, then the rows
    /// of each run in turn. Where the table has a shape for every run, that
    /// is the whole table, and the writing succeeds. Where it has not, the
    /// first run without a shape ends the writing: the rows of the runs
    /// before it stand, none of its own do, and the error names its
    /// accession.
    pub open spec fn written(
        self,
        before: Seq<Seq<Seq<char>>>,
        runs: Seq<RunView>,
        keep_single_end: bool,
        done: Result<(), OutputError>,
        after: Seq<Seq<Seq<char>>>,
    ) -> bool {
        if !fits(before, self.width()) {
            &&& done matches Err(e)
            &&& e.is_misfit(before, self.width())
            &&& after == before
        } else if self.fits_all(runs, keep_single_end) {
            &&& done is Ok
            &&& after == before + self.document(runs, keep_single_end)
        } else {
            exists|k: int|
                {
                    &&& #[trigger] self.first_misfit(runs, keep_single_end, k)
                    &&& done matches Err(OutputError::ReadCount { accession })
                    &&& accession@ == runs[k].accession
                    &&& after == before + self.document(runs.take(k), keep_single_end)
                }
        }
    }
}

/// The header of a table has the table's number of fields.
pub proof fn lemma_header_width(table: Table)
    ensures
        table.header().len() == table.width(),
{
}

/// Each row that a table has for a run has the table's number of fields.
pub proof fn lemma_rows_width(table: Table, run: RunView, keep_single_end: bool)
    ensures
        table.rows(run, keep_single_end) matches Some(rows) ==> forall|i: int|
            0 <= i < rows.len() ==> (#[trigger] rows[i]).len() == table.width(),
{
}

/// A run of three files has nine rows in the long table, and in general a
/// run has three rows for each of its files; each row has three fields, the
/// first of which is the run's accession.
pub proof fn lemma_long_rows_count(run: RunView)
    requires
        supported(run),
    ensures
        long_rows(run) matches Some(rows) && rows.len() == 3 * run.reads.len() && forall|i: int|
            0 <= i < rows.len() ==> (#[trigger] rows[i]).len() == 3 && rows[i][0]
                == run.accession,
{
}

/// A run of one file has one row in the table of files: the accession, then
/// the file's address, its checksum and its size in decimal.
pub proof fn lemma_per_read_rows_of_one(run: RunView)
    requires
        run.reads.len() == 1,
    ensures
        per_read_rows(run) == seq![
            seq![
                run.accession,
                run.reads[0].url,
                run.reads[0].md5,
                decimal_digits(run.reads[0].bytes as nat),
            ],
        ],
{
    let row = seq![run.accession] + fields_of(run.reads[0]);
    assert(row == seq![
        run.accession,
        run.reads[0].url,
        run.reads[0].md5,
        decimal_digits(run.reads[0].bytes as nat),
    ]);
}

/// A run of two files has a wide row whether single-end files are kept or
/// not: the accession, three empty fields where the unpaired file would
/// stand, then address, checksum and size of the first file and of the
/// second.
pub proof fn lemma_wide_row_of_pair(run: RunView, keep_single_end: bool)
    requires
        run.reads.len() == 2,
    ensures
        wide_row(run, keep_single_end) == Some(
            seq![
                run.accession,
                Seq::<char>::empty(),
                Seq::<char>::empty(),
                Seq::<char>::empty(),
                run.reads[0].url,
                run.reads[0].md5,
                decimal_digits(run.reads[0].bytes as nat),
                run.reads[1].url,
                run.reads[1].md5,
                decimal_digits(run.reads[1].bytes as nat),
            ],
        ),
{
    let row = seq![run.accession] + blank_fields() + fields_of(run.reads[0]) + fields_of(
        run.reads[1],
    );
    assert(row == seq![
        run.accession,
        Seq::<char>::empty(),
        Seq::<char>::empty(),
        Seq::<char>::empty(),
        run.reads[0].url,
        run.reads[0].md5,
        decimal_digits(run.reads[0].bytes as nat),
        run.reads[1].url,
        run.reads[1].md5,
        decimal_digits(run.reads[1].bytes as nat),
    ]);
}

/// The wide table has a row for a run exactly when the run has two or three
/// files, or one file while single-end files are kept; the long table
/// exactly when it has one, two or three.
pub proof fn lemma_shapes(run: RunView, keep_single_end: bool)
    ensures
        Table::PerRead.rows(run, keep_single_end) is Some,
        Table::Wide.rows(run, keep_single_end) is Some <==> (run.reads.len() == 2
            || run.reads.len() == 3 || (run.reads.len() == 1 && keep_single_end)),
        Table::Long.rows(run, keep_single_end) is Some <==> supported(run),
{
}

/// A run of no files, or of more than three, has a place in neither the
/// wide nor the long table, whether single-end files are kept or not.
pub proof fn lemma_unsupported_run_has_no_shape(run: RunView, keep_single_end: bool)
    requires
        !supported(run),
    ensures
        Table::Wide.rows(run, keep_single_end) is None,
        Table::Long.rows(run, keep_single_end) is None,
{
}

/// Where `k` is the place of the first run without a shape, writing the
/// table to a writer of its width fails with that run's accession, and
/// what is written is the header and the rows of the runs before `k`:
/// nothing of the run at `k` or of any run behind it.
pub proof fn lemma_written_up_to_misfit(
    table: Table,
    before: Seq<Seq<Seq<char>>>,
    runs: Seq<RunView>,
    keep_single_end: bool,
    done: Result<(), OutputError>,
    after: Seq<Seq<Seq<char>>>,
    k: int,
)
    requires
        fits(before, table.width()),
        table.written(before, runs, keep_single_end, done, after),
        table.first_misfit(runs, keep_single_end, k),
    ensures
        done matches Err(OutputError::ReadCount { accession }) && accession@ == runs[k].accession,
        after == before + table.document(runs.take(k), keep_single_end),
{
    let m = choose|m: int|
        {
            &&& #[trigger] table.first_misfit(runs, keep_single_end, m)
            &&& done matches Err(OutputError::ReadCount { accession })
            &&& accession@ == runs[m].accession
            &&& after == before + table.document(runs.take(m), keep_single_end)
        };
    lemma_first_misfit_is_unique(table, runs, keep_single_end, k, m);
}

/// A list of runs has at most one first run without a shape.
pub proof fn lemma_first_misfit_is_unique(
    table: Table,
    runs: Seq<RunView>,
    keep_single_end: bool,
    k: int,
    m: int,
)
    requires
        table.first_misfit(runs, keep_single_end, k),
        table.first_misfit(runs, keep_single_end, m),
    ensures
        k == m,
{
}

/// Adds the field `text` to the record.
fn push_text(record: &mut Vec<String>, text: &str)
    ensures
        final(record).deep_view() == old(record).deep_view().push(text@),
{
    record.push(String::from_str(text));
}

/// Adds the three fields of a file to the record.
fn push_fields(record: &mut Vec<String>, read: &Reads)
    ensures
        final(record).deep_view() == old(record).deep_view() + fields_of(read@),
{
    push_text(record, read.url.as_str());
    push_text(record, read.md5.as_str());
    let size = format_u64(read.bytes);
    push_text(record, size.as_str());
}

/// Adds three empty fields to the record.
fn push_blank(record: &mut Vec<String>)
    ensures
        final(record).deep_view() == old(record).deep_view() + blank_fields(),
{
    proof {
        reveal_strlit("");
    }
    push_text(record, "");
    push_text(record, "");
    push_text(record, "");
    assert(""@ == Seq::<char>::empty());
}

/// A record that so far holds the accession only.
fn start_record(accession: &String) -> (record: Vec<String>)
    ensures
        record.deep_view() == seq![accession@],
{
    let mut record: Vec<String> = Vec::new();
    push_text(&mut record, accession.as_str());
    record
}

/// The rows of the table of files for one run.
pub fn per_read_records(run: &Run) -> (records: Vec<Vec<String>>)
    ensures
        records.deep_view() == per_read_rows(run@),
{
    let mut records: Vec<Vec<String>> = Vec::new();
    let mut i: usize = 0;
    while i < run.reads.len()
        invariant
            i <= run.reads.len(),
            records.len() == i,
            forall|k: int|
                0 <= k < i ==> (#[trigger] records[k]).deep_view() == seq![run.accession@]
                    + fields_of(run.reads[k]@),
        decreases run.reads.len() - i,
    {
        let mut record = start_record(&run.accession);
        push_fields(&mut record, &run.reads[i]);
        records.push(record);
        i += 1;
    }
    records
}

/// The row of the wide table for one run, if it has one.
pub fn wide_record(run: &Run, keep_single_end: bool) -> (record: Option<Vec<String>>)
    ensures
        record.deep_view() == wide_row(run@, keep_single_end),
{
    let count = run.reads.len();
    if count == 1 && keep_single_end {
        let mut record = start_record(&run.accession);
        push_fields(&mut record, &run.reads[0]);
        push_blank(&mut record);
        push_blank(&mut record);
        Some(record)
    } else if count == 2 {
        let mut record = start_record(&run.accession);
        push_blank(&mut record);
        push_fields(&mut record, &run.reads[0]);
        push_fields(&mut record, &run.reads[1]);
        Some(record)
    } else if count == 3 {
        let mut record = start_record(&run.accession);
        push_fields(&mut record, &run.reads[0]);
        push_fields(&mut record, &run.reads[1]);
        push_fields(&mut record, &run.reads[2]);
        Some(record)
    } else {
        None
    }
}

/// Adds the three rows of the long table for one file.
fn push_long_records(records: &mut Vec<Vec<String>>, accession: &String, read: &Reads, slot: Slot)
    ensures
        final(records).deep_view() == old(records).deep_view() + long_rows_of(
            accession@,
            read@,
            slot,
        ),
{
    let mut url = start_record(accession);
    let mut md5 = start_record(accession);
    let mut bytes = start_record(accession);
    match slot {
        Slot::SingleEnd => {
            push_text(&mut url, "url_se");
            push_text(&mut md5, "md5_se");
            push_text(&mut bytes, "bytes_se");
        },
        Slot::First => {
            push_text(&mut url, "url_1");
            push_text(&mut md5, "md5_1");
            push_text(&mut bytes, "bytes_1");
        },
        Slot::Second => {
            push_text(&mut url, "url_2");
            push_text(&mut md5, "md5_2");
            push_text(&mut bytes, "bytes_2");
        },
    }
    push_text(&mut url, read.url.as_str());
    push_text(&mut md5, read.md5.as_str());
    let size = format_u64(read.bytes);
    push_text(&mut bytes, size.as_str());
    assert(url.deep_view() == seq![accession@, slot.url_name(), read@.url]);
    assert(md5.deep_view() == seq![accession@, slot.md5_name(), read@.md5]);
    assert(bytes.deep_view() == seq![
        accession@,
        slot.bytes_name(),
        decimal_digits(read.bytes as nat),
    ]);
    records.push(url);
    records.push(md5);
    records.push(bytes);
    assert(records.deep_view() == old(records).deep_view() + long_rows_of(
        accession@,
        read@,
        slot,
    ));
}

/// The rows of the long table for one run, if it has any.
pub fn long_records(run: &Run) -> (records: Option<Vec<Vec<String>>>)
    ensures
        records.deep_view() == long_rows(run@),
{
    let count = run.reads.len();
    let mut records: Vec<Vec<String>> = Vec::new();
    if count == 1 {
        push_long_records(&mut records, &run.accession, &run.reads[0], Slot::SingleEnd);
    } else if count == 2 {
        push_long_records(&mut records, &run.accession, &run.reads[0], Slot::First);
        push_long_records(&mut records, &run.accession, &run.reads[1], Slot::Second);
    } else if count == 3 {
        push_long_records(&mut records, &run.accession, &run.reads[0], Slot::SingleEnd);
        push_long_records(&mut records, &run.accession, &run.reads[1], Slot::First);
        push_long_records(&mut records, &run.accession, &run.reads[2], Slot::Second);
    } else {
        return None;
    }
    Some(records)
}

impl Table {
    /// The table's header, as a record.
    pub fn header_record(self) -> (record: Vec<String>)
        ensures
            record.deep_view() == self.header(),
    {
        let mut record: Vec<String> = Vec::new();
        push_text(&mut record, "accession");
        match self {
            Table::PerRead => {
                push_text(&mut record, "url");
                push_text(&mut record, "md5");
                push_text(&mut record, "bytes");
            },
            Table::Wide => {
                push_text(&mut record, "url_se");
                push_text(&mut record, "md5_se");
                push_text(&mut record, "bytes_1");
                push_text(&mut record, "url_1");
                push_text(&mut record, "md5_1");
                push_text(&mut record, "bytes_se");
                push_text(&mut record, "url_2");
                push_text(&mut record, "md5_2");
                push_text(&mut record, "bytes_2");
            },
            Table::Long => {
                push_text(&mut record, "variable");
                push_text(&mut record, "value");
            },
        }
        record
    }

    /// The rows that the table holds for one run, as records; none where
    /// the table has no shape for the run.
    pub fn records(self, run: &Run, keep_single_end: bool) -> (records: Option<Vec<Vec<String>>>)
        ensures
            records.deep_view() == self.rows(run@, keep_single_end),
    {
        match self {
            Table::PerRead => Some(per_read_records(run)),
            Table::Wide => match wide_record(run, keep_single_end) {
                Some(record) => {
                    let mut records: Vec<Vec<String>> = Vec::new();
                    records.push(record);
                    Some(records)
                },
                None => None,
            },
            Table::Long => long_records(run),
        }
    }
}

/// The rows of the leading runs are the start of the rows of all runs: a
/// table grows run by run.
pub proof fn lemma_body_step(table: Table, runs: Seq<RunView>, keep_single_end: bool, k: int)
    requires
        0 <= k < runs.len(),
    ensures
        table.body(runs.take(k + 1), keep_single_end) == table.body(
            runs.take(k),
            keep_single_end,
        ) + match table.rows(runs[k], keep_single_end) {
            Some(rows) => rows,
            None => Seq::<Seq<Seq<char>>>::empty(),
        },
{
    assert(runs.take(k + 1).drop_last() == runs.take(k));
}

/// Writes records of one width to a writer whose records have that width.
fn write_records(wtr: &mut CsvWriter, records: Vec<Vec<String>>, Ghost(width): Ghost<nat>) -> (written:
    Result<(), WriteError>)
    requires
        old(wtr).records().len() > 0,
        old(wtr).records()[0].len() == width,
        forall|i: int| 0 <= i < records.len() ==> (#[trigger] records[i]).len() == width,
    ensures
        written is Ok,
        final(wtr).records() == old(wtr).records() + records.deep_view(),
{
    let ghost start = wtr.records();
    let ghost all = records.deep_view();
    for record in it: records
        invariant
            it.seq() == records@,
            all == records.deep_view(),
            start.len() > 0,
            start[0].len() == width,
            forall|i: int| 0 <= i < records.len() ==> (#[trigger] records[i]).len() == width,
            wtr.records() == start + all.take(it.index() as int),
    {
        match wtr.write_record(record) {
            Ok(()) => {},
            Err(e) => {
                return Err(e);
            },
        }
    }
    Ok(())
}

/// Writes a table for `runs` to `wtr`: the header once, then the rows of
/// each run in the order of the list, as far as the table has a shape for
/// the runs.
pub fn print_table(wtr: &mut CsvWriter, runs: Vec<Run>, table: Table, keep_single_end: bool) -> (done:
    Result<(), OutputError>)
    ensures
        table.written(
            old(wtr).records(),
            runs.deep_view(),
            keep_single_end,
            done,
            final(wtr).records(),
        ),
{
    let ghost base = wtr.records();
    let ghost all = runs.deep_view();
    proof {
        lemma_header_width(table);
    }
    let header = table.header_record();
    match wtr.write_record(header) {
        Ok(()) => {},
        Err(e) => {
            return Err(OutputError::Write(e));
        },
    }
    let mut i: usize = 0;
    while i < runs.len()
        invariant
            i <= runs.len(),
            all == runs.deep_view(),
            base == old(wtr).records(),
            fits(base, table.width()),
            wtr.records() == base + table.document(all.take(i as int), keep_single_end),
            forall|j: int| 0 <= j < i ==> (#[trigger] table.rows(all[j], keep_single_end)) is Some,
        decreases runs.len() - i,
    {
        proof {
            lemma_body_step(table, all, keep_single_end, i as int);
            lemma_rows_width(table, all[i as int], keep_single_end);
        }
        match table.records(&runs[i], keep_single_end) {
            None => {
                assert(table.first_misfit(all, keep_single_end, i as int));
                return Err(OutputError::ReadCount { accession: runs[i].accession.clone() });
            },
            Some(records) => {
                assert forall|j: int| 0 <= j < records.len() implies (#[trigger] records[j]).len()
                    == table.width() by {
                    assert(records.deep_view()[j].len() == records[j].len());
                }
                match write_records(wtr, records, Ghost(table.width())) {
                    Ok(()) => {},
                    Err(e) => {
                        return Err(OutputError::Write(e));
                    },
                }
                assert(wtr.records() == base + table.document(
                    all.take(i + 1),
                    keep_single_end,
                ));
            },
        }
        i += 1;
    }
    assert(all.take(i as int) == all);
    Ok(())
}

/// Writes the table with one row for each file: the header
/// `accession,url,md5,bytes` once, then for each run a row for each of its
/// files. This table has a shape for every run.
pub fn print_csv(wtr: &mut CsvWriter, runs: Vec<Run>) -> (done: Result<(), OutputError>)
    ensures
        Table::PerRead.written(
            old(wtr).records(),
            runs.deep_view(),
            true,
            done,
            final(wtr).records(),
        ),
        done is Ok <==> fits(old(wtr).records(), 4),
{
    print_table(wtr, runs, Table::PerRead, true)
}

/// Writes the table with one row for each run, which has ten columns: the
/// accession, then address, checksum and size of the unpaired file and of
/// the two files of the pair. A run of two files leaves the first three of
/// these empty; a run of one file leaves the last six empty, and has a row
/// only where single-end files are kept. A run of no files, or of more than
/// three, ends the writing.
pub fn print_csv_wide(wtr: &mut CsvWriter, runs: Vec<Run>, keep_single_end: bool) -> (done: Result<
    (),
    OutputError,
>)
    ensures
        Table::Wide.written(
            old(wtr).records(),
            runs.deep_view(),
            keep_single_end,
            done,
            final(wtr).records(),
        ),
{
    print_table(wtr, runs, Table::Wide, keep_single_end)
}

/// Writes the table with one row for each variable of each file, which has
/// three columns: accession, name and value. A run of one, two or three
/// files has three, six or nine rows; any other run ends the writing.
pub fn print_csv_long(wtr: &mut CsvWriter, runs: Vec<Run>) -> (done: Result<(), OutputError>)
    ensures
        Table::Long.written(old(wtr).records(), runs.deep_view(), true, done, final(wtr).records()),
{
    print_table(wtr, runs, Table::Long, true)
}

} // verus!
