//! Runs and their files, as the service describes them.

use vstd::prelude::*;
use crate::decimal::{all_digits, decimal_value, parse_u64, parsed_u64, unsigned_part};
use crate::split::{lemma_split_fields, split, split_on};

verus! {

/// One entry of the service's answer to a query: the run's accession and,
/// for each of three kinds of file, the addresses, sizes and checksums as
/// lists joined by semicolons.
#[derive(Clone, Debug)]
pub struct ENAApiResponse {
    pub run_accession: String,
    pub fastq_ftp: String,
    pub fastq_bytes: String,
    pub fastq_md5: String,
    pub submitted_ftp: String,
    pub submitted_md5: String,
    pub submitted_bytes: String,
    pub sra_ftp: String,
    pub sra_bytes: String,
    pub sra_md5: String,
}

/// One downloadable file of a run.
#[derive(Clone, Debug, PartialEq)]
pub struct Reads {
    pub url: String,
    pub md5: String,
    pub bytes: u64,
}

/// A run: its accession and its files, in the order the service lists them.
/// A run of one file is single-end, of two paired-end; in a run of three the
/// first file is the unpaired one and the other two are the pair.
#[derive(Clone, Debug)]
pub struct Run {
    pub accession: String,
    pub reads: Vec<Reads>,
}

/// What a `Reads` holds, as plain values.
pub struct ReadsView {
    pub url: Seq<char>,
    pub md5: Seq<char>,
    pub bytes: u64,
}

/// What a `Run` holds, as plain values.
pub struct RunView {
    pub accession: Seq<char>,
    pub reads: Seq<ReadsView>,
}

impl View for Reads {
    type V = ReadsView;

    open spec fn view(&self) -> ReadsView {
        ReadsView { url: self.url@, md5: self.md5@, bytes: self.bytes }
    }
}

impl DeepView for Reads {
    type V = ReadsView;

    open spec fn deep_view(&self) -> ReadsView {
        self@
    }
}

impl View for Run {
    type V = RunView;

    open spec fn view(&self) -> RunView {
        RunView { accession: self.accession@, reads: self.reads.deep_view() }
    }
}

impl DeepView for Run {
    type V = RunView;

    open spec fn deep_view(&self) -> RunView {
        self@
    }
}

/// The separator of the service's list fields.
pub const LIST_SEPARATOR: char = ';';

/// The scheme that every file address is given: `ftp://`.
pub open spec fn ftp_scheme() -> Seq<char> {
    seq!['f', 't', 'p', ':', '/', '/']
}

/// The number of bytes that a size field states: the value of its decimal
/// numeral. Zero where the field is no numeral, or states a number too
/// large for 64 bits.
pub open spec fn size_of(field: Seq<char>) -> u64 {
    match parsed_u64(field) {
        Some(n) => n,
        None => 0,
    }
}

/// The file made from one address, one size field and one checksum.
pub open spec fn read_of(address: Seq<char>, size: Seq<char>, sum: Seq<char>) -> ReadsView {
    ReadsView { url: ftp_scheme() + address, md5: sum, bytes: size_of(size) }
}

/// The files made from three lists of equal length, entry by entry.
pub open spec fn reads_of(
    addresses: Seq<Seq<char>>,
    sizes: Seq<Seq<char>>,
    sums: Seq<Seq<char>>,
) -> Seq<ReadsView> {
    Seq::new(addresses.len(), |i: int| read_of(addresses[i], sizes[i], sums[i]))
}

impl ENAApiResponse {
    /// The entries of the list of FASTQ addresses.
    pub open spec fn addresses(&self) -> Seq<Seq<char>> {
        split(self.fastq_ftp@, LIST_SEPARATOR)
    }

    /// The entries of the list of FASTQ sizes.
    pub open spec fn sizes(&self) -> Seq<Seq<char>> {
        split(self.fastq_bytes@, LIST_SEPARATOR)
    }

    /// The entries of the list of FASTQ checksums.
    pub open spec fn sums(&self) -> Seq<Seq<char>> {
        split(self.fastq_md5@, LIST_SEPARATOR)
    }

    /// Whether the three FASTQ lists have the same number of entries.
    pub open spec fn aligned(&self) -> bool {
        self.addresses().len() == self.sizes().len() == self.sums().len()
    }

    /// The run that this entry describes: one file for each entry of the
    /// FASTQ lists, in their order, however many there are.
    pub open spec fn run(&self) -> RunView {
        RunView {
            accession: self.run_accession@,
            reads: reads_of(self.addresses(), self.sizes(), self.sums()),
        }
    }

    /// The size fields that are no numeral, or state a number too large for
    /// 64 bits, in the order of the list. Each of them stands for a file
    /// whose size is recorded as zero.
    pub open spec fn unreadable_sizes(&self) -> Seq<Seq<char>> {
        self.sizes().filter(|field: Seq<char>| parsed_u64(field) is None)
    }

    /// Lists the size fields from which no size can be read.
    pub fn find_unreadable_sizes(&self) -> (fields: Vec<String>)
        ensures
            fields.deep_view() == self.unreadable_sizes(),
    {
        let sizes = split_on(self.fastq_bytes.as_str(), LIST_SEPARATOR);
        let ghost unreadable = |field: Seq<char>| parsed_u64(field) is None;
        let mut fields: Vec<String> = Vec::new();
        let mut i: usize = 0;
        while i < sizes.len()
            invariant
                i <= sizes.len(),
                unreadable == |field: Seq<char>| parsed_u64(field) is None,
                fields.deep_view() == sizes.deep_view().take(i as int).filter(unreadable),
            decreases sizes.len() - i,
        {
            proof {
                let seen = sizes.deep_view().take(i as int);
                let one = seq![sizes[i as int]@];
                assert(sizes.deep_view().take(i + 1) == seen + one);
                Seq::filter_distributes_over_add(seen, one, unreadable);
                reveal_with_fuel(Seq::filter, 2);
            }
            if parse_u64(sizes[i].as_str()).is_none() {
                fields.push(sizes[i].clone());
            }
            i += 1;
        }
        assert(sizes.deep_view().take(i as int) == sizes.deep_view());
        fields
    }
}

/// A size field of decimal digits, with or without one plus sign before
/// them, states the value of those digits, as long as it fits in 64 bits.
/// Any other field states zero.
pub proof fn lemma_size_of(field: Seq<char>)
    ensures
        ({
            let digits = unsigned_part(field);
            if digits.len() > 0 && all_digits(digits) && decimal_value(digits) <= u64::MAX {
                size_of(field) == decimal_value(digits)
            } else {
                size_of(field) == 0
            }
        }),
{
}

/// The run that an entry describes has the entry's accession and as many
/// files as the list of addresses has entries, which is at least one.
pub proof fn lemma_run_has_files(response: ENAApiResponse)
    ensures
        response.run().accession == response.run_accession@,
        response.run().reads.len() == response.addresses().len(),
        response.run().reads.len() >= 1,
{
    lemma_split_fields(response.fastq_ftp@, LIST_SEPARATOR);
}

/// The files of the run that an entry describes stand in the order of the
/// lists: the file at `i` has the address at `i` behind the `ftp://`
/// scheme, the checksum at `i`, and the size that the size field at `i`
/// states.
pub proof fn lemma_run_file(response: ENAApiResponse, i: int)
    requires
        0 <= i < response.addresses().len(),
    ensures
        response.run().reads[i].url == ftp_scheme() + response.addresses()[i],
        response.run().reads[i].md5 == response.sums()[i],
        response.run().reads[i].bytes == size_of(response.sizes()[i]),
{
}

/// Whether the run has one, two or three files: the shapes that the
/// service is known to give.
pub open spec fn supported(run: RunView) -> bool {
    1 <= run.reads.len() <= 3
}

/// The run without its unpaired file: a run of three files loses the first
/// and keeps the pair in its order; any other run is left as it is.
pub open spec fn without_single_end(run: RunView) -> RunView {
    if run.reads.len() == 3 {
        RunView { accession: run.accession, reads: run.reads.skip(1) }
    } else {
        run
    }
}

/// The run as it is presented: as it is where single-end files are kept,
/// without its unpaired file where they are not.
pub open spec fn normalized(run: RunView, keep_single_end: bool) -> RunView {
    if keep_single_end {
        run
    } else {
        without_single_end(run)
    }
}

/// A run of three files is left with exactly its second and third file, in
/// that order; a run of one or two files is unchanged.
pub proof fn lemma_without_single_end(run: RunView)
    ensures
        run.reads.len() == 3 ==> {
            &&& without_single_end(run).accession == run.accession
            &&& without_single_end(run).reads.len() == 2
            &&& without_single_end(run).reads[0] == run.reads[1]
            &&& without_single_end(run).reads[1] == run.reads[2]
        },
        run.reads.len() == 1 || run.reads.len() == 2 ==> without_single_end(run) == run,
{
}

/// Normalising twice is normalising once.
pub proof fn lemma_normalized_idempotent(run: RunView, keep_single_end: bool)
    ensures
        normalized(normalized(run, keep_single_end), keep_single_end) == normalized(
            run,
            keep_single_end,
        ),
{
}

/// Normalising keeps a run of one, two or three files within those shapes,
/// and without single-end files no run of three is left.
pub proof fn lemma_normalized_shape(run: RunView, keep_single_end: bool)
    requires
        supported(run),
    ensures
        supported(normalized(run, keep_single_end)),
        !keep_single_end ==> normalized(run, keep_single_end).reads.len() <= 2,
{
}

impl Run {
    /// Drops the unpaired file of a run that has a pair as well: a run of
    /// three files loses its first, any other run is left as it is.
    pub fn clean_single_end(&mut self)
        ensures
            final(self).accession == old(self).accession,
            old(self).reads.len() == 3 ==> final(self).reads@ == old(self).reads@.skip(1),
            old(self).reads.len() != 3 ==> final(self).reads@ == old(self).reads@,
            final(self)@ == without_single_end(old(self)@),
    {
        if self.reads.len() == 3 {
            self.reads.remove(0);
            assert(self.reads.deep_view() == old(self).reads.deep_view().skip(1));
        }
    }

    /// Brings the run to the shape in which it is presented: with
    /// `keep_single_end` it is left as it is, without it the unpaired file
    /// of a run of three is dropped.
    pub fn normalize(&mut self, keep_single_end: bool)
        ensures
            final(self).accession == old(self).accession,
            !keep_single_end && old(self).reads.len() == 3 ==> final(self).reads@ == old(
                self,
            ).reads@.skip(1),
            keep_single_end || old(self).reads.len() != 3 ==> final(self).reads@ == old(
                self,
            ).reads@,
            final(self)@ == normalized(old(self)@, keep_single_end),
    {
        if !keep_single_end {
            self.clean_single_end();
        }
    }

    /// Builds the run that one entry of the service's answer describes.
    /// Each address is given the `ftp://` scheme; each size is the number
    /// that its field states, and zero where the field states none. The
    /// entry's three FASTQ lists must be of one length.
    pub fn from_response(response: ENAApiResponse) -> (run: Run)
        requires
            response.aligned(),
        ensures
            run@ == response.run(),
    {
        let addresses = split_on(response.fastq_ftp.as_str(), LIST_SEPARATOR);
        let sizes = split_on(response.fastq_bytes.as_str(), LIST_SEPARATOR);
        let sums = split_on(response.fastq_md5.as_str(), LIST_SEPARATOR);
        let reads = pair_up(&addresses, &sizes, &sums);
        Run { accession: response.run_accession, reads }
    }

    /// Builds the run that one entry of the service's answer describes, or
    /// nothing where the entry's three FASTQ lists differ in length.
    pub fn try_from_response(response: ENAApiResponse) -> (run: Option<Run>)
        ensures
            run is Some <==> response.aligned(),
            run matches Some(r) ==> r@ == response.run(),
    {
        let addresses = split_on(response.fastq_ftp.as_str(), LIST_SEPARATOR);
        let sizes = split_on(response.fastq_bytes.as_str(), LIST_SEPARATOR);
        let sums = split_on(response.fastq_md5.as_str(), LIST_SEPARATOR);
        if addresses.len() == sizes.len() && sizes.len() == sums.len() {
            let reads = pair_up(&addresses, &sizes, &sums);
            Some(Run { accession: response.run_accession, reads })
        } else {
            None
        }
    }
}

/// Makes one file from each triple of entries.
fn pair_up(addresses: &Vec<String>, sizes: &Vec<String>, sums: &Vec<String>) -> (reads: Vec<Reads>)
    requires
        addresses.len() == sizes.len() == sums.len(),
    ensures
        reads.deep_view() == reads_of(
            addresses.deep_view(),
            sizes.deep_view(),
            sums.deep_view(),
        ),
{
    let mut reads: Vec<Reads> = Vec::new();
    let mut i: usize = 0;
    while i < addresses.len()
        invariant
            i <= addresses.len(),
            addresses.len() == sizes.len() == sums.len(),
            reads.len() == i,
            forall|k: int|
                0 <= k < i ==> (#[trigger] reads[k])@ == read_of(
                    addresses[k]@,
                    sizes[k]@,
                    sums[k]@,
                ),
        decreases addresses.len() - i,
    {
        let mut url = String::from_str("ftp://");
        proof {
            reveal_strlit("ftp://");
            assert(url@ == ftp_scheme());
        }
        url.append(addresses[i].as_str());
        let bytes: u64 = match parse_u64(sizes[i].as_str()) {
            Some(n) => n,
            None => 0,
        };
        reads.push(Reads { url, md5: sums[i].clone(), bytes });
        i += 1;
    }
    reads
}

} // verus!
