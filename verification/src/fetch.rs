//! Around the requests to the service: how many at once, to which address,
//! and what their answers come to.

use vstd::prelude::*;
use crate::run::{ENAApiResponse, Run, RunView};

verus! {

/// The largest number of requests that may be in flight at once.
pub const MAX_REQUESTS: usize = 10;

/// The smallest number of requests that may be in flight at once.
pub const MIN_REQUESTS: usize = 1;

/// The requested concurrency, brought into the closed range from
/// `MIN_REQUESTS` to `MAX_REQUESTS`.
pub open spec fn clamped_requests(num_requests: int) -> int {
    if num_requests > MAX_REQUESTS as int {
        MAX_REQUESTS as int
    } else if num_requests < MIN_REQUESTS as int {
        MIN_REQUESTS as int
    } else {
        num_requests
    }
}

/// Bounds the number of concurrent requests: a value above the maximum is
/// capped, a value below the minimum is raised, any other passes unchanged.
pub fn check_num_requests(num_requests: u8) -> (bound: usize)
    ensures
        bound as int == clamped_requests(num_requests as int),
        MIN_REQUESTS <= bound <= MAX_REQUESTS,
{
    if num_requests > 10 {
        MAX_REQUESTS
    } else if num_requests < 1 {
        MIN_REQUESTS
    } else {
        num_requests as usize
    }
}

/// The address at which the service reports the files of `accession`.
pub open spec fn report_address(accession: Seq<char>) -> Seq<char> {
    "https://www.ebi.ac.uk/ena/portal/api/filereport?accession="@ + accession
        + "&result=read_run&format=json"@
}

/// The address to ask for the files of `accession`: the fixed endpoint with
/// the accession set in, and nothing else that varies.
pub fn request_url(accession: &str) -> (url: String)
    ensures
        url@ == report_address(accession@),
{
    let mut url = String::from_str("https://www.ebi.ac.uk/ena/portal/api/filereport?accession=");
    url.append(accession);
    url.append("&result=read_run&format=json");
    url
}

/// The runs described by the entries of one answer, entry by entry.
pub open spec fn runs_in(answer: Seq<ENAApiResponse>) -> Seq<RunView> {
    Seq::new(answer.len(), |i: int| answer[i].run())
}

/// Whether every entry of an answer has its three FASTQ lists of one
/// length.
pub open spec fn all_aligned(answer: Seq<ENAApiResponse>) -> bool {
    forall|i: int| 0 <= i < answer.len() ==> (#[trigger] answer[i]).aligned()
}

/// Turns the entries of one answer into runs, one run for each entry and in
/// the order of the answer; into nothing where an entry's FASTQ lists
/// differ in length.
pub fn parse_answer(answer: Vec<ENAApiResponse>) -> (runs: Option<Vec<Run>>)
    ensures
        runs is Some <==> all_aligned(answer@),
        runs matches Some(parsed) ==> parsed.deep_view() == runs_in(answer@),
{
    let mut parsed: Vec<Run> = Vec::new();
    for entry in it: answer
        invariant
            it.seq() == answer@,
            parsed.len() == it.index(),
            forall|k: int| 0 <= k < it.index() ==> (#[trigger] answer[k]).aligned(),
            forall|k: int| 0 <= k < it.index() ==> (#[trigger] parsed[k])@ == answer[k].run(),
    {
        match Run::try_from_response(entry) {
            Some(run) => {
                parsed.push(run);
            },
            None => {
                return None;
            },
        }
    }
    Some(parsed)
}

/// The runs of all the requests that were answered, in the order in which
/// the requests are listed. A request that failed stands as `None` and adds
/// nothing.
pub open spec fn gathered(outcomes: Seq<Option<Seq<RunView>>>) -> Seq<RunView>
    decreases outcomes.len(),
{
    if outcomes.len() == 0 {
        Seq::<RunView>::empty()
    } else {
        gathered(outcomes.drop_last()) + match outcomes.last() {
            Some(runs) => runs,
            None => Seq::<RunView>::empty(),
        }
    }
}

/// What two lists of outcomes give together is what each gives alone, one
/// after the other: no request's outcome changes what another adds.
pub proof fn lemma_gathered_concat(
    first: Seq<Option<Seq<RunView>>>,
    second: Seq<Option<Seq<RunView>>>,
)
    ensures
        gathered(first + second) == gathered(first) + gathered(second),
    decreases second.len(),
{
    if second.len() > 0 {
        lemma_gathered_concat(first, second.drop_last());
        assert((first + second).drop_last() == first + second.drop_last());
    }
}

/// A failed request takes away the runs of its own accession and no others:
/// with the outcome at `k` replaced by a failure, the runs before and after
/// it are gathered as they were.
pub proof fn lemma_failure_is_isolated(outcomes: Seq<Option<Seq<RunView>>>, k: int)
    requires
        0 <= k < outcomes.len(),
    ensures
        gathered(outcomes.update(k, None)) == gathered(outcomes.take(k)) + gathered(
            outcomes.skip(k + 1),
        ),
        gathered(outcomes) == gathered(outcomes.take(k)) + match outcomes[k] {
            Some(runs) => runs,
            None => Seq::<RunView>::empty(),
        } + gathered(outcomes.skip(k + 1)),
{
    let before = outcomes.take(k);
    let after = outcomes.skip(k + 1);
    let failed = seq![None::<Seq<RunView>>];
    let it = seq![outcomes[k]];
    assert(outcomes.update(k, None) == before + failed + after);
    assert(outcomes == before + it + after);
    lemma_gathered_concat(before + failed, after);
    lemma_gathered_concat(before, failed);
    lemma_gathered_concat(before + it, after);
    lemma_gathered_concat(before, it);
    let none = Seq::<Option<Seq<RunView>>>::empty();
    assert(gathered(none) == Seq::<RunView>::empty());
    assert(failed.drop_last() == none);
    assert(it.drop_last() == none);
    assert(gathered(it) == match outcomes[k] {
        Some(runs) => runs,
        None => Seq::<RunView>::empty(),
    });
}

/// Merges the outcomes of the requests into one list of runs. Each outcome
/// is the runs of one accession, or `None` where its request failed.
pub fn collect_runs(outcomes: Vec<Option<Vec<Run>>>) -> (runs: Vec<Run>)
    ensures
        runs.deep_view() == gathered(outcomes.deep_view()),
{
    let ghost all = outcomes.deep_view();
    let mut runs: Vec<Run> = Vec::new();
    for outcome in it: outcomes
        invariant
            it.seq() == outcomes@,
            all == outcomes.deep_view(),
            runs.deep_view() == gathered(all.take(it.index() as int)),
    {
        assert(all.take(it.index() + 1).drop_last() == all.take(it.index() as int));
        match outcome {
            Some(mut found) => {
                runs.append(&mut found);
            },
            None => {},
        }
    }
    assert(all.take(outcomes.len() as int) == all);
    runs
}

} // verus!
