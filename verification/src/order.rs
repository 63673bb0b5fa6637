//! The order of accessions, and runs sorted by it.

use vstd::prelude::*;
use crate::output::Table;
use crate::run::{lemma_normalized_shape, normalized, supported, Run, RunView};
use crate::text::chars_of;

verus! {

/// Whether `a` does not come after `b` in the order of strings: character
/// by character, the first difference decides, and a string comes before
/// every longer string that starts with it.
pub open spec fn lex_le(a: Seq<char>, b: Seq<char>) -> bool
    decreases a.len(),
{
    if a.len() == 0 {
        true
    } else if b.len() == 0 {
        false
    } else if a[0] != b[0] {
        a[0] < b[0]
    } else {
        lex_le(a.skip(1), b.skip(1))
    }
}

/// No string comes after itself.
pub proof fn lemma_lex_le_reflexive(a: Seq<char>)
    ensures
        lex_le(a, a),
    decreases a.len(),
{
    if a.len() > 0 {
        lemma_lex_le_reflexive(a.skip(1));
    }
}

/// Of two strings, one does not come after the other.
pub proof fn lemma_lex_le_total(a: Seq<char>, b: Seq<char>)
    ensures
        lex_le(a, b) || lex_le(b, a),
    decreases a.len(),
{
    if a.len() > 0 && b.len() > 0 && a[0] == b[0] {
        lemma_lex_le_total(a.skip(1), b.skip(1));
    }
}

/// The order of strings is transitive.
pub proof fn lemma_lex_le_transitive(a: Seq<char>, b: Seq<char>, c: Seq<char>)
    requires
        lex_le(a, b),
        lex_le(b, c),
    ensures
        lex_le(a, c),
    decreases a.len(),
{
    if a.len() > 0 && b.len() > 0 && c.len() > 0 && a[0] == b[0] && b[0] == c[0] {
        lemma_lex_le_transitive(a.skip(1), b.skip(1), c.skip(1));
    }
}

/// Two strings neither of which comes after the other are the same string.
pub proof fn lemma_lex_le_antisymmetric(a: Seq<char>, b: Seq<char>)
    requires
        lex_le(a, b),
        lex_le(b, a),
    ensures
        a == b,
    decreases a.len(),
{
    if a.len() > 0 && b.len() > 0 {
        lemma_lex_le_antisymmetric(a.skip(1), b.skip(1));
        assert(b == seq![b[0]] + b.skip(1));
    }
}

/// Whether `a` does not come after `b` in the order of strings.
pub fn precedes(a: &str, b: &str) -> (le: bool)
    ensures
        le == lex_le(a@, b@),
{
    let x = chars_of(a);
    let y = chars_of(b);
    let mut i: usize = 0;
    assert(a@.skip(0) == a@ && b@.skip(0) == b@);
    loop
        invariant
            i <= x.len(),
            i <= y.len(),
            x@ == a@,
            y@ == b@,
            lex_le(a@, b@) == lex_le(a@.skip(i as int), b@.skip(i as int)),
        decreases x.len() - i,
    {
        if i == x.len() {
            return true;
        }
        if i == y.len() {
            return false;
        }
        if x[i] != y[i] {
            return x[i] < y[i];
        }
        proof {
            assert(a@.skip(i as int).skip(1) == a@.skip(i + 1));
            assert(b@.skip(i as int).skip(1) == b@.skip(i + 1));
        }
        i += 1;
    }
}

/// Whether the runs stand in the order of their accessions.
pub open spec fn in_order(runs: Seq<RunView>) -> bool {
    forall|i: int, j: int|
        0 <= i < j < runs.len() ==> lex_le(
            (#[trigger] runs[i]).accession,
            (#[trigger] runs[j]).accession,
        )
}

/// The number of runs at the head of `runs` whose accession does not come
/// after `key`.
pub open spec fn place(runs: Seq<RunView>, key: Seq<char>) -> nat
    decreases runs.len(),
{
    if runs.len() == 0 || !lex_le(runs[0].accession, key) {
        0
    } else {
        1 + place(runs.skip(1), key)
    }
}

/// The runs with `run` set in behind every run at the head whose accession
/// does not come after its own.
pub open spec fn inserted(runs: Seq<RunView>, run: RunView) -> Seq<RunView> {
    runs.insert(place(runs, run.accession) as int, run)
}

/// The runs in the order of their accessions; runs of one accession keep
/// the order in which they were given.
pub open spec fn sorted_by_accession(runs: Seq<RunView>) -> Seq<RunView>
    decreases runs.len(),
{
    if runs.len() == 0 {
        Seq::<RunView>::empty()
    } else {
        inserted(sorted_by_accession(runs.drop_last()), runs.last())
    }
}

/// The place of `key` is the one position up to which no accession comes
/// after `key` and at which one does, or the list ends.
pub proof fn lemma_place(runs: Seq<RunView>, key: Seq<char>, p: int)
    requires
        0 <= p <= runs.len(),
        forall|j: int| 0 <= j < p ==> lex_le((#[trigger] runs[j]).accession, key),
        p == runs.len() || !lex_le(runs[p].accession, key),
    ensures
        place(runs, key) == p,
    decreases p,
{
    if p > 0 {
        let rest = runs.skip(1);
        assert forall|j: int| 0 <= j < p - 1 implies lex_le(
            (#[trigger] rest[j]).accession,
            key,
        ) by {
            assert(rest[j] == runs[j + 1]);
        }
        lemma_place(rest, key, p - 1);
    }
}

/// The place of `key` lies within the list; no accession before it comes
/// after `key`, and the one at it, if any, does.
pub proof fn lemma_place_bounds(runs: Seq<RunView>, key: Seq<char>)
    ensures
        place(runs, key) <= runs.len(),
        forall|j: int| 0 <= j < place(runs, key) ==> lex_le((#[trigger] runs[j]).accession, key),
        place(runs, key) < runs.len() ==> !lex_le(runs[place(runs, key) as int].accession, key),
    decreases runs.len(),
{
    if runs.len() > 0 && lex_le(runs[0].accession, key) {
        let rest = runs.skip(1);
        lemma_place_bounds(rest, key);
        assert forall|j: int| 0 <= j < place(runs, key) implies lex_le(
            (#[trigger] runs[j]).accession,
            key,
        ) by {
            if j > 0 {
                assert(runs[j] == rest[j - 1]);
            }
        }
    }
}

/// Setting a run into runs that stand in order leaves them in order.
pub proof fn lemma_inserted_in_order(runs: Seq<RunView>, run: RunView)
    requires
        in_order(runs),
    ensures
        in_order(inserted(runs, run)),
{
    let key = run.accession;
    let p = place(runs, key) as int;
    let grown = inserted(runs, run);
    lemma_place_bounds(runs, key);
    assert forall|i: int, j: int| 0 <= i < j < grown.len() implies lex_le(
        (#[trigger] grown[i]).accession,
        (#[trigger] grown[j]).accession,
    ) by {
        if i == p {
            let at = runs[p].accession;
            let later = runs[j - 1].accession;
            lemma_lex_le_total(key, later);
            if !lex_le(key, later) {
                lemma_lex_le_reflexive(at);
                lemma_lex_le_transitive(at, later, key);
            }
        }
    }
}

/// Sorted runs stand in the order of their accessions.
pub proof fn lemma_sorted_in_order(runs: Seq<RunView>)
    ensures
        in_order(sorted_by_accession(runs)),
    decreases runs.len(),
{
    if runs.len() > 0 {
        lemma_sorted_in_order(runs.drop_last());
        lemma_inserted_in_order(sorted_by_accession(runs.drop_last()), runs.last());
    }
}

/// Sorting neither adds a run nor loses one: each run is there as often as
/// it was given.
pub proof fn lemma_sorted_permutes(runs: Seq<RunView>)
    ensures
        sorted_by_accession(runs).to_multiset() == runs.to_multiset(),
        sorted_by_accession(runs).len() == runs.len(),
    decreases runs.len(),
{
    if runs.len() == 0 {
        assert(runs == Seq::<RunView>::empty());
    } else {
        let before = sorted_by_accession(runs.drop_last());
        let last = runs.last();
        lemma_sorted_permutes(runs.drop_last());
        lemma_place_bounds(before, last.accession);
        let p = place(before, last.accession) as int;
        assert(runs == runs.drop_last().push(last));
        vstd::seq_lib::to_multiset_build(runs.drop_last(), last);
        vstd::seq_lib::to_multiset_insert(before, p, last);
    }
}

/// The runs of the accession `key`, in the order in which the list holds
/// them.
pub open spec fn of_accession(runs: Seq<RunView>, key: Seq<char>) -> Seq<RunView> {
    runs.filter(|run: RunView| run.accession == key)
}

/// Setting a run into runs that stand in order puts it behind every run of
/// its own accession, and leaves the runs of any other accession as they
/// were.
pub proof fn lemma_inserted_is_stable(runs: Seq<RunView>, run: RunView, key: Seq<char>)
    requires
        in_order(runs),
    ensures
        of_accession(inserted(runs, run), key) == if run.accession == key {
            of_accession(runs, key).push(run)
        } else {
            of_accession(runs, key)
        },
{
    let same = |other: RunView| other.accession == key;
    let p = place(runs, run.accession) as int;
    lemma_place_bounds(runs, run.accession);
    let head = runs.take(p);
    let tail = runs.skip(p);
    let one = seq![run];
    assert(runs == head + tail);
    assert(inserted(runs, run) == head + one + tail);
    Seq::filter_distributes_over_add(head, tail, same);
    Seq::filter_distributes_over_add(head + one, tail, same);
    Seq::filter_distributes_over_add(head, one, same);
    reveal_with_fuel(Seq::filter, 2);
    if run.accession == key {
        assert forall|j: int| 0 <= j < tail.len() implies !same(#[trigger] tail[j]) by {
            let later = runs[p + j].accession;
            if later == key {
                lemma_lex_le_reflexive(key);
            }
        }
        tail.lemma_all_neg_filter_empty(same);
        assert(head.filter(same) + one + Seq::<RunView>::empty() == (head.filter(same)
            + Seq::<RunView>::empty()).push(run));
    }
}

/// Sorting keeps the runs of one accession in the order in which they were
/// given.
pub proof fn lemma_sorted_is_stable(runs: Seq<RunView>, key: Seq<char>)
    ensures
        of_accession(sorted_by_accession(runs), key) == of_accession(runs, key),
    decreases runs.len(),
{
    let same = |other: RunView| other.accession == key;
    reveal_with_fuel(Seq::filter, 2);
    if runs.len() > 0 {
        let before = runs.drop_last();
        let last = runs.last();
        lemma_sorted_is_stable(before, key);
        lemma_sorted_in_order(before);
        lemma_inserted_is_stable(sorted_by_accession(before), last, key);
        Seq::filter_distributes_over_add(before, seq![last], same);
    }
}

/// Sorts the runs by accession. Runs of one accession keep their order.
pub fn sort_runs(runs: Vec<Run>) -> (sorted: Vec<Run>)
    ensures
        sorted.deep_view() == sorted_by_accession(runs.deep_view()),
{
    let ghost all = runs.deep_view();
    let mut sorted: Vec<Run> = Vec::new();
    for run in it: runs
        invariant
            it.seq() == runs@,
            all == runs.deep_view(),
            sorted.deep_view() == sorted_by_accession(all.take(it.index() as int)),
    {
        let ghost before = sorted.deep_view();
        let ghost key = run@.accession;
        let mut p: usize = 0;
        loop
            invariant_except_break
                p <= sorted.len(),
                before == sorted.deep_view(),
                key == run@.accession,
                forall|j: int| 0 <= j < p ==> lex_le((#[trigger] before[j]).accession, key),
            ensures
                p <= sorted.len(),
                forall|j: int| 0 <= j < p ==> lex_le((#[trigger] before[j]).accession, key),
                p == sorted.len() || !lex_le(before[p as int].accession, key),
            decreases sorted.len() - p,
        {
            if p == sorted.len() {
                break ;
            }
            if !precedes(sorted[p].accession.as_str(), run.accession.as_str()) {
                break ;
            }
            p += 1;
        }
        proof {
            lemma_place(before, key, p as int);
            assert(all.take(it.index() + 1).drop_last() == all.take(it.index() as int));
        }
        sorted.insert(p, run);
    }
    assert(all.take(runs.len() as int) == all);
    sorted
}

/// The runs as they are presented: in the order of their accessions, each
/// without its unpaired file unless single-end files are kept.
pub open spec fn presented(runs: Seq<RunView>, keep_single_end: bool) -> Seq<RunView> {
    sorted_by_accession(runs).map_values(|run: RunView| normalized(run, keep_single_end))
}

/// Every run that is presented is one of the runs that were given,
/// normalised; and as many are presented as were given.
pub proof fn lemma_presented_runs(runs: Seq<RunView>, keep_single_end: bool, i: int)
    requires
        0 <= i < presented(runs, keep_single_end).len(),
    ensures
        presented(runs, keep_single_end).len() == runs.len(),
        exists|j: int|
            0 <= j < runs.len() && presented(runs, keep_single_end)[i] == normalized(
                #[trigger] runs[j],
                keep_single_end,
            ),
{
    let sorted = sorted_by_accession(runs);
    lemma_sorted_permutes(runs);
    sorted.to_multiset_ensures();
    runs.to_multiset_ensures();
    assert(sorted.contains(sorted[i]));
    assert(sorted.to_multiset().count(sorted[i]) > 0);
    assert(runs.to_multiset().count(sorted[i]) > 0);
    assert(runs.contains(sorted[i]));
    let j = choose|j: int| 0 <= j < runs.len() && runs[j] == sorted[i];
    assert(presented(runs, keep_single_end)[i] == normalized(runs[j], keep_single_end));
}

/// Runs of one, two or three files have a place in the long table once
/// they are presented, and in the wide table as well where single-end
/// files are kept.
pub proof fn lemma_presented_runs_have_shapes(runs: Seq<RunView>, keep_single_end: bool)
    requires
        forall|j: int| 0 <= j < runs.len() ==> supported(#[trigger] runs[j]),
    ensures
        Table::Long.fits_all(presented(runs, keep_single_end), keep_single_end),
        keep_single_end ==> Table::Wide.fits_all(presented(runs, keep_single_end), keep_single_end),
{
    let shown = presented(runs, keep_single_end);
    assert forall|i: int| 0 <= i < shown.len() implies supported(#[trigger] shown[i]) by {
        lemma_presented_runs(runs, keep_single_end, i);
        let j = choose|j: int|
            0 <= j < runs.len() && shown[i] == normalized(#[trigger] runs[j], keep_single_end);
        lemma_normalized_shape(runs[j], keep_single_end);
    }
    assert forall|i: int| 0 <= i < shown.len() implies (#[trigger] Table::Long.rows(
        shown[i],
        keep_single_end,
    )) is Some by {
        assert(supported(shown[i]));
    }
    if keep_single_end {
        assert forall|i: int| 0 <= i < shown.len() implies (#[trigger] Table::Wide.rows(
            shown[i],
            keep_single_end,
        )) is Some by {
            assert(supported(shown[i]));
        }
    }
}

/// Brings the gathered runs into the form in which they are given out:
/// sorted by accession, and each normalised.
pub fn present(runs: Vec<Run>, keep_single_end: bool) -> (shown: Vec<Run>)
    ensures
        shown.deep_view() == presented(runs.deep_view(), keep_single_end),
{
    let sorted = sort_runs(runs);
    let ghost all = sorted.deep_view();
    let mut shown: Vec<Run> = Vec::new();
    for run in it: sorted
        invariant
            it.seq() == sorted@,
            all == sorted.deep_view(),
            shown.len() == it.index(),
            forall|k: int|
                0 <= k < it.index() ==> (#[trigger] shown[k])@ == normalized(
                    all[k],
                    keep_single_end,
                ),
    {
        let mut run = run;
        run.normalize(keep_single_end);
        shown.push(run);
    }
    shown
}

} // verus!
