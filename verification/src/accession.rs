//! Run accessions: what counts as one, and what becomes of strings that
//! are none.

use vstd::prelude::*;
use crate::decimal::{all_digits, is_digit};
use crate::text::chars_of;

verus! {

/// The fewest digits that an accession may have after its prefix.
pub const MIN_DIGITS: usize = 6;

/// The most digits that an accession may have after its prefix.
pub const MAX_DIGITS: usize = 10;

/// Whether `prefix` names one of the three archives: `SRR`, `ERR` or `DRR`.
pub open spec fn is_archive_prefix(prefix: Seq<char>) -> bool {
    ||| prefix == seq!['S', 'R', 'R']
    ||| prefix == seq!['E', 'R', 'R']
    ||| prefix == seq!['D', 'R', 'R']
}

/// Whether `s` is a run accession: `SRR`, `ERR` or `DRR`, then six to ten
/// decimal digits, and nothing before, between or after.
pub open spec fn is_accession(s: Seq<char>) -> bool {
    &&& s.len() >= 3
    &&& is_archive_prefix(s.take(3))
    &&& MIN_DIGITS <= s.skip(3).len() <= MAX_DIGITS
    &&& all_digits(s.skip(3))
}

/// What is said of a string that is no accession.
pub open spec fn rejection(s: Seq<char>) -> Seq<char> {
    s + " is not a valid accession number"@
}

/// Whether `text` is a run accession.
pub fn is_valid_accession(text: &str) -> (valid: bool)
    ensures
        valid == is_accession(text@),
{
    let chars = chars_of(text);
    if chars.len() < 3 + MIN_DIGITS || chars.len() > 3 + MAX_DIGITS {
        return false;
    }
    let archive = chars[0];
    let ghost prefix = text@.take(3);
    if !((archive == 'S' || archive == 'E' || archive == 'D') && chars[1] == 'R' && chars[2]
        == 'R') {
        return false;
    }
    assert(is_archive_prefix(prefix)) by {
        assert(prefix == seq![archive, 'R', 'R']);
    }
    let ghost digits = text@.skip(3);
    let mut i: usize = 3;
    while i < chars.len()
        invariant
            3 <= i <= chars.len(),
            chars@ == text@,
            digits == text@.skip(3),
            forall|k: int| 0 <= k < i - 3 ==> is_digit(#[trigger] digits[k]),
        decreases chars.len() - i,
    {
        let c = chars[i];
        assert(c == digits[i - 3]);
        if !('0' <= c && c <= '9') {
            return false;
        }
        i += 1;
    }
    true
}

/// Accepts a run accession and rejects anything else, saying which string
/// it was.
pub fn validate_accession(accession: &str) -> (verdict: Result<(), String>)
    ensures
        verdict is Ok <==> is_accession(accession@),
        verdict matches Err(message) ==> message@ == rejection(accession@),
{
    if is_valid_accession(accession) {
        Ok(())
    } else {
        let mut message = String::from_str(accession);
        message.append(" is not a valid accession number");
        Err(message)
    }
}

/// The accessions among the lines of a list, in the order of the list.
/// A line that is no accession, such as a heading or a blank line, is
/// passed over; the lines that hold one are taken as they are.
pub fn read_accessions(lines: Vec<String>) -> (accessions: Vec<String>)
    ensures
        accessions.deep_view() == lines.deep_view().filter(|line: Seq<char>| is_accession(line)),
{
    let ghost valid = |line: Seq<char>| is_accession(line);
    let ghost all = lines.deep_view();
    let ghost mut seen = Seq::<Seq<char>>::empty();
    let mut accessions: Vec<String> = Vec::new();
    for line in it: lines
        invariant
            it.seq() == lines@,
            all == lines.deep_view(),
            valid == |line: Seq<char>| is_accession(line),
            seen == all.take(it.index() as int),
            accessions.deep_view() == seen.filter(valid),
    {
        proof {
            let one = seq![line@];
            Seq::filter_distributes_over_add(seen, one, valid);
            reveal_with_fuel(Seq::filter, 2);
            assert(one.filter(valid) == if is_accession(line@) {
                one
            } else {
                Seq::<Seq<char>>::empty()
            });
            seen = seen + one;
        }
        if is_valid_accession(line.as_str()) {
            accessions.push(line);
        }
    }
    assert(seen == all);
    accessions
}

/// Whether every string of the list is an accession.
pub open spec fn all_accessions(candidates: Seq<Seq<char>>) -> bool {
    forall|i: int| 0 <= i < candidates.len() ==> is_accession(#[trigger] candidates[i])
}

/// Whether `k` is the place of the first string of the list that is no
/// accession.
pub open spec fn first_rejected(candidates: Seq<Seq<char>>, k: int) -> bool {
    &&& 0 <= k < candidates.len()
    &&& !is_accession(candidates[k])
    &&& forall|j: int| 0 <= j < k ==> is_accession(#[trigger] candidates[j])
}

/// Accepts a list of which every string is an accession, and rejects any
/// other list as a whole, saying which string was the first that is none.
pub fn require_accessions(candidates: &Vec<String>) -> (verdict: Result<(), String>)
    ensures
        verdict is Ok <==> all_accessions(candidates.deep_view()),
        verdict matches Err(message) ==> exists|k: int|
            #[trigger] first_rejected(candidates.deep_view(), k) && message@ == rejection(
                candidates[k]@,
            ),
{
    let ghost all = candidates.deep_view();
    let mut i: usize = 0;
    while i < candidates.len()
        invariant
            i <= candidates.len(),
            all == candidates.deep_view(),
            forall|j: int| 0 <= j < i ==> is_accession(#[trigger] all[j]),
        decreases candidates.len() - i,
    {
        match validate_accession(candidates[i].as_str()) {
            Ok(()) => {},
            Err(message) => {
                assert(first_rejected(all, i as int));
                return Err(message);
            },
        }
        i += 1;
    }
    Ok(())
}

} // verus!
