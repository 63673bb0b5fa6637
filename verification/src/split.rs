//! Lists joined by a separator: cutting them into fields and back.

use vstd::prelude::*;

verus! {

/// The fields of `s` when every occurrence of `sep` ends one field and
/// starts the next. A string without `sep` is one field, the empty string
/// included; `n` separators give `n + 1` fields.
pub open spec fn split(s: Seq<char>, sep: char) -> Seq<Seq<char>>
    decreases s.len(),
{
    if s.len() == 0 {
        seq![Seq::<char>::empty()]
    } else {
        let before = split(s.drop_last(), sep);
        if s.last() == sep {
            before.push(Seq::<char>::empty())
        } else {
            before.drop_last().push(before.last().push(s.last()))
        }
    }
}

/// The fields written one after the other with `sep` between neighbours.
pub open spec fn join(fields: Seq<Seq<char>>, sep: char) -> Seq<char>
    decreases fields.len(),
{
    if fields.len() == 0 {
        Seq::<char>::empty()
    } else if fields.len() == 1 {
        fields[0]
    } else {
        join(fields.drop_last(), sep).push(sep) + fields.last()
    }
}

/// Whether no field holds the separator.
pub open spec fn free_of(fields: Seq<Seq<char>>, sep: char) -> bool {
    forall|i: int, j: int|
        0 <= i < fields.len() && 0 <= j < fields[i].len() ==> #[trigger] fields[i][j] != sep
}

/// Splitting yields at least one field, and none of them holds the
/// separator.
pub proof fn lemma_split_fields(s: Seq<char>, sep: char)
    ensures
        split(s, sep).len() >= 1,
        free_of(split(s, sep), sep),
    decreases s.len(),
{
    if s.len() > 0 {
        lemma_split_fields(s.drop_last(), sep);
    }
}

/// Joining what splitting gave restores the string.
pub proof fn lemma_join_split(s: Seq<char>, sep: char)
    ensures
        join(split(s, sep), sep) == s,
    decreases s.len(),
{
    if s.len() > 0 {
        let before = split(s.drop_last(), sep);
        lemma_split_fields(s.drop_last(), sep);
        lemma_join_split(s.drop_last(), sep);
        if s.last() == sep {
            assert(before.push(Seq::<char>::empty()).drop_last() == before);
        } else if before.len() > 1 {
            let grown = before.last().push(s.last());
            assert(before.drop_last().push(grown).drop_last() == before.drop_last());
            assert(s == s.drop_last().push(s.last()));
        }
    }
}

/// Splitting what joining wrote restores the fields, as long as there is at
/// least one field and none holds the separator.
pub proof fn lemma_split_join(fields: Seq<Seq<char>>, sep: char)
    requires
        fields.len() >= 1,
        free_of(fields, sep),
    ensures
        split(join(fields, sep), sep) == fields,
    decreases fields.len(), fields.last().len(),
{
    let s = join(fields, sep);
    let tail = fields.last();
    if tail.len() == 0 {
        if fields.len() == 1 {
            assert(fields[0] == Seq::<char>::empty());
        } else {
            let rest = fields.drop_last();
            assert(free_of(rest, sep));
            lemma_split_join(rest, sep);
            assert(s.drop_last() == join(rest, sep));
            assert(tail == Seq::<char>::empty());
        }
    } else {
        let shorter = fields.drop_last().push(tail.drop_last());
        assert(free_of(shorter, sep));
        lemma_split_join(shorter, sep);
        assert(shorter.drop_last() == fields.drop_last());
        assert(s.drop_last() == join(shorter, sep)) by {
            if fields.len() > 1 {
                assert(join(shorter, sep) == join(fields.drop_last(), sep).push(sep)
                    + tail.drop_last());
            }
        }
        assert(shorter.drop_last().push(shorter.last().push(s.last())) == fields) by {
            assert(tail.drop_last().push(tail.last()) == tail);
        }
    }
}

/// Cuts `text` at every `sep`.
pub fn split_on(text: &str, sep: char) -> (fields: Vec<String>)
    ensures
        fields.deep_view() == split(text@, sep),
{
    let mut fields: Vec<String> = Vec::new();
    let mut current = String::new();
    let ghost mut seen = Seq::<char>::empty();
    for c in it: text.chars()
        invariant
            it.seq() == text@,
            seen == it.seq().take(it.index() as int),
            fields.deep_view().push(current@) == split(seen, sep),
    {
        proof {
            seen = seen.push(c);
            assert(seen.drop_last() == it.seq().take(it.index() as int));
        }
        if c == sep {
            fields.push(current);
            current = String::new();
        } else {
            current.push(c);
        }
    }
    assert(seen == text@);
    fields.push(current);
    fields
}

} // verus!
