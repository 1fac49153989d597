//! Facts about trimming, splitting and joining that hold of every text.

use vstd::prelude::*;
use crate::text::{
    first_occurrence, join, lemma_first_occurrence_absent, lemma_first_occurrence_found,
    lemma_first_occurrence_is_first, occurs_at, split,
};

verus! {

/// Whether the character `c` stands nowhere in `s`.
pub open spec fn has_no(s: Seq<char>, c: char) -> bool {
    forall|i: int| 0 <= i < s.len() ==> s[i] != c
}

/// The first occurrence of a pattern in a text stays the first one when more
/// text follows.
pub proof fn lemma_first_occurrence_prefix(a: Seq<char>, b: Seq<char>, pat: Seq<char>, i: int)
    requires
        first_occurrence(a, pat) == Some(i),
    ensures
        first_occurrence(a + b, pat) == Some(i),
{
    lemma_first_occurrence_is_first(a, pat, 0);
    assert(occurs_at(a, pat, i));
    assert((a + b).subrange(i, i + pat.len()) =~= a.subrange(i, i + pat.len()));
    assert forall|j: int| 0 <= j < i implies !occurs_at(a + b, pat, j) by {
        assert(!occurs_at(a, pat, j));
        assert((a + b).subrange(j, j + pat.len()) =~= a.subrange(j, j + pat.len()));
    }
    lemma_first_occurrence_found(a + b, pat, 0, i);
}

/// A one-character pattern is first found right after a text that does not
/// hold the character.
pub proof fn lemma_first_occurrence_char(a: Seq<char>, c: char)
    requires
        has_no(a, c),
    ensures
        first_occurrence(a + seq![c], seq![c]) == Some(a.len() as int),
        first_occurrence(a, seq![c]) is None,
{
    let s = a + seq![c];
    let pat = seq![c];
    assert(s.subrange(a.len() as int, a.len() as int + 1) =~= pat);
    assert forall|j: int| 0 <= j < a.len() implies !occurs_at(s, pat, j) by {
        if occurs_at(s, pat, j) {
            assert(s.subrange(j, j + 1)[0] == c);
        }
    }
    lemma_first_occurrence_found(s, pat, 0, a.len() as int);
    assert forall|j: int| 0 <= j implies !occurs_at(a, pat, j) by {
        if occurs_at(a, pat, j) {
            assert(a.subrange(j, j + 1)[0] == c);
        }
    }
    lemma_first_occurrence_absent(a, pat, 0);
}

/// A joined list of two or more parts begins with the first part and the
/// separator; the rest is the other parts joined.
pub proof fn lemma_join_front(parts: Seq<Seq<char>>, sep: Seq<char>)
    requires
        parts.len() >= 2,
    ensures
        join(parts, sep) == parts[0] + sep + join(parts.drop_first(), sep),
    decreases parts.len(),
{
    if parts.len() == 2 {
        assert(parts.drop_last() =~= seq![parts[0]]);
        assert(parts.drop_first() =~= seq![parts[1]]);
        assert(join(parts.drop_last(), sep) == parts[0]);
        assert(join(parts.drop_first(), sep) == parts[1]);
    } else {
        lemma_join_front(parts.drop_last(), sep);
        assert(parts.drop_last().drop_first() =~= parts.drop_first().drop_last());
        assert(parts.drop_last()[0] == parts[0]);
        assert(parts.drop_first().last() == parts.last());
        assert(join(parts.drop_first(), sep) == join(parts.drop_first().drop_last(), sep) + sep
            + parts.last());
        assert(join(parts, sep) =~= parts[0] + sep + join(parts.drop_first(), sep));
    }
}

/// Splitting a joined list gives the list back, where the separator is first
/// found in each part but the last, followed by the separator, right behind
/// that part, and is not found in the last part.
pub proof fn lemma_split_join(parts: Seq<Seq<char>>, sep: Seq<char>)
    requires
        sep.len() > 0,
        parts.len() > 0,
        forall|i: int|
            0 <= i < parts.len() - 1 ==> first_occurrence(#[trigger] parts[i] + sep, sep) == Some(
                parts[i].len() as int,
            ),
        first_occurrence(parts.last(), sep) is None,
    ensures
        split(join(parts, sep), sep) == parts,
    decreases parts.len(),
{
    if parts.len() == 1 {
        assert(split(parts[0], sep) =~= parts);
    } else {
        let rest = parts.drop_first();
        let tail = join(rest, sep);
        let whole = join(parts, sep);
        lemma_join_front(parts, sep);
        assert forall|i: int| 0 <= i < rest.len() - 1 implies first_occurrence(
            #[trigger] rest[i] + sep,
            sep,
        ) == Some(rest[i].len() as int) by {
            assert(rest[i] == parts[i + 1]);
        }
        assert(rest.last() == parts.last());
        lemma_split_join(rest, sep);
        assert(first_occurrence(parts[0] + sep, sep) == Some(parts[0].len() as int));
        lemma_first_occurrence_prefix(parts[0] + sep, tail, sep, parts[0].len() as int);
        let n = parts[0].len() as int;
        assert(whole =~= (parts[0] + sep) + tail);
        assert(whole.subrange(0, n) =~= parts[0]);
        assert(whole.subrange(n + sep.len(), whole.len() as int) =~= tail);
        assert(split(whole, sep) =~= seq![parts[0]] + split(tail, sep));
        assert(seq![parts[0]] + rest =~= parts);
    }
}

/// Splitting at a character gives back a joined list whose parts do not
/// hold the character.
pub proof fn lemma_split_join_char(parts: Seq<Seq<char>>, c: char)
    requires
        parts.len() > 0,
        forall|i: int| 0 <= i < parts.len() ==> has_no(#[trigger] parts[i], c),
    ensures
        split(join(parts, seq![c]), seq![c]) == parts,
{
    assert forall|i: int| 0 <= i < parts.len() - 1 implies first_occurrence(
        #[trigger] parts[i] + seq![c],
        seq![c],
    ) == Some(parts[i].len() as int) by {
        lemma_first_occurrence_char(parts[i], c);
    }
    lemma_first_occurrence_char(parts.last(), c);
    lemma_split_join(parts, seq![c]);
}

} // verus!
