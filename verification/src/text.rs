//! Character-level text routines: conversions between strings and character
//! vectors, trimming, searching and splitting.

use vstd::prelude::*;
use vstd::std_specs::iter::IteratorSpec;

verus! {

/// Whether `c` has the Unicode `White_Space` property.
pub open spec fn is_whitespace(c: char) -> bool {
    let n = c as u32;
    ||| 0x09 <= n <= 0x0d
    ||| n == 0x20
    ||| n == 0x85
    ||| n == 0xa0
    ||| n == 0x1680
    ||| 0x2000 <= n <= 0x200a
    ||| n == 0x2028
    ||| n == 0x2029
    ||| n == 0x202f
    ||| n == 0x205f
    ||| n == 0x3000
}

/// Tests a character for the Unicode `White_Space` property.
pub fn char_is_whitespace(c: char) -> (r: bool)
    ensures
        r == is_whitespace(c),
{
    let n: u32 = c as u32;
    (0x09 <= n && n <= 0x0d) || n == 0x20 || n == 0x85 || n == 0xa0 || n == 0x1680 || (0x2000 <= n
        && n <= 0x200a) || n == 0x2028 || n == 0x2029 || n == 0x202f || n == 0x205f || n == 0x3000
}

/// Appends one character to a string.
///
/// Trusted: `String::push` appends the given character to the end of the
/// string and leaves what was there in place.
#[verifier::external_body]
pub(crate) fn push_char(s: &mut String, c: char)
    ensures
        final(s)@ == old(s)@.push(c),
{
    s.push(c)
}

/// The text of an optional string slice.
pub open spec fn option_str_view(s: Option<&str>) -> Option<Seq<char>> {
    match s {
        Some(t) => Some(t@),
        None => None,
    }
}

/// The characters of a string, in order.
pub fn chars_of(s: &str) -> (v: Vec<char>)
    ensures
        v@ == s@,
{
    let mut v: Vec<char> = Vec::new();
    let mut it = s.chars();
    loop
        invariant
            v@ + it.remaining() == s@,
            it.obeys_prophetic_iter_laws(),
            it.decrease() is Some,
        ensures
            v@ == s@,
        decreases it.decrease()->0,
    {
        match it.next() {
            Some(c) => {
                v.push(c);
            },
            None => {
                assert(v@ =~= s@);
                break ;
            },
        }
    }
    v
}

/// The string made of the given characters, in order.
pub fn string_of(v: &Vec<char>) -> (s: String)
    ensures
        s@ == v@,
{
    let mut s = String::new();
    let mut i: usize = 0;
    while i < v.len()
        invariant
            i <= v.len(),
            s@ == v@.take(i as int),
        decreases v.len() - i,
    {
        push_char(&mut s, v[i]);
        i += 1;
    }
    s
}


/// A copy of the characters of `v` from index `lo` up to, not including, `hi`.
pub fn subvec(v: &Vec<char>, lo: usize, hi: usize) -> (r: Vec<char>)
    requires
        lo <= hi <= v.len(),
    ensures
        r@ == v@.subrange(lo as int, hi as int),
{
    let mut r: Vec<char> = Vec::new();
    let mut i: usize = lo;
    while i < hi
        invariant
            lo <= i <= hi <= v.len(),
            r@ == v@.subrange(lo as int, i as int),
        decreases hi - i,
    {
        r.push(v[i]);
        i += 1;
        assert(r@ =~= v@.subrange(lo as int, i as int));
    }
    r
}

/// The characters that a trim removes.
#[derive(Clone, Copy, Debug)]
pub enum CharSet {
    /// Every character with the Unicode `White_Space` property.
    Whitespace,
    /// One given character.
    Only(char),
    /// The opening and the closing curly brace.
    Braces,
}

impl CharSet {
    /// Whether `c` belongs to the set.
    pub open spec fn has(self, c: char) -> bool {
        match self {
            CharSet::Whitespace => is_whitespace(c),
            CharSet::Only(d) => c == d,
            CharSet::Braces => c == '{' || c == '}',
        }
    }

    /// Tests whether `c` belongs to the set.
    pub fn contains(&self, c: char) -> (r: bool)
        ensures
            r == self.has(c),
    {
        match self {
            CharSet::Whitespace => char_is_whitespace(c),
            CharSet::Only(d) => c == *d,
            CharSet::Braces => c == '{' || c == '}',
        }
    }
}

/// `s` without its longest prefix of characters of `set`.
pub open spec fn trimmed_start(s: Seq<char>, set: CharSet) -> Seq<char>
    decreases s.len(),
{
    if s.len() > 0 && set.has(s[0]) {
        trimmed_start(s.drop_first(), set)
    } else {
        s
    }
}

/// `s` without its longest suffix of characters of `set`.
pub open spec fn trimmed_end(s: Seq<char>, set: CharSet) -> Seq<char>
    decreases s.len(),
{
    if s.len() > 0 && set.has(s.last()) {
        trimmed_end(s.drop_last(), set)
    } else {
        s
    }
}

/// `s` without the characters of `set` at its start and at its end.
pub open spec fn trimmed(s: Seq<char>, set: CharSet) -> Seq<char> {
    trimmed_end(trimmed_start(s, set), set)
}

/// The index in `v` at which `trimmed_start` of `v[lo..hi]` begins.
fn skip_start(v: &Vec<char>, lo: usize, hi: usize, set: CharSet) -> (k: usize)
    requires
        lo <= hi <= v.len(),
    ensures
        lo <= k <= hi,
        trimmed_start(v@.subrange(lo as int, hi as int), set) == v@.subrange(k as int, hi as int),
{
    let mut k: usize = lo;
    while k < hi && set.contains(v[k])
        invariant
            lo <= k <= hi <= v.len(),
            trimmed_start(v@.subrange(lo as int, hi as int), set) == trimmed_start(
                v@.subrange(k as int, hi as int),
                set,
            ),
        decreases hi - k,
    {
        assert(v@.subrange(k as int, hi as int).drop_first() =~= v@.subrange(
            k as int + 1,
            hi as int,
        ));
        k += 1;
    }
    k
}

/// The index in `v` at which `trimmed_end` of `v[lo..hi]` ends.
fn skip_end(v: &Vec<char>, lo: usize, hi: usize, set: CharSet) -> (k: usize)
    requires
        lo <= hi <= v.len(),
    ensures
        lo <= k <= hi,
        trimmed_end(v@.subrange(lo as int, hi as int), set) == v@.subrange(lo as int, k as int),
{
    let mut k: usize = hi;
    while k > lo && set.contains(v[k - 1])
        invariant
            lo <= k <= hi <= v.len(),
            trimmed_end(v@.subrange(lo as int, hi as int), set) == trimmed_end(
                v@.subrange(lo as int, k as int),
                set,
            ),
        decreases k - lo,
    {
        assert(v@.subrange(lo as int, k as int).drop_last() =~= v@.subrange(
            lo as int,
            k as int - 1,
        ));
        k -= 1;
    }
    k
}

/// Removes the characters of `set` from the start of `v`.
pub fn trim_start(v: &Vec<char>, set: CharSet) -> (r: Vec<char>)
    ensures
        r@ == trimmed_start(v@, set),
{
    assert(v@.subrange(0, v.len() as int) =~= v@);
    let lo = skip_start(v, 0, v.len(), set);
    subvec(v, lo, v.len())
}

/// Removes the characters of `set` from the end of `v`.
pub fn trim_end(v: &Vec<char>, set: CharSet) -> (r: Vec<char>)
    ensures
        r@ == trimmed_end(v@, set),
{
    assert(v@.subrange(0, v.len() as int) =~= v@);
    let hi = skip_end(v, 0, v.len(), set);
    subvec(v, 0, hi)
}

/// Removes the characters of `set` from both ends of `v`.
pub fn trim(v: &Vec<char>, set: CharSet) -> (r: Vec<char>)
    ensures
        r@ == trimmed(v@, set),
{
    assert(v@.subrange(0, v.len() as int) =~= v@);
    let lo = skip_start(v, 0, v.len(), set);
    let hi = skip_end(v, lo, v.len(), set);
    subvec(v, lo, hi)
}


/// `s` without one `c` at its start and one `c` at its end, where it has
/// them.
pub open spec fn stripped_once(s: Seq<char>, c: char) -> Seq<char> {
    let rest = if s.len() > 0 && s[0] == c {
        s.drop_first()
    } else {
        s
    };
    if rest.len() > 0 && rest.last() == c {
        rest.drop_last()
    } else {
        rest
    }
}

/// Removes one `c` from the start of `v` and one from its end, where it has
/// them.
pub fn strip_once(v: &Vec<char>, c: char) -> (r: Vec<char>)
    ensures
        r@ == stripped_once(v@, c),
{
    let lo: usize = if v.len() > 0 && v[0] == c {
        1
    } else {
        0
    };
    let hi: usize = if v.len() > lo && v[v.len() - 1] == c {
        v.len() - 1
    } else {
        v.len()
    };
    let ghost rest = v@.subrange(lo as int, v.len() as int);
    assert(rest =~= if lo == 1 {
        v@.drop_first()
    } else {
        v@
    });
    assert(v@.subrange(lo as int, hi as int) =~= if hi < v.len() {
        rest.drop_last()
    } else {
        rest
    });
    subvec(v, lo, hi)
}

/// Whether `pat` stands in `s` at index `i`.
pub open spec fn occurs_at(s: Seq<char>, pat: Seq<char>, i: int) -> bool {
    0 <= i && i + pat.len() <= s.len() && s.subrange(i, i + pat.len()) == pat
}

/// The least index at or after `from` at which `pat` stands in `s`.
pub open spec fn first_occurrence_from(s: Seq<char>, pat: Seq<char>, from: int) -> Option<int>
    decreases s.len() + 1 - from,
{
    if from < 0 || from + pat.len() > s.len() {
        None
    } else if occurs_at(s, pat, from) {
        Some(from)
    } else {
        first_occurrence_from(s, pat, from + 1)
    }
}

/// The least index at which `pat` stands in `s`.
pub open spec fn first_occurrence(s: Seq<char>, pat: Seq<char>) -> Option<int> {
    first_occurrence_from(s, pat, 0)
}

/// Whether `pat` stands somewhere in `s`.
pub open spec fn contains_seq(s: Seq<char>, pat: Seq<char>) -> bool {
    first_occurrence(s, pat) is Some
}

/// The parts of `s` between the occurrences of `pat`, found from left to
/// right without overlap. There is always at least one part.
pub open spec fn split(s: Seq<char>, pat: Seq<char>) -> Seq<Seq<char>>
    decreases s.len(),
{
    match first_occurrence(s, pat) {
        Some(i) => if pat.len() > 0 && 0 <= i && i + pat.len() <= s.len() {
            seq![s.subrange(0, i)] + split(s.subrange(i + pat.len(), s.len() as int), pat)
        } else {
            seq![s]
        },
        None => seq![s],
    }
}

/// What stands before and after the first occurrence of `pat` in `s`.
pub open spec fn split_once(s: Seq<char>, pat: Seq<char>) -> Option<(Seq<char>, Seq<char>)> {
    match first_occurrence(s, pat) {
        Some(i) => Some((s.subrange(0, i), s.subrange(i + pat.len(), s.len() as int))),
        None => None,
    }
}

/// An occurrence with none before it, at or after `from`, is the first one
/// from `from`.
pub proof fn lemma_first_occurrence_found(s: Seq<char>, pat: Seq<char>, from: int, i: int)
    requires
        0 <= from <= i,
        occurs_at(s, pat, i),
        forall|j: int| from <= j < i ==> !occurs_at(s, pat, j),
    ensures
        first_occurrence_from(s, pat, from) == Some(i),
    decreases i - from,
{
    if from < i {
        lemma_first_occurrence_found(s, pat, from + 1, i);
    }
}

/// Where `pat` stands nowhere at or after `from`, there is no first
/// occurrence from `from`.
pub proof fn lemma_first_occurrence_absent(s: Seq<char>, pat: Seq<char>, from: int)
    requires
        forall|j: int| from <= j ==> !occurs_at(s, pat, j),
    ensures
        first_occurrence_from(s, pat, from) is None,
    decreases s.len() + 1 - from,
{
    if !(from < 0 || from + pat.len() > s.len()) {
        lemma_first_occurrence_absent(s, pat, from + 1);
    }
}

/// What the first occurrence from `from` is: an occurrence with none
/// between `from` and it, or none at all.
pub proof fn lemma_first_occurrence_is_first(s: Seq<char>, pat: Seq<char>, from: int)
    requires
        0 <= from,
    ensures
        match first_occurrence_from(s, pat, from) {
            Some(i) => from <= i && occurs_at(s, pat, i) && forall|j: int|
                from <= j < i ==> !occurs_at(s, pat, j),
            None => forall|j: int| from <= j ==> !occurs_at(s, pat, j),
        },
    decreases s.len() + 1 - from,
{
    if !(from < 0 || from + pat.len() > s.len()) && !occurs_at(s, pat, from) {
        lemma_first_occurrence_is_first(s, pat, from + 1);
    }
}

/// An occurrence in the rest of `s` after `from` is one in `s`, `from`
/// places further on.
pub proof fn lemma_occurs_at_suffix(s: Seq<char>, pat: Seq<char>, from: int, j: int)
    requires
        0 <= from <= s.len(),
        0 <= j,
    ensures
        occurs_at(s.subrange(from, s.len() as int), pat, j) == occurs_at(s, pat, from + j),
{
    let t = s.subrange(from, s.len() as int);
    if j + pat.len() <= t.len() {
        assert(t.subrange(j, j + pat.len()) =~= s.subrange(from + j, from + j + pat.len()));
    }
}

/// Tests whether `pat` stands in `v` at index `i`.
pub fn matches_at(v: &Vec<char>, pat: &Vec<char>, i: usize) -> (r: bool)
    ensures
        r == occurs_at(v@, pat@, i as int),
{
    if pat.len() > v.len() || i > v.len() - pat.len() {
        return false;
    }
    let mut k: usize = 0;
    while k < pat.len()
        invariant
            k <= pat.len(),
            i + pat.len() <= v.len(),
            forall|j: int| 0 <= j < k ==> v@[i + j] == pat@[j],
        decreases pat.len() - k,
    {
        if v[i + k] != pat[k] {
            proof {
                let w = v@.subrange(i as int, i + pat.len());
                assert(w[k as int] == v@[i + k]);
            }
            return false;
        }
        k += 1;
    }
    assert(v@.subrange(i as int, i + pat.len()) =~= pat@);
    true
}

/// Finds the first index at or after `from` at which `pat` stands in `v`.
pub fn find_from(v: &Vec<char>, pat: &Vec<char>, from: usize) -> (r: Option<usize>)
    requires
        from <= v.len(),
    ensures
        match r {
            Some(i) => {
                &&& from <= i
                &&& i + pat.len() <= v.len()
                &&& first_occurrence(v@.subrange(from as int, v.len() as int), pat@) == Some(
                    i - from,
                )
            },
            None => first_occurrence(v@.subrange(from as int, v.len() as int), pat@) is None,
        },
{
    let ghost t = v@.subrange(from as int, v.len() as int);
    let mut i: usize = from;
    loop
        invariant
            from <= i <= v.len(),
            t == v@.subrange(from as int, v.len() as int),
            forall|j: int| from <= j < i ==> !occurs_at(v@, pat@, j),
        ensures
            forall|j: int| from <= j ==> !occurs_at(v@, pat@, j),
        decreases v.len() - i,
    {
        if matches_at(v, pat, i) {
            proof {
                assert forall|j: int| 0 <= j < i - from implies !occurs_at(t, pat@, j) by {
                    lemma_occurs_at_suffix(v@, pat@, from as int, j);
                }
                lemma_occurs_at_suffix(v@, pat@, from as int, i - from);
                lemma_first_occurrence_found(t, pat@, 0, i - from);
            }
            return Some(i);
        }
        if i >= v.len() {
            break ;
        }
        i += 1;
    }
    proof {
        assert forall|j: int| 0 <= j implies !occurs_at(t, pat@, j) by {
            lemma_occurs_at_suffix(v@, pat@, from as int, j);
        }
        lemma_first_occurrence_absent(t, pat@, 0);
    }
    None
}

/// Tests whether `pat` stands somewhere in `v`.
pub fn contains(v: &Vec<char>, pat: &Vec<char>) -> (r: bool)
    ensures
        r == contains_seq(v@, pat@),
{
    assert(v@.subrange(0, v.len() as int) =~= v@);
    find_from(v, pat, 0).is_some()
}

/// The views of the parts of a split.
pub open spec fn part_views(parts: Seq<Vec<char>>) -> Seq<Seq<char>> {
    parts.map_values(|p: Vec<char>| p@)
}

/// Splits `v` at each occurrence of `pat`. An empty pattern splits nowhere.
pub fn split_on(v: &Vec<char>, pat: &Vec<char>) -> (parts: Vec<Vec<char>>)
    ensures
        part_views(parts@) == split(v@, pat@),
{
    let mut parts: Vec<Vec<char>> = Vec::new();
    let mut pos: usize = 0;
    assert(v@.subrange(0, v.len() as int) =~= v@);
    if pat.len() == 0 {
        let whole = subvec(v, 0, v.len());
        parts.push(whole);
        assert(part_views(parts@) =~= seq![v@]);
        return parts;
    }
    assert(part_views(parts@) + split(v@, pat@) =~= split(v@, pat@));
    loop
        invariant_except_break
            split(v@, pat@) == part_views(parts@) + split(
                v@.subrange(pos as int, v.len() as int),
                pat@,
            ),
        invariant
            pat.len() > 0,
            pos <= v.len(),
        ensures
            part_views(parts@) == split(v@, pat@),
        decreases v.len() - pos,
    {
        let ghost rest = v@.subrange(pos as int, v.len() as int);
        let ghost before = part_views(parts@);
        proof {
            lemma_first_occurrence_is_first(rest, pat@, 0);
        }
        match find_from(v, pat, pos) {
            Some(i) => {
                let part = subvec(v, pos, i);
                parts.push(part);
                proof {
                    assert(rest.subrange(i - pos, i - pos + pat.len()) == pat@);
                    assert(rest.subrange(0, i - pos) =~= part@);
                    assert(rest.subrange(i - pos + pat.len(), rest.len() as int) =~= v@.subrange(
                        i + pat.len(),
                        v.len() as int,
                    ));
                    assert(part_views(parts@) =~= before + seq![part@]);
                    assert(split(v@, pat@) =~= part_views(parts@) + split(
                        v@.subrange(i + pat.len(), v.len() as int),
                        pat@,
                    ));
                }
                pos = i + pat.len();
            },
            None => {
                let part = subvec(v, pos, v.len());
                parts.push(part);
                proof {
                    assert(part_views(parts@) =~= before + seq![part@]);
                }
                break ;
            },
        }
    }
    parts
}

/// Splits `v` at the first occurrence of `pat`.
pub fn split_once_on(v: &Vec<char>, pat: &Vec<char>) -> (r: Option<(Vec<char>, Vec<char>)>)
    ensures
        match r {
            Some((a, b)) => split_once(v@, pat@) == Some((a@, b@)),
            None => split_once(v@, pat@) is None,
        },
{
    assert(v@.subrange(0, v.len() as int) =~= v@);
    match find_from(v, pat, 0) {
        Some(i) => {
            let a = subvec(v, 0, i);
            let b = subvec(v, i + pat.len(), v.len());
            Some((a, b))
        },
        None => None,
    }
}

/// Tests two strings for equality, character by character.
pub fn str_eq(a: &str, b: &str) -> (r: bool)
    ensures
        r == (a@ == b@),
{
    let x = chars_of(a);
    let y = chars_of(b);
    if x.len() != y.len() {
        return false;
    }
    let mut i: usize = 0;
    while i < x.len()
        invariant
            i <= x.len(),
            x.len() == y.len(),
            x@ == a@,
            y@ == b@,
            forall|j: int| 0 <= j < i ==> x@[j] == y@[j],
        decreases x.len() - i,
    {
        if x[i] != y[i] {
            assert(x@[i as int] != y@[i as int]);
            return false;
        }
        i += 1;
    }
    assert(x@ =~= y@);
    true
}

/// The parts in order, with `sep` between each two neighbours.
pub open spec fn join(parts: Seq<Seq<char>>, sep: Seq<char>) -> Seq<char>
    decreases parts.len(),
{
    if parts.len() == 0 {
        Seq::empty()
    } else if parts.len() == 1 {
        parts[0]
    } else {
        join(parts.drop_last(), sep) + sep + parts.last()
    }
}

/// Joining one more part onto a list puts the separator and the part after
/// what the list joined to, or the part alone where the list was empty.
pub proof fn lemma_join_push(parts: Seq<Seq<char>>, sep: Seq<char>, part: Seq<char>)
    ensures
        join(parts.push(part), sep) == if parts.len() == 0 {
            part
        } else {
            join(parts, sep) + sep + part
        },
{
    assert(parts.push(part).drop_last() =~= parts);
}

} // verus!
