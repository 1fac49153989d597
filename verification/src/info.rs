//! Flat key and value attributes, as the window manager reports them and as
//! one stored record holds them.

use vstd::prelude::*;
use crate::text::{
    chars_of, part_views, split, split_on, split_once, split_once_on, str_eq, string_of,
    strip_once, stripped_once, trim, trimmed, CharSet,
};

verus! {

/// Attributes by key. A key that is set again takes the later value.
#[derive(Debug)]
pub struct WindowInfo {
    entries: Vec<(String, String)>,
}

/// The map that a list of entries stands for: each entry is set in turn.
pub closed spec fn entries_map(entries: Seq<(String, String)>) -> Map<Seq<char>, Seq<char>>
    decreases entries.len(),
{
    if entries.len() == 0 {
        Map::empty()
    } else {
        entries_map(entries.drop_last()).insert(entries.last().0@, entries.last().1@)
    }
}

/// Entries from index `from` on do not hold `key`, so what is found below
/// `from` is what the whole list gives.
proof fn lemma_entries_map_skip(entries: Seq<(String, String)>, key: Seq<char>, from: int)
    requires
        0 <= from <= entries.len(),
        forall|j: int| from <= j < entries.len() ==> entries[j].0@ != key,
    ensures
        entries_map(entries).contains_key(key) == entries_map(entries.take(from)).contains_key(
            key,
        ),
        entries_map(entries).contains_key(key) ==> entries_map(entries)[key] == entries_map(
            entries.take(from),
        )[key],
    decreases entries.len() - from,
{
    if from < entries.len() {
        assert(entries.drop_last().take(from) =~= entries.take(from));
        lemma_entries_map_skip(entries.drop_last(), key, from);
    } else {
        assert(entries.take(from) =~= entries);
    }
}

impl View for WindowInfo {
    type V = Map<Seq<char>, Seq<char>>;

    closed spec fn view(&self) -> Map<Seq<char>, Seq<char>> {
        entries_map(self.entries@)
    }
}

impl WindowInfo {
    /// Attributes with no key set.
    pub fn new() -> (r: Self)
        ensures
            r@ == Map::<Seq<char>, Seq<char>>::empty(),
    {
        WindowInfo { entries: Vec::new() }
    }

    /// Sets `key` to `value`.
    pub fn insert(&mut self, key: String, value: String)
        ensures
            final(self)@ == old(self)@.insert(key@, value@),
    {
        let ghost before = self.entries@;
        self.entries.push((key, value));
        assert(self.entries@.drop_last() =~= before);
    }

    /// The value of `key`, if it is set.
    pub fn get(&self, key: &str) -> (r: Option<&String>)
        ensures
            match r {
                Some(v) => self@.contains_key(key@) && self@[key@] == v@,
                None => !self@.contains_key(key@),
            },
    {
        let mut i: usize = self.entries.len();
        while i > 0
            invariant
                i <= self.entries.len(),
                forall|j: int| i <= j < self.entries.len() ==> self.entries@[j].0@ != key@,
            decreases i,
        {
            i -= 1;
            if str_eq(self.entries[i].0.as_str(), key) {
                proof {
                    lemma_entries_map_skip(self.entries@, key@, i + 1);
                    assert(self.entries@.take(i + 1).drop_last() =~= self.entries@.take(i as int));
                }
                return Some(&self.entries[i].1);
            }
        }
        proof {
            lemma_entries_map_skip(self.entries@, key@, 0);
        }
        None
    }
}

/// A key or a value without the white space around it and then without the
/// double quote at its start and the one at its end. Double quotes further
/// in belong to the text.
pub open spec fn cleaned(s: Seq<char>) -> Seq<char> {
    stripped_once(trimmed(s, CharSet::Whitespace), '"')
}

/// The attributes that a list of `key:value` pairs sets, from first to last.
/// A pair without a colon sets nothing; a pair splits at its first colon.
pub open spec fn info_of_pairs(pairs: Seq<Seq<char>>) -> Map<Seq<char>, Seq<char>>
    decreases pairs.len(),
{
    if pairs.len() == 0 {
        Map::empty()
    } else {
        let earlier = info_of_pairs(pairs.drop_last());
        match split_once(pairs.last(), seq![':']) {
            Some((key, value)) => earlier.insert(cleaned(key), cleaned(value)),
            None => earlier,
        }
    }
}

/// The attributes that a flat object text sets: the text without the curly
/// braces around it, split at each comma into pairs.
pub open spec fn window_info(text: Seq<char>) -> Map<Seq<char>, Seq<char>> {
    info_of_pairs(split(trimmed(text, CharSet::Braces), seq![',']))
}

/// Reads the attributes of a flat object from its characters.
pub fn parse_info_chars(text: &Vec<char>) -> (info: WindowInfo)
    ensures
        info@ == window_info(text@),
{
    let content = trim(text, CharSet::Braces);
    let comma: Vec<char> = vec![','];
    let colon: Vec<char> = vec![':'];
    assert(comma@ =~= seq![',']);
    assert(colon@ =~= seq![':']);
    let pairs = split_on(&content, &comma);
    let mut info = WindowInfo::new();
    let mut i: usize = 0;
    assert(part_views(pairs@).take(0) =~= Seq::<Seq<char>>::empty());
    while i < pairs.len()
        invariant
            i <= pairs.len(),
            colon@ == seq![':'],
            info@ == info_of_pairs(part_views(pairs@).take(i as int)),
        decreases pairs.len() - i,
    {
        let ghost all = part_views(pairs@);
        proof {
            assert(all.take(i + 1).drop_last() =~= all.take(i as int));
            assert(all.take(i + 1).last() == pairs@[i as int]@);
        }
        match split_once_on(&pairs[i], &colon) {
            Some((key, value)) => {
                let clean_key = strip_once(&trim(&key, CharSet::Whitespace), '"');
                let clean_value = strip_once(&trim(&value, CharSet::Whitespace), '"');
                info.insert(string_of(&clean_key), string_of(&clean_value));
            },
            None => {},
        }
        i += 1;
    }
    assert(part_views(pairs@).take(pairs.len() as int) =~= part_views(
        pairs@,
    ));
    info
}

/// Reads the attributes of a flat object, such as the window manager's
/// answer to a query or one stored record.
pub fn parse_window_info(info: &str) -> (r: WindowInfo)
    ensures
        r@ == window_info(info@),
{
    parse_info_chars(&chars_of(info))
}

} // verus!
