//! The text format in which minimized windows are stored and handed on: a
//! bracketed, comma-separated list of flat objects, one per window.

use vstd::prelude::*;
use vstd::string::StringExecFns;
use crate::info::{parse_info_chars, window_info, WindowInfo};
use crate::record::{window_views, MinimizedWindow, WindowView};
use crate::text::{
    chars_of, join, lemma_join_push, part_views, push_char, split, split_on, subvec, trim,
    trim_end, trim_start, trimmed, trimmed_end, trimmed_start, CharSet,
};

verus! {

/// Why a text is not a stored collection.
#[derive(Clone, Copy, Debug, PartialEq, Eq, Structural)]
pub enum ParseError {
    /// The text, white space aside, does not begin with `[`.
    NoOpeningBracket,
    /// The text begins with `[` but, white space aside, does not end with `]`.
    NoClosingBracket,
}

impl ParseError {
    /// The error in words.
    pub fn message(&self) -> (r: String)
        ensures
            r@ == match *self {
                ParseError::NoOpeningBracket => "stored windows do not begin with '['"@,
                ParseError::NoClosingBracket => "stored windows do not end with ']'"@,
            },
    {
        match self {
            ParseError::NoOpeningBracket => String::from_str(
                "stored windows do not begin with '['",
            ),
            ParseError::NoClosingBracket => String::from_str("stored windows do not end with ']'"),
        }
    }
}

/// `s` with a backslash put before each double quote.
pub open spec fn escaped(s: Seq<char>) -> Seq<char>
    decreases s.len(),
{
    if s.len() == 0 {
        s
    } else if s.last() == '"' {
        escaped(s.drop_last()) + seq!['\\', '"']
    } else {
        escaped(s.drop_last()).push(s.last())
    }
}

/// `s` with each backslash that stands right before a double quote taken
/// out: what undoes `escaped`.
pub open spec fn unescaped(s: Seq<char>) -> Seq<char>
    decreases s.len(),
{
    if s.len() == 0 {
        s
    } else if s.len() >= 2 && s[s.len() - 2] == '\\' && s.last() == '"' {
        unescaped(s.subrange(0, s.len() - 2)).push('"')
    } else {
        unescaped(s.drop_last()).push(s.last())
    }
}

/// Undoing the escape of a text gives the text, whatever it holds.
pub proof fn lemma_unescaped_escaped(s: Seq<char>)
    ensures
        unescaped(escaped(s)) == s,
    decreases s.len(),
{
    if s.len() > 0 {
        let front = s.drop_last();
        lemma_unescaped_escaped(front);
        let e = escaped(s);
        if s.last() == '"' {
            assert(e =~= escaped(front) + seq!['\\', '"']);
            assert(e[e.len() - 2] == '\\' && e.last() == '"');
            assert(e.subrange(0, e.len() - 2) =~= escaped(front));
        } else {
            assert(e.last() == s.last());
            assert(e.drop_last() =~= escaped(front));
        }
        assert(front.push(s.last()) =~= s);
    }
}

/// A key and its value, each in double quotes, with a colon between them.
pub open spec fn quoted_pair(key: Seq<char>, value: Seq<char>) -> Seq<char> {
    seq!['"'] + key + seq!['"', ':', '"'] + value + seq!['"']
}

/// The key and value pairs of one record, in the order they are written.
/// The two titles are escaped; a missing preview is written as empty.
pub open spec fn record_pairs(w: WindowView) -> Seq<Seq<char>> {
    seq![
        quoted_pair("address"@, w.address),
        quoted_pair("display_title"@, escaped(w.display_title)),
        quoted_pair("class"@, w.class),
        quoted_pair("original_title"@, escaped(w.original_title)),
        quoted_pair(
            "preview"@,
            match w.preview_path {
                Some(p) => p,
                None => Seq::empty(),
            },
        ),
        quoted_pair("icon"@, w.icon),
    ]
}

/// One record as text: its pairs, comma-separated, in curly braces.
pub open spec fn encoded_record(w: WindowView) -> Seq<char> {
    seq!['{'] + join(record_pairs(w), seq![',']) + seq!['}']
}

/// A collection as text: its records, comma-separated, in square brackets.
pub open spec fn encoded(windows: Seq<WindowView>) -> Seq<char> {
    seq!['['] + join(windows.map_values(|w: WindowView| encoded_record(w)), seq![',']) + seq![']']
}

/// The value of `key` in `info`, or the empty text where it is not set.
pub open spec fn value_or_empty(info: Map<Seq<char>, Seq<char>>, key: Seq<char>) -> Seq<char> {
    if info.contains_key(key) {
        info[key]
    } else {
        Seq::empty()
    }
}

/// The record that a set of attributes stands for. An attribute that is not
/// set gives an empty field; the preview is always present. The two titles
/// are the stored values with the escape of their double quotes undone.
pub open spec fn record_of(info: Map<Seq<char>, Seq<char>>) -> WindowView {
    WindowView {
        address: value_or_empty(info, "address"@),
        display_title: unescaped(value_or_empty(info, "display_title"@)),
        class: value_or_empty(info, "class"@),
        original_title: unescaped(value_or_empty(info, "original_title"@)),
        preview_path: Some(value_or_empty(info, "preview"@)),
        icon: value_or_empty(info, "icon"@),
    }
}

/// One piece of a collection's text, without closing brackets at its end,
/// commas at its start, and white space around it.
pub open spec fn stripped_piece(piece: Seq<char>) -> Seq<char> {
    trimmed(
        trimmed_start(trimmed_end(piece, CharSet::Only(']')), CharSet::Only(',')),
        CharSet::Whitespace,
    )
}

/// The record that one piece of a collection's text holds, if it holds any:
/// a piece of which nothing is left after stripping holds none.
pub open spec fn decoded_piece(piece: Seq<char>) -> Option<WindowView> {
    let body = stripped_piece(piece);
    if body.len() == 0 {
        None
    } else {
        Some(record_of(window_info(body)))
    }
}

/// The records that a list of pieces holds, in order.
pub open spec fn decoded_pieces(pieces: Seq<Seq<char>>) -> Seq<WindowView>
    decreases pieces.len(),
{
    if pieces.len() == 0 {
        Seq::empty()
    } else {
        let earlier = decoded_pieces(pieces.drop_last());
        match decoded_piece(pieces.last()) {
            Some(w) => earlier.push(w),
            None => earlier,
        }
    }
}

/// The collection that a text holds. White space around the text is set
/// aside. What stands between the square brackets is split after each `},`
/// into pieces.
pub open spec fn decoded(text: Seq<char>) -> Result<Seq<WindowView>, ParseError> {
    let t = trimmed(text, CharSet::Whitespace);
    if t.len() == 0 || t[0] != '[' {
        Err(ParseError::NoOpeningBracket)
    } else if t.last() != ']' {
        Err(ParseError::NoClosingBracket)
    } else {
        Ok(decoded_pieces(split(t.subrange(1, t.len() - 1), seq!['}', ','])))
    }
}

/// Puts a backslash before each double quote of `s`.
pub fn escape_quotes(s: &str) -> (r: String)
    ensures
        r@ == escaped(s@),
{
    let v = chars_of(s);
    let mut r = String::new();
    let mut i: usize = 0;
    assert(v@.take(0) =~= Seq::<char>::empty());
    while i < v.len()
        invariant
            i <= v.len(),
            v@ == s@,
            r@ == escaped(v@.take(i as int)),
        decreases v.len() - i,
    {
        assert(v@.take(i + 1).drop_last() =~= v@.take(i as int));
        if v[i] == '"' {
            push_char(&mut r, '\\');
            push_char(&mut r, '"');
            assert(r@ =~= escaped(v@.take(i as int)) + seq!['\\', '"']);
        } else {
            push_char(&mut r, v[i]);
        }
        i += 1;
    }
    assert(v@.take(v.len() as int) =~= v@);
    r
}

/// Takes out each backslash of `s` that stands right before a double quote.
pub fn unescape_quotes(s: &str) -> (r: String)
    ensures
        r@ == unescaped(s@),
{
    let v = chars_of(s);
    let mut r = String::new();
    let mut i: usize = 0;
    assert(v@.take(0) =~= Seq::<char>::empty());
    while i < v.len()
        invariant
            i <= v.len(),
            v@ == s@,
            r@ == unescaped(v@.take(i as int)),
            0 < i < v.len() ==> !(v@[i - 1] == '\\' && v@[i as int] == '"'),
        decreases v.len() - i,
    {
        if v[i] == '\\' && i + 1 < v.len() && v[i + 1] == '"' {
            push_char(&mut r, '"');
            proof {
                let t = v@.take(i + 2);
                assert(t[t.len() - 2] == '\\' && t.last() == '"');
                assert(t.subrange(0, t.len() - 2) =~= v@.take(i as int));
            }
            i += 2;
        } else {
            push_char(&mut r, v[i]);
            proof {
                let t = v@.take(i + 1);
                assert(t.last() == v@[i as int]);
                assert(t.len() >= 2 ==> t[t.len() - 2] == v@[i - 1]);
                assert(t.drop_last() =~= v@.take(i as int));
            }
            i += 1;
        }
    }
    assert(v@.take(v.len() as int) =~= v@);
    r
}

/// Appends `"key":"value"` to `out`.
fn append_pair(out: &mut String, key: &str, value: &str)
    ensures
        final(out)@ == old(out)@ + quoted_pair(key@, value@),
{
    let ghost before = out@;
    push_char(out, '"');
    out.append(key);
    push_char(out, '"');
    push_char(out, ':');
    push_char(out, '"');
    out.append(value);
    push_char(out, '"');
    assert(out@ =~= before + quoted_pair(key@, value@));
}

/// Appends `"key":"value"` to `out` as one more pair of a record, after a
/// comma unless it is the record's first pair. `done` are the pairs written
/// before it, `start` what `out` held before the first of them.
fn append_field(
    out: &mut String,
    first: bool,
    key: &str,
    value: &str,
    Ghost(start): Ghost<Seq<char>>,
    Ghost(done): Ghost<Seq<Seq<char>>>,
)
    requires
        first == (done.len() == 0),
        old(out)@ == start + join(done, seq![',']),
    ensures
        final(out)@ == start + join(done.push(quoted_pair(key@, value@)), seq![',']),
{
    proof {
        lemma_join_push(done, seq![','], quoted_pair(key@, value@));
    }
    let ghost before = out@;
    if !first {
        push_char(out, ',');
        assert(out@ =~= before + seq![',']);
    }
    append_pair(out, key, value);
    assert(out@ =~= start + join(done.push(quoted_pair(key@, value@)), seq![',']));
}

/// Appends one record to `out`.
fn append_record(out: &mut String, window: &MinimizedWindow)
    ensures
        final(out)@ == old(out)@ + encoded_record(window@),
{
    let ghost before = out@;
    let ghost w = window@;
    let ghost pairs = record_pairs(w);
    push_char(out, '{');
    let ghost start = out@;
    let ghost done0 = Seq::<Seq<char>>::empty();
    assert(out@ =~= start + join(done0, seq![',']));
    append_field(out, true, "address", window.address.as_str(), Ghost(start), Ghost(done0));
    let ghost done1 = done0.push(pairs[0]);
    let display_title = escape_quotes(window.display_title.as_str());
    append_field(out, false, "display_title", display_title.as_str(), Ghost(start), Ghost(done1));
    let ghost done2 = done1.push(pairs[1]);
    append_field(out, false, "class", window.class.as_str(), Ghost(start), Ghost(done2));
    let ghost done3 = done2.push(pairs[2]);
    let original_title = escape_quotes(window.original_title.as_str());
    append_field(
        out,
        false,
        "original_title",
        original_title.as_str(),
        Ghost(start),
        Ghost(done3),
    );
    let ghost done4 = done3.push(pairs[3]);
    match &window.preview_path {
        Some(p) => {
            append_field(out, false, "preview", p.as_str(), Ghost(start), Ghost(done4));
        },
        None => {
            proof {
                reveal_strlit("");
                assert(""@ =~= Seq::<char>::empty());
            }
            append_field(out, false, "preview", "", Ghost(start), Ghost(done4));
        },
    }
    let ghost done5 = done4.push(pairs[4]);
    append_field(out, false, "icon", window.icon.as_str(), Ghost(start), Ghost(done5));
    let ghost done6 = done5.push(pairs[5]);
    assert(done6 =~= pairs);
    push_char(out, '}');
    assert(out@ =~= before + encoded_record(w));
}

/// Writes a collection of records as text.
pub fn create_json_output(windows: &[MinimizedWindow]) -> (output: String)
    ensures
        output@ == encoded(window_views(windows@)),
{
    let ghost records = window_views(windows@).map_values(|w: WindowView| encoded_record(w));
    let ghost comma = seq![','];
    let mut output = String::new();
    push_char(&mut output, '[');
    let mut i: usize = 0;
    assert(records.take(0) =~= Seq::<Seq<char>>::empty());
    assert(output@ =~= seq!['['] + join(records.take(0), comma));
    while i < windows.len()
        invariant
            i <= windows.len(),
            comma == seq![','],
            records == window_views(windows@).map_values(|w: WindowView| encoded_record(w)),
            output@ == seq!['['] + join(records.take(i as int), comma),
        decreases windows.len() - i,
    {
        let ghost before = output@;
        if i > 0 {
            push_char(&mut output, ',');
        }
        append_record(&mut output, &windows[i]);
        proof {
            assert(records.take(i + 1).drop_last() =~= records.take(i as int));
            assert(records.take(i + 1).last() == encoded_record(windows@[i as int]@));
            assert(output@ =~= seq!['['] + join(records.take(i + 1), comma));
        }
        i += 1;
    }
    assert(records.take(windows.len() as int) =~= records);
    push_char(&mut output, ']');
    output
}

/// The value of `key` in `info` as a string of its own, empty where the key
/// is not set.
fn field_or_empty(info: &WindowInfo, key: &str) -> (r: String)
    ensures
        r@ == value_or_empty(info@, key@),
{
    match info.get(key) {
        Some(v) => v.clone(),
        None => String::new(),
    }
}

/// Builds the record that a set of attributes stands for.
pub fn record_from_info(info: &WindowInfo) -> (r: MinimizedWindow)
    ensures
        r@ == record_of(info@),
{
    MinimizedWindow {
        address: field_or_empty(info, "address"),
        display_title: unescape_quotes(field_or_empty(info, "display_title").as_str()),
        class: field_or_empty(info, "class"),
        original_title: unescape_quotes(field_or_empty(info, "original_title").as_str()),
        preview_path: Some(field_or_empty(info, "preview")),
        icon: field_or_empty(info, "icon"),
    }
}

/// Reads a collection of records from its text.
///
/// Fails where the text, white space around it aside, is not wrapped in
/// square brackets. Everything between the brackets is read leniently: a
/// record lacks no field, a field that is not written is empty. The two
/// titles come back with the escape of their double quotes undone.
pub fn parse_windows_from_json(content: &str) -> (r: Result<Vec<MinimizedWindow>, ParseError>)
    ensures
        match r {
            Ok(windows) => decoded(content@) == Ok::<Seq<WindowView>, ParseError>(
                window_views(windows@),
            ),
            Err(e) => decoded(content@) == Err::<Seq<WindowView>, ParseError>(e),
        },
{
    let chars = chars_of(content);
    let t = trim(&chars, CharSet::Whitespace);
    if t.len() == 0 || t[0] != '[' {
        return Err(ParseError::NoOpeningBracket);
    }
    if t[t.len() - 1] != ']' {
        return Err(ParseError::NoClosingBracket);
    }
    let inner = subvec(&t, 1, t.len() - 1);
    let boundary: Vec<char> = vec!['}', ','];
    assert(boundary@ =~= seq!['}', ',']);
    let pieces = split_on(&inner, &boundary);
    let mut windows: Vec<MinimizedWindow> = Vec::new();
    let mut i: usize = 0;
    let ghost all = part_views(pieces@);
    assert(all.take(0) =~= Seq::<Seq<char>>::empty());
    assert(window_views(windows@) =~= Seq::<WindowView>::empty());
    while i < pieces.len()
        invariant
            i <= pieces.len(),
            all == part_views(pieces@),
            window_views(windows@) == decoded_pieces(all.take(i as int)),
        decreases pieces.len() - i,
    {
        let ghost before = window_views(windows@);
        proof {
            assert(all.take(i + 1).drop_last() =~= all.take(i as int));
            assert(all.take(i + 1).last() == pieces@[i as int]@);
        }
        let without_brackets = trim_end(&pieces[i], CharSet::Only(']'));
        let without_commas = trim_start(&without_brackets, CharSet::Only(','));
        let body = trim(&without_commas, CharSet::Whitespace);
        if body.len() > 0 {
            let info = parse_info_chars(&body);
            let window = record_from_info(&info);
            windows.push(window);
            assert(window_views(windows@) =~= before.push(window@));
        }
        i += 1;
    }
    assert(all.take(pieces.len() as int) =~= all);
    Ok(windows)
}

} // verus!
