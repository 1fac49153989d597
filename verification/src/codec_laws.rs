//! What reading back a written collection gives.

use vstd::prelude::*;
use crate::codec::{
    decoded, decoded_piece, decoded_pieces, encoded, encoded_record, escaped,
    lemma_unescaped_escaped, quoted_pair, record_of, record_pairs, stripped_piece,
    value_or_empty, ParseError,
};
use crate::info::{cleaned, info_of_pairs};
use crate::record::WindowView;
use crate::text::{
    first_occurrence, is_whitespace, join, lemma_first_occurrence_absent,
    lemma_first_occurrence_found, lemma_join_push, occurs_at, split, split_once, trimmed,
    trimmed_end, trimmed_start, CharSet,
};
use crate::text_laws::{
    has_no, lemma_first_occurrence_char, lemma_first_occurrence_prefix, lemma_split_join,
    lemma_split_join_char,
};

verus! {

/// The records that are read back as they were written, the preview aside:
/// those of which no field holds a comma. Double quotes may stand anywhere.
pub open spec fn survives_storage(w: WindowView) -> bool {
    &&& has_no(w.address, ',')
    &&& has_no(w.display_title, ',')
    &&& has_no(w.class, ',')
    &&& has_no(w.original_title, ',')
    &&& match w.preview_path {
        Some(p) => has_no(p, ','),
        None => true,
    }
    &&& has_no(w.icon, ',')
}

/// `w` with an empty preview in place of a missing one.
pub open spec fn with_preview(w: WindowView) -> WindowView {
    WindowView {
        preview_path: Some(
            match w.preview_path {
                Some(p) => p,
                None => Seq::empty(),
            },
        ),
        ..w
    }
}

/// `s` between two double quotes.
pub open spec fn in_quotes(s: Seq<char>) -> Seq<char> {
    seq!['"'] + s + seq!['"']
}

/// Escaping puts no comma into a text that holds none.
pub proof fn lemma_escaped_no_comma(s: Seq<char>)
    requires
        has_no(s, ','),
    ensures
        has_no(escaped(s), ','),
    decreases s.len(),
{
    if s.len() > 0 {
        let front = s.drop_last();
        assert forall|i: int| 0 <= i < front.len() implies front[i] != ',' by {
            assert(front[i] == s[i]);
        }
        lemma_escaped_no_comma(front);
        let e = escaped(s);
        let f = escaped(front);
        assert(s[s.len() - 1] != ',');
        assert forall|i: int| 0 <= i < e.len() implies e[i] != ',' by {
            if i < f.len() {
                assert(e[i] == f[i]);
            }
        }
    }
}

/// Cleaning a quoted text gives the text, whatever it holds.
pub proof fn lemma_cleaned_quoted(s: Seq<char>)
    ensures
        cleaned(in_quotes(s)) == s,
{
    let q = in_quotes(s);
    assert(q[0] == '"' && q.last() == '"');
    assert(!is_whitespace('"'));
    assert(trimmed_start(q, CharSet::Whitespace) == q);
    assert(trimmed_end(q, CharSet::Whitespace) == q);
    let rest = q.drop_first();
    assert(rest =~= s + seq!['"']);
    assert(rest.last() == '"');
    assert(rest.drop_last() =~= s);
}

/// A written pair splits at the colon behind its key, where the key holds
/// no colon.
pub proof fn lemma_pair_splits(key: Seq<char>, value: Seq<char>)
    requires
        has_no(key, ':'),
    ensures
        split_once(quoted_pair(key, value), seq![':']) == Some(
            (in_quotes(key), in_quotes(value)),
        ),
{
    let a = in_quotes(key);
    let b = in_quotes(value);
    let pair = quoted_pair(key, value);
    assert(has_no(a, ':'));
    lemma_first_occurrence_char(a, ':');
    lemma_first_occurrence_prefix(a + seq![':'], b, seq![':'], a.len() as int);
    assert(pair =~= (a + seq![':']) + b);
    assert(pair.subrange(0, a.len() as int) =~= a);
    assert(pair.subrange(a.len() as int + 1, pair.len() as int) =~= b);
}

/// One more written pair sets its key to its value.
pub proof fn lemma_info_push(pairs: Seq<Seq<char>>, key: Seq<char>, value: Seq<char>)
    requires
        has_no(key, ':'),
    ensures
        info_of_pairs(pairs.push(quoted_pair(key, value))) == info_of_pairs(pairs).insert(
            key,
            value,
        ),
{
    lemma_pair_splits(key, value);
    lemma_cleaned_quoted(key);
    lemma_cleaned_quoted(value);
    assert(pairs.push(quoted_pair(key, value)).drop_last() =~= pairs);
}


/// A key that is read back as it was written: it holds neither comma nor
/// colon.
pub open spec fn plain_key(key: Seq<char>) -> bool {
    has_no(key, ',') && has_no(key, ':')
}

/// The keys of a record, in the order they are written.
pub open spec fn record_keys() -> Seq<Seq<char>> {
    seq!["address"@, "display_title"@, "class"@, "original_title"@, "preview"@, "icon"@]
}

/// The six keys of a record are plain and differ from one another.
pub proof fn lemma_record_keys()
    ensures
        forall|i: int| 0 <= i < 6 ==> plain_key(#[trigger] record_keys()[i]),
        forall|i: int, j: int|
            0 <= i < j < 6 ==> #[trigger] record_keys()[i] != #[trigger] record_keys()[j],
{
    reveal_strlit("address");
    reveal_strlit("display_title");
    reveal_strlit("class");
    reveal_strlit("original_title");
    reveal_strlit("preview");
    reveal_strlit("icon");
    assert("address"@.len() == 7 && "display_title"@.len() == 13 && "class"@.len() == 5);
    assert("original_title"@.len() == 14 && "preview"@.len() == 7 && "icon"@.len() == 4);
    assert("address"@[0] != "preview"@[0]);
}

/// The attributes that the pairs of a record set are the record's fields,
/// the two titles in their escaped form; the record they stand for is the
/// record that was written.
pub proof fn lemma_record_info(w: WindowView)
    ensures
        record_of(info_of_pairs(record_pairs(w))) == with_preview(w),
{
    lemma_record_keys();
    let keys = record_keys();
    assert(keys[0] == "address"@ && keys[1] == "display_title"@ && keys[2] == "class"@);
    assert(keys[3] == "original_title"@ && keys[4] == "preview"@ && keys[5] == "icon"@);
    lemma_unescaped_escaped(w.display_title);
    lemma_unescaped_escaped(w.original_title);
    let display_title = escaped(w.display_title);
    let original_title = escaped(w.original_title);
    let preview = match w.preview_path {
        Some(p) => p,
        None => Seq::empty(),
    };
    let pairs = record_pairs(w);
    let s0 = Seq::<Seq<char>>::empty();
    let s1 = s0.push(pairs[0]);
    let s2 = s1.push(pairs[1]);
    let s3 = s2.push(pairs[2]);
    let s4 = s3.push(pairs[3]);
    let s5 = s4.push(pairs[4]);
    let s6 = s5.push(pairs[5]);
    assert(s6 =~= pairs);
    lemma_info_push(s0, "address"@, w.address);
    lemma_info_push(s1, "display_title"@, display_title);
    lemma_info_push(s2, "class"@, w.class);
    lemma_info_push(s3, "original_title"@, original_title);
    lemma_info_push(s4, "preview"@, preview);
    lemma_info_push(s5, "icon"@, w.icon);
    let info = info_of_pairs(pairs);
    assert(info_of_pairs(s0) == Map::<Seq<char>, Seq<char>>::empty());
    assert(info == Map::<Seq<char>, Seq<char>>::empty().insert("address"@, w.address).insert(
        "display_title"@,
        display_title,
    ).insert("class"@, w.class).insert("original_title"@, original_title).insert(
        "preview"@,
        preview,
    ).insert("icon"@, w.icon));
    assert(value_or_empty(info, "address"@) == w.address);
    assert(value_or_empty(info, "display_title"@) == display_title);
    assert(value_or_empty(info, "class"@) == w.class);
    assert(value_or_empty(info, "original_title"@) == original_title);
    assert(value_or_empty(info, "preview"@) == preview);
    assert(value_or_empty(info, "icon"@) == w.icon);
}

/// Whether `s` begins and ends with a double quote and holds no comma.
pub open spec fn quoted_part(s: Seq<char>) -> bool {
    s.len() > 0 && s[0] == '"' && s.last() == '"' && has_no(s, ',')
}

/// Whether `s` begins and ends with a double quote and has a double quote
/// before each of its commas.
pub open spec fn quoted_list(s: Seq<char>) -> bool {
    &&& s.len() > 0
    &&& s[0] == '"'
    &&& s.last() == '"'
    &&& forall|j: int| 0 <= j < s.len() && #[trigger] s[j] == ',' ==> j > 0 && s[j - 1] == '"'
}

/// Quoted parts joined by commas make a quoted list.
pub proof fn lemma_join_quoted(parts: Seq<Seq<char>>)
    requires
        parts.len() > 0,
        forall|i: int| 0 <= i < parts.len() ==> quoted_part(#[trigger] parts[i]),
    ensures
        quoted_list(join(parts, seq![','])),
    decreases parts.len(),
{
    if parts.len() > 1 {
        let front = join(parts.drop_last(), seq![',']);
        assert forall|i: int| 0 <= i < parts.drop_last().len() implies quoted_part(
            #[trigger] parts.drop_last()[i],
        ) by {
            assert(parts.drop_last()[i] == parts[i]);
        }
        lemma_join_quoted(parts.drop_last());
        let last = parts.last();
        assert(quoted_part(last));
        let whole = join(parts, seq![',']);
        assert(whole =~= front + seq![','] + last);
        assert forall|j: int| 0 <= j < whole.len() && #[trigger] whole[j] == ',' implies j > 0
            && whole[j - 1] == '"' by {
            if j < front.len() {
                assert(whole[j] == front[j]);
                assert(whole[j - 1] == front[j - 1]);
            } else if j == front.len() {
                assert(whole[j - 1] == front.last());
            } else {
                assert(whole[j] == last[j - front.len() - 1]);
            }
        }
    } else {
        assert(quoted_part(parts[0]));
    }
}

/// The pairs of a record that survives storage are quoted parts.
pub proof fn lemma_record_pairs_quoted(w: WindowView)
    requires
        survives_storage(w),
    ensures
        record_pairs(w).len() == 6,
        forall|i: int| 0 <= i < 6 ==> quoted_part(#[trigger] record_pairs(w)[i]),
{
    lemma_record_keys();
    let keys = record_keys();
    assert(keys[0] == "address"@ && keys[1] == "display_title"@ && keys[2] == "class"@);
    assert(keys[3] == "original_title"@ && keys[4] == "preview"@ && keys[5] == "icon"@);
    lemma_escaped_no_comma(w.display_title);
    lemma_escaped_no_comma(w.original_title);
    let pairs = record_pairs(w);
    assert forall|i: int| 0 <= i < 6 implies quoted_part(#[trigger] pairs[i]) by {
        let (key, value) = if i == 0 {
            ("address"@, w.address)
        } else if i == 1 {
            ("display_title"@, escaped(w.display_title))
        } else if i == 2 {
            ("class"@, w.class)
        } else if i == 3 {
            ("original_title"@, escaped(w.original_title))
        } else if i == 4 {
            (
                "preview"@,
                match w.preview_path {
                    Some(p) => p,
                    None => Seq::empty(),
                },
            )
        } else {
            ("icon"@, w.icon)
        };
        assert(pairs[i] == quoted_pair(key, value));
        lemma_quoted_pair_part(key, value);
    }
}

/// A written pair is a quoted part, where neither key nor value holds a
/// comma.
pub proof fn lemma_quoted_pair_part(key: Seq<char>, value: Seq<char>)
    requires
        has_no(key, ','),
        has_no(value, ','),
    ensures
        quoted_part(quoted_pair(key, value)),
{
    let pair = quoted_pair(key, value);
    assert(pair[0] == '"');
    assert(pair.last() == '"');
    assert forall|j: int| 0 <= j < pair.len() implies pair[j] != ',' by {
        if j < 1 {
        } else if j < 1 + key.len() {
            assert(pair[j] == key[j - 1]);
        } else if j < 1 + key.len() + 3 {
        } else if j < 1 + key.len() + 3 + value.len() {
            assert(pair[j] == value[j - 1 - key.len() - 3]);
        } else {
        }
    }
}

/// The pairs of a record, joined by commas.
pub open spec fn record_body(w: WindowView) -> Seq<char> {
    join(record_pairs(w), seq![','])
}

/// The text of a record that survives storage reads back as the record,
/// with or without its closing brace.
pub proof fn lemma_decoded_record(w: WindowView, closed: bool)
    requires
        survives_storage(w),
    ensures
        decoded_piece(
            if closed {
                encoded_record(w)
            } else {
                seq!['{'] + record_body(w)
            },
        ) == Some(with_preview(w)),
{
    let body = record_body(w);
    let open = seq!['{'] + body;
    let piece = if closed {
        encoded_record(w)
    } else {
        open
    };
    lemma_record_pairs_quoted(w);
    lemma_join_quoted(record_pairs(w));
    assert forall|i: int| 0 <= i < record_pairs(w).len() implies has_no(
        #[trigger] record_pairs(w)[i],
        ',',
    ) by {
        assert(quoted_part(record_pairs(w)[i]));
    }
    lemma_split_join_char(record_pairs(w), ',');
    lemma_record_info(w);
    assert(piece[0] == '{');
    assert(piece.last() == '"' || piece.last() == '}');
    assert(!is_whitespace('{') && !is_whitespace('}') && !is_whitespace('"'));
    assert(trimmed_end(piece, CharSet::Only(']')) == piece);
    assert(trimmed_start(piece, CharSet::Only(',')) == piece);
    assert(trimmed_start(piece, CharSet::Whitespace) == piece);
    assert(trimmed_end(piece, CharSet::Whitespace) == piece);
    assert(stripped_piece(piece) == piece);
    let braces = CharSet::Braces;
    let rest = piece.drop_first();
    assert(rest[0] == body[0]);
    assert(trimmed_start(rest, braces) == rest);
    assert(trimmed_start(piece, braces) == rest);
    if closed {
        assert(rest =~= body + seq!['}']);
        assert(rest.drop_last() =~= body);
        assert(trimmed_end(body, braces) == body);
        assert(trimmed_end(rest, braces) == body);
    } else {
        assert(rest =~= body);
        assert(trimmed_end(body, braces) == body);
    }
    assert(trimmed(piece, braces) == body);
}


/// A record's text without its closing brace.
pub open spec fn opened_record(w: WindowView) -> Seq<char> {
    seq!['{'] + record_body(w)
}

/// In the text of a record that survives storage no closing brace stands
/// before a comma, and none would if a comma followed the text without its
/// closing brace.
pub proof fn lemma_record_boundary(w: WindowView)
    requires
        survives_storage(w),
    ensures
        first_occurrence(opened_record(w) + seq!['}', ','], seq!['}', ',']) == Some(
            opened_record(w).len() as int,
        ),
        first_occurrence(encoded_record(w), seq!['}', ',']) is None,
{
    let body = record_body(w);
    let x = opened_record(w);
    let sep = seq!['}', ','];
    let y = x + sep;
    let z = encoded_record(w);
    lemma_record_pairs_quoted(w);
    lemma_join_quoted(record_pairs(w));
    assert(quoted_list(body));
    assert(y.subrange(x.len() as int, x.len() as int + 2) =~= sep);
    assert forall|j: int| 0 <= j < x.len() implies !occurs_at(y, sep, j) by {
        if occurs_at(y, sep, j) {
            let m = y.subrange(j, j + 2);
            assert(m[0] == '}' && m[1] == ',');
            assert(y[j] == '}' && y[j + 1] == ',');
            if j + 1 < x.len() {
                assert(y[j + 1] == body[j]);
                assert(j > 0 && body[j - 1] == '"');
                assert(y[j] == body[j - 1]);
            } else {
                assert(y[j] == body.last());
            }
        }
    }
    lemma_first_occurrence_found(y, sep, 0, x.len() as int);
    assert(z =~= x + seq!['}']);
    assert forall|j: int| 0 <= j implies !occurs_at(z, sep, j) by {
        if occurs_at(z, sep, j) {
            let m = z.subrange(j, j + 2);
            assert(m[0] == '}' && m[1] == ',');
            assert(z[j] == '}' && z[j + 1] == ',');
            if j + 1 < x.len() {
                assert(z[j + 1] == body[j]);
                assert(j > 0 && body[j - 1] == '"');
                assert(z[j] == body[j - 1]);
            } else {
                assert(z[j + 1] == '}');
            }
        }
    }
    lemma_first_occurrence_absent(z, sep, 0);
}

/// Records joined by commas are the same text as the records without their
/// closing braces joined by `},`, with one closing brace at the end.
pub proof fn lemma_rejoin(ws: Seq<WindowView>)
    requires
        ws.len() > 0,
    ensures
        join(ws.map_values(|w: WindowView| encoded_record(w)), seq![',']) == join(
            ws.map_values(|w: WindowView| opened_record(w)),
            seq!['}', ','],
        ) + seq!['}'],
    decreases ws.len(),
{
    let closed = ws.map_values(|w: WindowView| encoded_record(w));
    let opened = ws.map_values(|w: WindowView| opened_record(w));
    if ws.len() > 1 {
        lemma_rejoin(ws.drop_last());
        assert(closed.drop_last() =~= ws.drop_last().map_values(
            |w: WindowView| encoded_record(w),
        ));
        assert(opened.drop_last() =~= ws.drop_last().map_values(
            |w: WindowView| opened_record(w),
        ));
        assert(closed.last() =~= opened.last() + seq!['}']);
        assert(join(closed, seq![',']) =~= join(opened, seq!['}', ',']) + seq!['}']);
    } else {
        assert(closed[0] =~= opened[0] + seq!['}']);
    }
}

/// Records without their closing braces read back as the records.
pub proof fn lemma_decoded_opened(ws: Seq<WindowView>)
    requires
        forall|i: int| 0 <= i < ws.len() ==> survives_storage(#[trigger] ws[i]),
    ensures
        decoded_pieces(ws.map_values(|w: WindowView| opened_record(w))) == ws.map_values(
            |w: WindowView| with_preview(w),
        ),
    decreases ws.len(),
{
    let opened = ws.map_values(|w: WindowView| opened_record(w));
    let kept = ws.map_values(|w: WindowView| with_preview(w));
    if ws.len() > 0 {
        lemma_decoded_opened(ws.drop_last());
        assert(opened.drop_last() =~= ws.drop_last().map_values(
            |w: WindowView| opened_record(w),
        ));
        lemma_decoded_record(ws.last(), false);
        assert(kept =~= ws.drop_last().map_values(|w: WindowView| with_preview(w)).push(
            with_preview(ws.last()),
        ));
    } else {
        assert(kept =~= Seq::<WindowView>::empty());
    }
}

/// Reading back a written collection gives its records in the same order,
/// each as it was but for an empty preview in place of a missing one,
/// where every record survives storage.
pub proof fn lemma_round_trip(ws: Seq<WindowView>)
    requires
        forall|i: int| 0 <= i < ws.len() ==> survives_storage(#[trigger] ws[i]),
    ensures
        decoded(encoded(ws)) == Ok::<Seq<WindowView>, ParseError>(
            ws.map_values(|w: WindowView| with_preview(w)),
        ),
{
    let closed = ws.map_values(|w: WindowView| encoded_record(w));
    let joined = join(closed, seq![',']);
    let text = encoded(ws);
    let sep = seq!['}', ','];
    let kept = ws.map_values(|w: WindowView| with_preview(w));
    assert(text[0] == '[' && text.last() == ']');
    assert(!is_whitespace('[') && !is_whitespace(']'));
    assert(trimmed_start(text, CharSet::Whitespace) == text);
    assert(trimmed_end(text, CharSet::Whitespace) == text);
    assert(text.subrange(1, text.len() - 1) =~= joined);
    if ws.len() == 0 {
        let none = Seq::<char>::empty();
        assert(joined == none);
        lemma_first_occurrence_absent(none, sep, 0);
        let pieces = seq![none];
        assert(split(none, sep) == pieces);
        assert(pieces.drop_last() =~= Seq::<Seq<char>>::empty());
        assert(trimmed_end(none, CharSet::Only(']')) == none);
        assert(trimmed_start(none, CharSet::Only(',')) == none);
        assert(trimmed(none, CharSet::Whitespace) == none);
        assert(decoded_piece(none) is None);
        assert(pieces.last() == none);
        assert(decoded_pieces(pieces.drop_last()) =~= Seq::<WindowView>::empty());
        assert(decoded_pieces(pieces) =~= kept);
    } else {
        let opened = ws.map_values(|w: WindowView| opened_record(w));
        let front = opened.drop_last();
        let last = ws.last();
        let pieces = front.push(encoded_record(last));
        lemma_rejoin(ws);
        lemma_join_push(front, sep, encoded_record(last));
        lemma_join_push(front, sep, opened_record(last));
        assert(front.push(opened_record(last)) =~= opened);
        assert(encoded_record(last) =~= opened_record(last) + seq!['}']);
        assert(joined =~= join(pieces, sep));
        assert forall|i: int| 0 <= i < pieces.len() - 1 implies first_occurrence(
            #[trigger] pieces[i] + sep,
            sep,
        ) == Some(pieces[i].len() as int) by {
            assert(pieces[i] == opened_record(ws[i]));
            lemma_record_boundary(ws[i]);
        }
        lemma_record_boundary(last);
        lemma_split_join(pieces, sep);
        assert(pieces.drop_last() =~= front);
        assert(front =~= ws.drop_last().map_values(|w: WindowView| opened_record(w)));
        lemma_decoded_opened(ws.drop_last());
        lemma_decoded_record(last, true);
        assert(kept =~= ws.drop_last().map_values(|w: WindowView| with_preview(w)).push(
            with_preview(last),
        ));
    }
}

/// Reading back a written collection gives the collection, field for field
/// and in the same order, where every record survives storage and has a
/// preview.
pub proof fn lemma_round_trip_exact(ws: Seq<WindowView>)
    requires
        forall|i: int|
            0 <= i < ws.len() ==> survives_storage(#[trigger] ws[i]) && ws[i].preview_path
                is Some,
    ensures
        decoded(encoded(ws)) == Ok::<Seq<WindowView>, ParseError>(ws),
{
    lemma_round_trip(ws);
    assert(ws.map_values(|w: WindowView| with_preview(w)) =~= ws);
}

} // verus!
