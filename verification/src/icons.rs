//! The glyph that stands for an application: an ordered table of patterns,
//! matched against the window's class without regard to case.

use vstd::prelude::*;
use vstd::string::StringExecFns;
use crate::text::{chars_of, contains, contains_seq};

verus! {

/// One row of the table: windows whose class holds `pattern` get `glyph`.
#[derive(Debug)]
pub struct IconRule {
    pub pattern: String,
    pub glyph: String,
}

/// The rows in the order they are tried, and the glyph for a class that no
/// row matches.
#[derive(Debug)]
pub struct IconTable {
    pub rules: Vec<IconRule>,
    pub fallback: String,
}

/// The lowercase form of a text as Unicode defines it, which
/// `str::to_lowercase` computes.
pub uninterp spec fn lowercase(s: Seq<char>) -> Seq<char>;

/// The lowercase form of `s`.
///
/// Trusted: `str::to_lowercase` returns the lowercase equivalent of the
/// whole text, which depends on the text alone.
#[verifier::external_body]
pub(crate) fn to_lowercase(s: &str) -> (r: String)
    ensures
        r@ == lowercase(s@),
{
    s.to_lowercase()
}

/// The index of the first of `patterns` that stands in `class`.
pub open spec fn first_match_from(class: Seq<char>, patterns: Seq<Seq<char>>, from: int) -> Option<
    int,
>
    decreases patterns.len() - from,
{
    if from < 0 || from >= patterns.len() {
        None
    } else if contains_seq(class, patterns[from]) {
        Some(from)
    } else {
        first_match_from(class, patterns, from + 1)
    }
}

/// The patterns of a list of rows, in lowercase.
pub open spec fn lowered_patterns(rules: Seq<(Seq<char>, Seq<char>)>) -> Seq<Seq<char>> {
    rules.map_values(|r: (Seq<char>, Seq<char>)| lowercase(r.0))
}

/// The glyph that a table gives a class: that of the first row whose
/// pattern, in lowercase, stands in the class in lowercase, or the fallback.
pub open spec fn selected_glyph(
    class: Seq<char>,
    rules: Seq<(Seq<char>, Seq<char>)>,
    fallback: Seq<char>,
) -> Seq<char> {
    match first_match_from(lowercase(class), lowered_patterns(rules), 0) {
        Some(i) => rules[i].1,
        None => fallback,
    }
}

/// The patterns and glyphs of the built-in table, in order.
pub open spec fn default_rules() -> Seq<(Seq<char>, Seq<char>)> {
    seq![
        ("firefox"@, ""@),
        ("Alacritty"@, ""@),
        ("discord"@, "\u{f066f}"@),
        ("Steam"@, ""@),
        ("chromium"@, ""@),
        ("code"@, "\u{f0a1e}"@),
        ("spotify"@, ""@),
        ("default"@, "\u{f05b2}"@),
    ]
}

/// The glyph of the built-in table for a class that no row matches.
pub open spec fn default_fallback() -> Seq<char> {
    "\u{f05b2}"@
}

/// The glyph that the built-in table gives a class.
pub open spec fn app_icon(class: Seq<char>) -> Seq<char> {
    selected_glyph(class, default_rules(), default_fallback())
}

/// The patterns and glyphs of a list of rules.
pub open spec fn rule_views(rules: Seq<IconRule>) -> Seq<(Seq<char>, Seq<char>)> {
    rules.map_values(|r: IconRule| (r.pattern@, r.glyph@))
}

fn rule(pattern: &str, glyph: &str) -> (r: IconRule)
    ensures
        r.pattern@ == pattern@,
        r.glyph@ == glyph@,
{
    IconRule { pattern: String::from_str(pattern), glyph: String::from_str(glyph) }
}

/// The built-in table.
pub fn default_icons() -> (table: IconTable)
    ensures
        rule_views(table.rules@) == default_rules(),
        table.fallback@ == default_fallback(),
{
    let mut rules: Vec<IconRule> = Vec::new();
    rules.push(rule("firefox", ""));
    rules.push(rule("Alacritty", ""));
    rules.push(rule("discord", "\u{f066f}"));
    rules.push(rule("Steam", ""));
    rules.push(rule("chromium", ""));
    rules.push(rule("code", "\u{f0a1e}"));
    rules.push(rule("spotify", ""));
    rules.push(rule("default", "\u{f05b2}"));
    assert(rule_views(rules@) =~= default_rules());
    IconTable { rules, fallback: String::from_str("\u{f05b2}") }
}

/// Finds the first of `patterns` that stands in `class`. Both are taken as
/// they are: a caller that wants case ignored hands in lowercase texts.
pub fn first_match(class: &str, patterns: &Vec<String>) -> (r: Option<usize>)
    ensures
        match r {
            Some(i) => {
                &&& i < patterns.len()
                &&& contains_seq(class@, patterns@[i as int]@)
                &&& forall|j: int| 0 <= j < i ==> !contains_seq(class@, patterns@[j]@)
            },
            None => forall|j: int| 0 <= j < patterns.len() ==> !contains_seq(class@, patterns@[j]@),
        },
{
    let text = chars_of(class);
    let mut i: usize = 0;
    while i < patterns.len()
        invariant
            i <= patterns.len(),
            text@ == class@,
            forall|j: int| 0 <= j < i ==> !contains_seq(class@, patterns@[j]@),
        decreases patterns.len() - i,
    {
        let pattern = chars_of(patterns[i].as_str());
        if contains(&text, &pattern) {
            return Some(i);
        }
        i += 1;
    }
    None
}

/// The first match from `from` is the first pattern at or after `from` that
/// stands in the class.
pub proof fn lemma_first_match(class: Seq<char>, patterns: Seq<Seq<char>>, from: int)
    requires
        0 <= from,
    ensures
        match first_match_from(class, patterns, from) {
            Some(i) => {
                &&& from <= i < patterns.len()
                &&& contains_seq(class, patterns[i])
                &&& forall|j: int| from <= j < i ==> !contains_seq(class, patterns[j])
            },
            None => forall|j: int| from <= j < patterns.len() ==> !contains_seq(class, patterns[j]),
        },
    decreases patterns.len() - from,
{
    if from < patterns.len() && !contains_seq(class, patterns[from]) {
        lemma_first_match(class, patterns, from + 1);
    }
}

/// Looks a class up in a table.
pub fn select_icon(class_name: &str, table: &IconTable) -> (glyph: String)
    ensures
        glyph@ == selected_glyph(class_name@, rule_views(table.rules@), table.fallback@),
{
    let class = to_lowercase(class_name);
    let mut patterns: Vec<String> = Vec::new();
    let mut i: usize = 0;
    while i < table.rules.len()
        invariant
            i <= table.rules.len(),
            patterns@.len() == i,
            forall|j: int| 0 <= j < i ==> patterns@[j]@ == lowercase(table.rules@[j].pattern@),
        decreases table.rules.len() - i,
    {
        patterns.push(to_lowercase(table.rules[i].pattern.as_str()));
        i += 1;
    }
    let ghost lowered = lowered_patterns(rule_views(table.rules@));
    proof {
        lemma_first_match(class@, lowered, 0);
    }
    match first_match(class.as_str(), &patterns) {
        Some(k) => {
            assert(first_match_from(class@, lowered, 0) == Some(k as int)) by {
                let found = first_match_from(class@, lowered, 0);
                assert(lowered[k as int] == patterns@[k as int]@);
                assert forall|j: int| 0 <= j < k implies !contains_seq(class@, lowered[j]) by {
                    assert(lowered[j] == patterns@[j]@);
                }
                if found is Some {
                    let f = found->0;
                    assert(lowered[f] == patterns@[f]@);
                }
            }
            table.rules[k].glyph.clone()
        },
        None => {
            assert(first_match_from(class@, lowered, 0) is None) by {
                let found = first_match_from(class@, lowered, 0);
                if found is Some {
                    let f = found->0;
                    assert(lowered[f] == patterns@[f]@);
                }
            }
            table.fallback.clone()
        },
    }
}

/// The glyph for a window of the given class, from the built-in table.
pub fn get_app_icon(class_name: &str) -> (glyph: String)
    ensures
        glyph@ == app_icon(class_name@),
{
    let table = default_icons();
    select_icon(class_name, &table)
}

} // verus!
