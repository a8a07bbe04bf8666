//! Which KFX text runs become headings.
//!
//! A source `$790` level wins; then a heading-navigation level; then, for
//! navigation targets only, a few book-local style names and a matching
//! navigation label.
use vstd::prelude::*;
use std::collections::BTreeMap;
use crate::native::strs;
use crate::text::{
    chars_eq, chars_of, is_digit, lower, lower_chars, remove_spaces, string_from_chars, trim,
    trim_chars, without_spaces,
};

verus! {

/// `text` names a part: `part`, or `part` and ASCII digits, after trimming
/// and ASCII lower-casing.
pub open spec fn is_part_heading(text: Seq<char>) -> bool {
    let n = lower(trim(text));
    n == "part"@ || (n.len() > 4 && n.subrange(0, 4) == "part"@ && forall|k: int|
        4 <= k < n.len() ==> is_digit(#[trigger] n[k]))
}

pub fn kfx_is_part_heading(text: &str) -> (r: bool)
    ensures
        r == is_part_heading(text@),
{
    let chars = chars_of(text);
    let trimmed = trim_chars(chars.as_slice());
    let n = lower_chars(trimmed.as_slice());
    let part = chars_of("part");
    proof {
        reveal_strlit("part");
    }
    if chars_eq(n.as_slice(), part.as_slice()) {
        return true;
    }
    if n.len() <= 4 {
        return false;
    }
    if !(n[0] == 'p' && n[1] == 'a' && n[2] == 'r' && n[3] == 't') {
        assert(n@.subrange(0, 4) != "part"@) by {
            if n@.subrange(0, 4) == "part"@ {
                assert(n@[0] == n@.subrange(0, 4)[0]);
                assert(n@[1] == n@.subrange(0, 4)[1]);
                assert(n@[2] == n@.subrange(0, 4)[2]);
                assert(n@[3] == n@.subrange(0, 4)[3]);
            }
        }
        return false;
    }
    assert(n@.subrange(0, 4) =~= "part"@);
    let mut k: usize = 4;
    while k < n.len()
        invariant
            4 <= k <= n@.len(),
            "part"@.len() == 4,
            n@ == lower(trim(text@)),
            n@.len() > 4,
            n@.subrange(0, 4) == "part"@,
            forall|j: int| 4 <= j < k ==> is_digit(#[trigger] n@[j]),
        decreases n@.len() - k,
    {
        if !('0' <= n[k] && n[k] <= '9') {
            assert(!is_digit(n@[k as int]));
            assert(n@.len() != "part"@.len());
            return false;
        }
        k = k + 1;
    }
    true
}

/// The heading level that a book-local style name gives a navigation
/// target; an unknown style needs a matching navigation label.
pub open spec fn style_heading_level(style: Option<Seq<char>>, text: Seq<char>, label_matches: bool) -> Option<u8> {
    match style {
        Some(raw) => {
            let s = lower(raw);
            if s == "s1n"@ {
                Some(1)
            } else if s == "s33"@ || s == "s3e"@ || s == "s1ze"@ {
                Some(4)
            } else if s == "s1fb"@ || s == "s3ww"@ {
                Some(3)
            } else if s == "s37"@ && is_part_heading(text) {
                Some(3)
            } else if s == "s3b"@ {
                None
            } else if label_matches {
                Some(4)
            } else {
                None
            }
        },
        None => if label_matches {
            Some(4)
        } else {
            None
        },
    }
}

/// The heading level of a text run, if it is a heading.
pub open spec fn heading_level_spec(
    style: Option<Seq<char>>,
    text: Seq<char>,
    source_heading_level: Option<u8>,
    navigation_heading_level: Option<u8>,
    is_navigation_target: bool,
    is_toc_document: bool,
    navigation_label_matches: bool,
) -> Option<u8> {
    if is_toc_document {
        if is_navigation_target && trim(text) == "目录"@ {
            Some(4)
        } else {
            None
        }
    } else if source_heading_level is Some {
        source_heading_level
    } else if navigation_heading_level is Some {
        navigation_heading_level
    } else if !is_navigation_target {
        None
    } else {
        style_heading_level(style, text, navigation_label_matches)
    }
}

pub open spec fn opt_view(s: Option<&str>) -> Option<Seq<char>> {
    match s {
        Some(x) => Some(x@),
        None => None,
    }
}

fn lowered_is(s: &Vec<char>, lit: &str) -> (r: bool)
    ensures
        r == (s@ == lit@),
{
    let l = chars_of(lit);
    chars_eq(s.as_slice(), l.as_slice())
}

fn style_level(style: Option<&str>, text: &str, label_matches: bool) -> (r: Option<u8>)
    ensures
        r == style_heading_level(opt_view(style), text@, label_matches),
{
    match style {
        Some(raw) => {
            let chars = chars_of(raw);
            let s = lower_chars(chars.as_slice());
            if lowered_is(&s, "s1n") {
                Some(1)
            } else if lowered_is(&s, "s33") || lowered_is(&s, "s3e") || lowered_is(&s, "s1ze") {
                Some(4)
            } else if lowered_is(&s, "s1fb") || lowered_is(&s, "s3ww") {
                Some(3)
            } else if lowered_is(&s, "s37") && kfx_is_part_heading(text) {
                Some(3)
            } else if lowered_is(&s, "s3b") {
                None
            } else if label_matches {
                Some(4)
            } else {
                None
            }
        },
        None => if label_matches {
            Some(4)
        } else {
            None
        },
    }
}

/// Decides whether a KFX text run is a heading, and of which level.
pub fn kfx_heading_level(
    style_name: Option<&str>,
    text: &str,
    source_heading_level: Option<u8>,
    navigation_heading_level: Option<u8>,
    is_navigation_target: bool,
    is_toc_document: bool,
    navigation_label_matches: bool,
) -> (r: Option<u8>)
    ensures
        r == heading_level_spec(
            opt_view(style_name),
            text@,
            source_heading_level,
            navigation_heading_level,
            is_navigation_target,
            is_toc_document,
            navigation_label_matches,
        ),
{
    if is_toc_document {
        if is_navigation_target {
            let chars = chars_of(text);
            let trimmed = trim_chars(chars.as_slice());
            let toc = chars_of("目录");
            if chars_eq(trimmed.as_slice(), toc.as_slice()) {
                return Some(4);
            }
        }
        return None;
    }
    if source_heading_level.is_some() {
        return source_heading_level;
    }
    if navigation_heading_level.is_some() {
        return navigation_heading_level;
    }
    if !is_navigation_target {
        return None;
    }
    style_level(style_name, text, navigation_label_matches)
}

/// A label with all its whitespace removed.
pub fn normalized_kfx_label(value: &str) -> (r: String)
    ensures
        r@ == without_spaces(value@),
{
    let chars = chars_of(value);
    let kept = remove_spaces(chars.as_slice());
    string_from_chars(kept.as_slice())
}

/// Some navigation label of `position` equals `text`, whitespace aside.
pub open spec fn label_matches_spec(text: Seq<char>, position: Option<u32>, labels: Map<u32, Seq<Seq<char>>>) -> bool {
    match position {
        Some(p) => labels.contains_key(p) && some_label_matches(text, labels[p]),
        None => false,
    }
}

/// Some label of `labels` equals `text`, whitespace aside.
pub open spec fn some_label_matches(text: Seq<char>, labels: Seq<Seq<char>>) -> bool {
    exists|i: int| 0 <= i < labels.len() && without_spaces(#[trigger] labels[i]) == without_spaces(text)
}

pub open spec fn label_map_view(m: Map<u32, Vec<String>>) -> Map<u32, Seq<Seq<char>>> {
    m.map_values(|v: Vec<String>| strs(v@))
}

/// Whether the text of a run matches a navigation label of its position.
pub fn kfx_navigation_label_matches(
    text: &str,
    position: Option<u32>,
    navigation_labels: &BTreeMap<u32, Vec<String>>,
) -> (r: bool)
    ensures
        r == label_matches_spec(text@, position, label_map_view(navigation_labels@)),
{
    let pos = match position {
        Some(p) => p,
        None => {
            return false;
        },
    };
    let normalized_text = normalized_kfx_label(text);
    let ghost lv = label_map_view(navigation_labels@);
    let labels = match navigation_labels.get(&pos) {
        Some(labels) => labels,
        None => {
            assert(!lv.contains_key(pos));
            return false;
        },
    };
    assert(lv.contains_key(pos));
    assert(lv[pos] == strs(labels@));
    let mut i: usize = 0;
    while i < labels.len()
        invariant
            0 <= i <= labels@.len(),
            lv == label_map_view(navigation_labels@),
            position == Some(pos),
            lv.contains_key(pos),
            lv[pos] == strs(labels@),
            normalized_text@ == without_spaces(text@),
            forall|j: int| 0 <= j < i ==> without_spaces(#[trigger] labels@[j]@) != without_spaces(text@),
        decreases labels@.len() - i,
    {
        let candidate = normalized_kfx_label(labels[i].as_str());
        let a = chars_of(candidate.as_str());
        let b = chars_of(normalized_text.as_str());
        if chars_eq(a.as_slice(), b.as_slice()) {
            assert(lv[pos][i as int] == labels@[i as int]@);
            assert(without_spaces(lv[pos][i as int]) == without_spaces(text@));
            return true;
        }
        i = i + 1;
    }
    assert forall|j: int| 0 <= j < lv[pos].len() implies without_spaces(#[trigger] lv[pos][j]) != without_spaces(text@) by {
        assert(lv[pos][j] == labels@[j]@);
    }
    false
}

/// An explicit source heading level decides the heading, whatever the
/// style, the navigation and the labels say (outside a table of contents).
pub proof fn lemma_source_level_wins(
    style: Option<Seq<char>>,
    text: Seq<char>,
    level: u8,
    navigation_heading_level: Option<u8>,
    is_navigation_target: bool,
    navigation_label_matches: bool,
)
    ensures
        heading_level_spec(style, text, Some(level), navigation_heading_level, is_navigation_target, false, navigation_label_matches) == Some(level),
{
}

/// Without a source level or a heading-navigation level, only a navigation
/// target can become a heading: style names and labels alone never make one.
pub proof fn lemma_heading_needs_navigation_evidence(
    style: Option<Seq<char>>,
    text: Seq<char>,
    is_toc_document: bool,
    navigation_label_matches: bool,
)
    ensures
        heading_level_spec(style, text, None, None, false, is_toc_document, navigation_label_matches) is None,
{
}

/// A heading-navigation level is taken as it is: it is never inferred
/// from, nor changed by, whether a navigation label matches the text.
pub proof fn lemma_navigation_level_ignores_label(
    style: Option<Seq<char>>,
    text: Seq<char>,
    level: u8,
    is_navigation_target: bool,
    first: bool,
    second: bool,
)
    ensures
        heading_level_spec(style, text, None, Some(level), is_navigation_target, false, first) == Some(level),
        heading_level_spec(style, text, None, Some(level), is_navigation_target, false, second) == Some(level),
{
}

/// Navigation label matching ignores layout whitespace: two texts that
/// differ only in whitespace match the same labels.
pub proof fn lemma_label_match_ignores_whitespace(
    a: Seq<char>,
    b: Seq<char>,
    position: Option<u32>,
    labels: Map<u32, Seq<Seq<char>>>,
)
    requires
        without_spaces(a) == without_spaces(b),
    ensures
        label_matches_spec(a, position, labels) == label_matches_spec(b, position, labels),
{
}

} // verus!
