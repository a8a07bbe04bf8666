//! The text-event audit, once decoding has run: the source features that
//! were seen, a content-free summary of the text stream, and one record per
//! captured text event.
use vstd::prelude::*;
use vstd::utf8::encode_utf8;
use crate::links::KfxTextStyleEvent;
use crate::decode::opt_string_view;
use crate::digest::{sha256, sha256_digest};
use crate::media::{hex_lower, hex_spec};
use crate::text::{owned, chars_of, string_from_chars, decimal, decimal_into, lemma_decimal_digits};
use crate::text_digest::{normalized_text, normalized_text_digest};
use crate::strset::{string_views, sorted_unique, lex_lt, lemma_lex_irreflexive, StringSet};
use crate::counts::CountMap;
use crate::placement::{tally, lemma_tally_domain};
use crate::resource_audit::lemma_filter_card;
use crate::reading::{ordered_content_fragment_indices, ordered_content_trace_locations, trace_locations_spec, location_map_view};
use std::collections::BTreeMap;
use crate::native::{NativeFragment, NativeModel, NativeModelView, FragmentView, fragment_views, table_views};
use crate::reading::{ordered_content_spec, TraceLocationView, STORY_FRAGMENT_TYPE, SECTION_FRAGMENT_TYPE, FIELD_CONTENT_FRAGMENT_SYMBOL};
use crate::content::{sat, count_field, count_field_occurrences, linked_note, contains_linked_note_display, illustrated_image, contains_illustrated_image_structure, ruby_text_spec, ruby_content_text};
use crate::evidence::{conditional_spec, render_inline_spec, audit_conditional_evidence, audit_render_inline_evidence};
use crate::ion::{IonModel, models, lemma_models_index};
use crate::value::{field_of, items_of, int_field, int_field_of, struct_get, list_items};
use crate::decode::FIELD_TEXT_VALUES;

verus! {

/// What the native tree shows before decoding: candidates for features
/// whose meaning is not yet proved.
#[derive(Clone, Copy, Debug)]
pub struct TextFeatureCandidates {
    pub conditional: bool,
    pub render_inline: bool,
    pub note: bool,
    pub math: bool,
    pub illustrated: bool,
    pub ruby: bool,
}

/// What decoding produced: which semantic roles the book holds, and
/// whether any image was placed.
#[derive(Clone, Copy, Debug)]
pub struct SemanticRoles {
    pub footnotes: bool,
    pub mathml: bool,
    pub figure: bool,
    pub image: bool,
    pub text: bool,
    pub native_image_occurrences: bool,
}

pub open spec fn pair_views(s: Seq<(String, String)>) -> Seq<(Seq<char>, Seq<char>)> {
    s.map_values(|p: (String, String)| (p.0@, p.1@))
}

/// The state of the illustrated layout: mapped when decoding found figures,
/// approximated when a candidate came out as image and text, else unknown.
pub open spec fn illustrated_state(c: TextFeatureCandidates, s: SemanticRoles) -> Seq<char> {
    if s.figure {
        "Mapped"@
    } else if c.illustrated && s.image && s.text {
        "Approximated"@
    } else {
        "Unknown"@
    }
}

pub open spec fn push_if(out: Seq<(Seq<char>, Seq<char>)>, cond: bool, key: Seq<char>, state: Seq<char>) -> Seq<(Seq<char>, Seq<char>)> {
    if cond { out.push((key, state)) } else { out }
}

/// The disposition of each feature met, in ascending order of name.
pub open spec fn feature_states_spec(c: TextFeatureCandidates, s: SemanticRoles) -> Seq<(Seq<char>, Seq<char>)> {
    let a = push_if(Seq::empty(), c.conditional, "conditional_content"@, "Unknown"@);
    let b = push_if(a, c.note || s.footnotes, "footnotes"@, if s.footnotes { "Mapped"@ } else { "Unknown"@ });
    let d = push_if(b, c.illustrated || s.figure, "illustrated_layout"@, illustrated_state(c, s));
    let e = push_if(d, c.math || s.mathml, "mathml"@, if s.mathml { "Mapped"@ } else { "Unknown"@ });
    let f = push_if(e, c.render_inline, "non_image_render_inline"@, "Unknown"@);
    push_if(f, c.ruby, "ruby"@, "Mapped"@)
}

/// The state recorded for `key`, if any (the last entry for it).
pub open spec fn state_of(states: Seq<(Seq<char>, Seq<char>)>, key: Seq<char>) -> Option<Seq<char>>
    decreases states.len(),
{
    if states.len() == 0 {
        None
    } else if states.last().0 == key {
        Some(states.last().1)
    } else {
        state_of(states.drop_last(), key)
    }
}

proof fn lemma_state_of_push_if(out: Seq<(Seq<char>, Seq<char>)>, cond: bool, k: Seq<char>, v: Seq<char>, key: Seq<char>)
    ensures
        state_of(push_if(out, cond, k, v), key) == (if cond && k == key { Some(v) } else { state_of(out, key) }),
{
    if cond {
        assert(out.push((k, v)).drop_last() =~= out);
    }
}

proof fn lemma_feature_names_differ()
    ensures
        "conditional_content"@ != "footnotes"@,
        "illustrated_layout"@ != "footnotes"@,
        "mathml"@ != "footnotes"@,
        "non_image_render_inline"@ != "footnotes"@,
        "ruby"@ != "footnotes"@,
        "conditional_content"@ != "mathml"@,
        "illustrated_layout"@ != "mathml"@,
        "non_image_render_inline"@ != "mathml"@,
        "ruby"@ != "mathml"@,
        "conditional_content"@ != "illustrated_layout"@,
        "non_image_render_inline"@ != "illustrated_layout"@,
        "ruby"@ != "illustrated_layout"@,
        "non_image_render_inline"@ != "ruby"@,
        "conditional_content"@ != "ruby"@,
        "non_image_render_inline"@ != "conditional_content"@,
        "conditional_content"@ != "non_image_render_inline"@,
{
    reveal_strlit("conditional_content");
    reveal_strlit("footnotes");
    reveal_strlit("illustrated_layout");
    reveal_strlit("mathml");
    reveal_strlit("non_image_render_inline");
    reveal_strlit("ruby");
    assert("conditional_content"@[0] != "footnotes"@[0]);
    assert("illustrated_layout"@[0] != "footnotes"@[0]);
    assert("mathml"@[0] != "footnotes"@[0]);
    assert("non_image_render_inline"@[0] != "footnotes"@[0]);
    assert("ruby"@[0] != "footnotes"@[0]);
    assert("conditional_content"@[0] != "mathml"@[0]);
    assert("illustrated_layout"@[0] != "mathml"@[0]);
    assert("non_image_render_inline"@[0] != "mathml"@[0]);
    assert("ruby"@[0] != "mathml"@[0]);
    assert("conditional_content"@[0] != "illustrated_layout"@[0]);
    assert("non_image_render_inline"@[0] != "illustrated_layout"@[0]);
    assert("ruby"@[0] != "illustrated_layout"@[0]);
    assert("non_image_render_inline"@[0] != "ruby"@[0]);
    assert("conditional_content"@[0] != "ruby"@[0]);
    assert("non_image_render_inline"@[0] != "conditional_content"@[0]);
}

proof fn lemma_push_name_if_contains(out: Seq<Seq<char>>, cond: bool, name: Seq<char>, x: Seq<char>)
    ensures
        push_name_if(out, cond, name).contains(x) <==> (out.contains(x) || (cond && x == name)),
{
    if cond {
        let o = out.push(name);
        assert(o[out.len() as int] == name);
        if o.contains(x) {
            let i = choose|i: int| 0 <= i < o.len() && o[i] == x;
            if i < out.len() {
                assert(out[i] == x);
            }
        }
        if out.contains(x) {
            let i = choose|i: int| 0 <= i < out.len() && out[i] == x;
            assert(o[i] == x);
        }
    }
}

/// The features left undecoded: the creator fields always; footnotes and
/// MathML only when a candidate was seen and decoding found none;
/// conditional content and render-inline whenever seen.
pub proof fn lemma_undecoded_follow_decoding(c: TextFeatureCandidates, s: SemanticRoles)
    ensures
        undecoded_spec(c, s).contains("creator"@),
        undecoded_spec(c, s).contains("creator_version"@),
        undecoded_spec(c, s).contains("footnotes"@) <==> (c.note && !s.footnotes),
        undecoded_spec(c, s).contains("mathml"@) <==> (c.math && !s.mathml),
        undecoded_spec(c, s).contains("conditional_content"@) <==> c.conditional,
        undecoded_spec(c, s).contains("non_image_render_inline"@) <==> c.render_inline,
{
    lemma_feature_names_differ();
    reveal_strlit("creator");
    reveal_strlit("creator_version");
    reveal_strlit("footnotes");
    reveal_strlit("mathml");
    reveal_strlit("conditional_content");
    reveal_strlit("non_image_render_inline");
    reveal_strlit("illustrated_layout");
    let names = seq!["footnotes"@, "mathml"@, "conditional_content"@, "non_image_render_inline"@];
    assert forall|i: int| 0 <= i < names.len() implies #[trigger] names[i] != "creator"@ && names[i] != "creator_version"@ by {
        assert(names[i].len() != "creator"@.len());
        assert(names[i].len() != "creator_version"@.len());
    }
    assert(names[0] == "footnotes"@ && names[1] == "mathml"@ && names[2] == "conditional_content"@ && names[3] == "non_image_render_inline"@);
    let a = seq!["creator"@, "creator_version"@];
    let b = push_name_if(a, c.conditional, "conditional_content"@);
    let d = push_name_if(b, c.illustrated && illustrated_state(c, s) == "Unknown"@, "illustrated_layout"@);
    let e = push_name_if(d, c.note && !s.footnotes, "footnotes"@);
    let f = push_name_if(e, c.render_inline, "non_image_render_inline"@);
    let g = push_name_if(f, c.math && !s.mathml, "mathml"@);
    assert(a[0] == "creator"@);
    assert(a[1] == "creator_version"@);
    assert forall|x: Seq<char>| #[trigger] g.contains(x) <==> (a.contains(x) || (c.conditional && x == "conditional_content"@)
        || (c.illustrated && illustrated_state(c, s) == "Unknown"@ && x == "illustrated_layout"@)
        || (c.note && !s.footnotes && x == "footnotes"@) || (c.render_inline && x == "non_image_render_inline"@)
        || (c.math && !s.mathml && x == "mathml"@)) by {
        lemma_push_name_if_contains(a, c.conditional, "conditional_content"@, x);
        lemma_push_name_if_contains(b, c.illustrated && illustrated_state(c, s) == "Unknown"@, "illustrated_layout"@, x);
        lemma_push_name_if_contains(d, c.note && !s.footnotes, "footnotes"@, x);
        lemma_push_name_if_contains(e, c.render_inline, "non_image_render_inline"@, x);
        lemma_push_name_if_contains(f, c.math && !s.mathml, "mathml"@, x);
    }
    assert(a.contains("creator"@)) by { assert(a[0] == "creator"@); }
    assert(a.contains("creator_version"@)) by { assert(a[1] == "creator_version"@); }
    assert forall|x: Seq<char>| names.contains(x) implies !a.contains(x) by {
        let i = choose|i: int| 0 <= i < names.len() && names[i] == x;
        if a.contains(x) {
            let j = choose|j: int| 0 <= j < a.len() && a[j] == x;
        }
    }
    assert(names.contains("footnotes"@)) by { assert(names[0] == "footnotes"@); }
    assert(names.contains("mathml"@)) by { assert(names[1] == "mathml"@); }
    assert(names.contains("conditional_content"@)) by { assert(names[2] == "conditional_content"@); }
    assert(names.contains("non_image_render_inline"@)) by { assert(names[3] == "non_image_render_inline"@); }
    assert(g.contains("creator"@));
    assert(g.contains("creator_version"@));
}

/// The disposition of each feature follows what decoding found: footnotes
/// and MathML are `Mapped` when the book holds them and `Unknown` when only
/// a candidate was seen; illustrated layout is `Mapped` with figures,
/// `Approximated` when a candidate came out as image and text, else
/// `Unknown`; ruby is always `Mapped`; conditional content and non-image
/// render-inline are `Unknown`. A feature neither seen nor decoded has no
/// state.
pub proof fn lemma_feature_states_follow_decoding(c: TextFeatureCandidates, s: SemanticRoles)
    ensures
        s.footnotes ==> state_of(feature_states_spec(c, s), "footnotes"@) == Some("Mapped"@),
        !s.footnotes && c.note ==> state_of(feature_states_spec(c, s), "footnotes"@) == Some("Unknown"@),
        !s.footnotes && !c.note ==> state_of(feature_states_spec(c, s), "footnotes"@) is None,
        s.mathml ==> state_of(feature_states_spec(c, s), "mathml"@) == Some("Mapped"@),
        !s.mathml && c.math ==> state_of(feature_states_spec(c, s), "mathml"@) == Some("Unknown"@),
        !s.mathml && !c.math ==> state_of(feature_states_spec(c, s), "mathml"@) is None,
        s.figure ==> state_of(feature_states_spec(c, s), "illustrated_layout"@) == Some("Mapped"@),
        !s.figure && c.illustrated && s.image && s.text
            ==> state_of(feature_states_spec(c, s), "illustrated_layout"@) == Some("Approximated"@),
        !s.figure && c.illustrated && !(s.image && s.text)
            ==> state_of(feature_states_spec(c, s), "illustrated_layout"@) == Some("Unknown"@),
        !s.figure && !c.illustrated ==> state_of(feature_states_spec(c, s), "illustrated_layout"@) is None,
        c.ruby <==> state_of(feature_states_spec(c, s), "ruby"@) == Some("Mapped"@),
        !c.ruby ==> state_of(feature_states_spec(c, s), "ruby"@) is None,
        c.conditional <==> state_of(feature_states_spec(c, s), "conditional_content"@) == Some("Unknown"@),
        !c.conditional ==> state_of(feature_states_spec(c, s), "conditional_content"@) is None,
        c.render_inline <==> state_of(feature_states_spec(c, s), "non_image_render_inline"@) == Some("Unknown"@),
        !c.render_inline ==> state_of(feature_states_spec(c, s), "non_image_render_inline"@) is None,
{
    lemma_feature_names_differ();
    reveal_strlit("Mapped");
    reveal_strlit("Unknown");
    reveal_strlit("Approximated");
    assert("Mapped"@[0] != "Unknown"@[0]);
    let a = push_if(Seq::empty(), c.conditional, "conditional_content"@, "Unknown"@);
    let b = push_if(a, c.note || s.footnotes, "footnotes"@, if s.footnotes { "Mapped"@ } else { "Unknown"@ });
    let d = push_if(b, c.illustrated || s.figure, "illustrated_layout"@, illustrated_state(c, s));
    let e = push_if(d, c.math || s.mathml, "mathml"@, if s.mathml { "Mapped"@ } else { "Unknown"@ });
    let f = push_if(e, c.render_inline, "non_image_render_inline"@, "Unknown"@);
    let keys = seq!["footnotes"@, "mathml"@, "illustrated_layout"@, "ruby"@, "conditional_content"@, "non_image_render_inline"@];
    assert forall|i: int| 0 <= i < keys.len() implies {
        let key = #[trigger] keys[i];
        &&& state_of(feature_states_spec(c, s), key) == (if c.ruby && "ruby"@ == key { Some("Mapped"@) } else { state_of(f, key) })
        &&& state_of(f, key) == (if c.render_inline && "non_image_render_inline"@ == key { Some("Unknown"@) } else { state_of(e, key) })
        &&& state_of(e, key) == (if (c.math || s.mathml) && "mathml"@ == key { Some(if s.mathml { "Mapped"@ } else { "Unknown"@ }) } else { state_of(d, key) })
        &&& state_of(d, key) == (if (c.illustrated || s.figure) && "illustrated_layout"@ == key { Some(illustrated_state(c, s)) } else { state_of(b, key) })
        &&& state_of(b, key) == (if (c.note || s.footnotes) && "footnotes"@ == key { Some(if s.footnotes { "Mapped"@ } else { "Unknown"@ }) } else { state_of(a, key) })
        &&& state_of(a, key) == (if c.conditional && "conditional_content"@ == key { Some("Unknown"@) } else { state_of(Seq::empty(), key) })
    } by {
        let key = keys[i];
        lemma_state_of_push_if(f, c.ruby, "ruby"@, "Mapped"@, key);
        lemma_state_of_push_if(e, c.render_inline, "non_image_render_inline"@, "Unknown"@, key);
        lemma_state_of_push_if(d, c.math || s.mathml, "mathml"@, if s.mathml { "Mapped"@ } else { "Unknown"@ }, key);
        lemma_state_of_push_if(b, c.illustrated || s.figure, "illustrated_layout"@, illustrated_state(c, s), key);
        lemma_state_of_push_if(a, c.note || s.footnotes, "footnotes"@, if s.footnotes { "Mapped"@ } else { "Unknown"@ }, key);
        lemma_state_of_push_if(Seq::empty(), c.conditional, "conditional_content"@, "Unknown"@, key);
    }
    assert(keys[0] == "footnotes"@);
    assert(keys[1] == "mathml"@);
    assert(keys[2] == "illustrated_layout"@);
    assert(keys[3] == "ruby"@);
    assert(keys[4] == "conditional_content"@);
    assert(keys[5] == "non_image_render_inline"@);
}

pub open spec fn push_name_if(out: Seq<Seq<char>>, cond: bool, name: Seq<char>) -> Seq<Seq<char>> {
    if cond { out.push(name) } else { out }
}

/// The features that were seen and not decoded, in the order they are
/// checked; the creator fields are never decoded.
pub open spec fn undecoded_spec(c: TextFeatureCandidates, s: SemanticRoles) -> Seq<Seq<char>> {
    let a = seq!["creator"@, "creator_version"@];
    let b = push_name_if(a, c.conditional, "conditional_content"@);
    let d = push_name_if(b, c.illustrated && illustrated_state(c, s) == "Unknown"@, "illustrated_layout"@);
    let e = push_name_if(d, c.note && !s.footnotes, "footnotes"@);
    let f = push_name_if(e, c.render_inline, "non_image_render_inline"@);
    push_name_if(f, c.math && !s.mathml, "mathml"@)
}

fn push_state(out: &mut Vec<(String, String)>, cond: bool, key: &str, state: &str)
    ensures
        pair_views(final(out)@) == push_if(pair_views(old(out)@), cond, key@, state@),
{
    if cond {
        let ghost before = out@;
        out.push((owned(key), owned(state)));
        assert(pair_views(out@) =~= pair_views(before).push((key@, state@)));
    }
}

fn push_name(out: &mut Vec<String>, cond: bool, name: &str)
    ensures
        string_views(final(out)@) == push_name_if(string_views(old(out)@), cond, name@),
{
    if cond {
        let ghost before = out@;
        out.push(owned(name));
        assert(string_views(out@) =~= string_views(before).push(name@));
    }
}

/// The feature dispositions and the undecoded features of a text audit.
pub fn text_feature_states(c: TextFeatureCandidates, s: SemanticRoles) -> (r: (Vec<(String, String)>, Vec<String>))
    ensures
        pair_views(r.0@) == feature_states_spec(c, s),
        string_views(r.1@) == undecoded_spec(c, s),
{
    proof {
        reveal_strlit("Mapped");
        reveal_strlit("Unknown");
        reveal_strlit("Approximated");
    }
    let illustrated: &str = if s.figure {
        "Mapped"
    } else if c.illustrated && s.image && s.text {
        "Approximated"
    } else {
        "Unknown"
    };
    let mut states: Vec<(String, String)> = Vec::new();
    assert(pair_views(states@) =~= Seq::<(Seq<char>, Seq<char>)>::empty());
    push_state(&mut states, c.conditional, "conditional_content", "Unknown");
    push_state(&mut states, c.note || s.footnotes, "footnotes", if s.footnotes { "Mapped" } else { "Unknown" });
    push_state(&mut states, c.illustrated || s.figure, "illustrated_layout", illustrated);
    push_state(&mut states, c.math || s.mathml, "mathml", if s.mathml { "Mapped" } else { "Unknown" });
    push_state(&mut states, c.render_inline, "non_image_render_inline", "Unknown");
    push_state(&mut states, c.ruby, "ruby", "Mapped");
    let mut undecoded: Vec<String> = Vec::new();
    undecoded.push(owned("creator"));
    undecoded.push(owned("creator_version"));
    assert(string_views(undecoded@) =~= seq!["creator"@, "creator_version"@]);
    push_name(&mut undecoded, c.conditional, "conditional_content");
    let still_unknown = !s.figure && !(c.illustrated && s.image && s.text);
    assert(still_unknown == (illustrated_state(c, s) == "Unknown"@)) by {
        reveal_strlit("Mapped");
        reveal_strlit("Unknown");
        reveal_strlit("Approximated");
        assert("Mapped"@[0] != "Unknown"@[0]);
        assert("Approximated"@[0] != "Unknown"@[0]);
    }
    push_name(&mut undecoded, c.illustrated && still_unknown, "illustrated_layout");
    push_name(&mut undecoded, c.note && !s.footnotes, "footnotes");
    push_name(&mut undecoded, c.render_inline, "non_image_render_inline");
    push_name(&mut undecoded, c.math && !s.mathml, "mathml");
    (states, undecoded)
}

/// One text event as decoding captured it.
#[derive(Debug)]
pub struct CapturedKfxTextEvent {
    pub section_id: Option<String>,
    pub story_id: Option<String>,
    pub source_fragment: String,
    pub source_fragment_order: usize,
    pub eid: u32,
    pub source_path: String,
    pub source_position: Option<u32>,
    pub text_kind: String,
    pub text: String,
    pub adjacent_style_events: Vec<KfxTextStyleEvent>,
}

/// The text events that decoding captured.
#[derive(Debug)]
pub struct TextEventCapture {
    pub include_private_text: bool,
    pub unresolved_text_reference_count: usize,
    pub events: Vec<CapturedKfxTextEvent>,
}

/// The audit record of one text event.
#[derive(Debug)]
pub struct KfxTextEvent {
    pub trace_id: String,
    pub section_id: Option<String>,
    pub story_id: Option<String>,
    pub source_fragment: String,
    pub source_fragment_order: usize,
    pub eid: u32,
    pub source_path: String,
    pub source_value_kind: String,
    pub source_position: Option<u32>,
    pub source_position_kind: String,
    pub text_len: usize,
    pub text_hash_raw_audit_only: String,
    pub context: String,
    pub context_basis: String,
    pub adjacent_style_events: Vec<KfxTextStyleEvent>,
    pub text: Option<String>,
}

/// A decimal numeral padded with zeros to at least six digits.
pub open spec fn pad6(d: Seq<char>) -> Seq<char> {
    if d.len() >= 6 {
        d
    } else {
        Seq::new((6 - d.len()) as nat, |i: int| '0') + d
    }
}

pub open spec fn raw_digest(t: Seq<char>) -> Seq<char> {
    hex_spec(sha256(encode_utf8(t)))
}

/// The record of the event at position `index` (from zero).
pub open spec fn event_ok(r: KfxTextEvent, index: nat, e: CapturedKfxTextEvent, include_private_text: bool) -> bool {
    &&& r.trace_id@ == "T"@ + pad6(decimal(index + 1))
    &&& opt_string_view(r.section_id) == opt_string_view(e.section_id)
    &&& opt_string_view(r.story_id) == opt_string_view(e.story_id)
    &&& r.source_fragment@ == e.source_fragment@
    &&& r.source_fragment_order == e.source_fragment_order
    &&& r.eid == e.eid
    &&& r.source_path@ == e.source_path@
    &&& r.source_value_kind@ == e.text_kind@
    &&& r.source_position == e.source_position
    &&& r.source_position_kind@ == if e.source_position is Some { "field_155_kfx_navigation_target_id"@ } else { "not_present"@ }
    &&& r.text_len == e.text@.len()
    &&& r.text_hash_raw_audit_only@ == raw_digest(e.text@)
    &&& r.context@ == if e.story_id is Some { "Story"@ } else { "Body"@ }
    &&& r.context_basis@ == if e.story_id is Some { "reading_order_section_story_reference"@ } else { "KFX_type_259_content_fragment"@ }
    &&& r.adjacent_style_events@ == e.adjacent_style_events@
    &&& opt_string_view(r.text) == if include_private_text { Some(e.text@) } else { None }
}

/// `prefix` and `n`, zero-padded to six digits.
pub fn trace_alias(prefix: &str, n: u64) -> (r: String)
    ensures
        r@ == prefix@ + pad6(decimal(n as nat)),
{
    let mut digits: Vec<char> = Vec::new();
    decimal_into(n, &mut digits);
    assert(digits@ =~= decimal(n as nat));
    let mut out = chars_of(prefix);
    let ghost p = out@;
    let mut z: usize = digits.len();
    while z < 6
        invariant
            digits@.len() <= z <= 6 || (z == digits@.len() && z >= 6),
            out@ == p + Seq::new((z - digits@.len()) as nat, |i: int| '0'),
        decreases 6 - z,
    {
        out.push('0');
        assert(out@ =~= p + Seq::new((z + 1 - digits@.len()) as nat, |i: int| '0'));
        z = z + 1;
    }
    let ghost q = out@;
    let mut i: usize = 0;
    while i < digits.len()
        invariant
            0 <= i <= digits@.len(),
            out@ == q + digits@.take(i as int),
        decreases digits@.len() - i,
    {
        out.push(digits[i]);
        assert(out@ =~= q + digits@.take(i + 1));
        i = i + 1;
    }
    proof {
        assert(digits@.take(i as int) =~= digits@);
        if digits@.len() >= 6 {
            assert(Seq::new(0nat, |i: int| '0') =~= Seq::<char>::empty());
            assert(out@ =~= prefix@ + pad6(decimal(n as nat)));
        } else {
            assert(out@ =~= prefix@ + pad6(decimal(n as nat)));
        }
    }
    string_from_chars(out.as_slice())
}

/// The SHA-256 of a text's UTF-8 bytes, in hexadecimal.
pub fn raw_text_digest(text: &str) -> (r: String)
    ensures
        r@ == raw_digest(text@),
{
    let bytes: &[u8] = text.as_bytes();
    let digest = sha256_digest(bytes);
    hex_lower(digest.as_slice())
}

/// The audit record of the captured event at position `index`.
pub fn text_event_record(index: usize, event: CapturedKfxTextEvent, include_private_text: bool) -> (r: KfxTextEvent)
    requires
        index < u64::MAX,
    ensures
        event_ok(r, index as nat, event, include_private_text),
{
    let ghost e = event;
    let trace_id = trace_alias("T", index as u64 + 1);
    proof {
        reveal_strlit("T");
    }
    let story = event.story_id.is_some();
    let text_len = chars_of(event.text.as_str()).len();
    let hash = raw_text_digest(event.text.as_str());
    KfxTextEvent {
        trace_id,
        section_id: event.section_id,
        story_id: event.story_id,
        source_fragment: event.source_fragment,
        source_fragment_order: event.source_fragment_order,
        eid: event.eid,
        source_path: event.source_path,
        source_value_kind: event.text_kind,
        source_position: event.source_position,
        source_position_kind: if event.source_position.is_some() {
            owned("field_155_kfx_navigation_target_id")
        } else {
            owned("not_present")
        },
        text_len,
        text_hash_raw_audit_only: hash,
        context: if story { owned("Story") } else { owned("Body") },
        context_basis: if story {
            owned("reading_order_section_story_reference")
        } else {
            owned("KFX_type_259_content_fragment")
        },
        adjacent_style_events: event.adjacent_style_events,
        text: if include_private_text { Some(event.text) } else { None },
    }
}

/// The content-free summary of the text stream.
#[derive(Debug)]
pub struct KfxTextStreamSummary {
    pub event_count: usize,
    pub unresolved_text_reference_count: usize,
    pub raw_unicode_scalar_count: usize,
    pub raw_sha256_audit_only: String,
    pub normalized_unicode_scalar_count: usize,
    pub normalized_sha256_audit_only: String,
}

/// The events' texts, one after another.
pub open spec fn event_text(s: Seq<CapturedKfxTextEvent>) -> Seq<char>
    decreases s.len(),
{
    if s.len() == 0 {
        Seq::empty()
    } else {
        event_text(s.drop_last()) + s.last().text@
    }
}

pub open spec fn stream_ok(r: KfxTextStreamSummary, events: Seq<CapturedKfxTextEvent>, unresolved: usize) -> bool {
    &&& r.event_count == events.len()
    &&& r.unresolved_text_reference_count == unresolved
    &&& r.raw_unicode_scalar_count == event_text(events).len()
    &&& r.raw_sha256_audit_only@ == raw_digest(event_text(events))
    &&& r.normalized_unicode_scalar_count == normalized_text(event_text(events)).len()
    &&& r.normalized_sha256_audit_only@ == hex_spec(sha256(encode_utf8(normalized_text(event_text(events)))))
}

/// Summarizes the text stream of the captured events.
pub fn text_stream_summary(events: &Vec<CapturedKfxTextEvent>, unresolved: usize) -> (r: KfxTextStreamSummary)
    ensures
        stream_ok(r, events@, unresolved),
{
    let mut joined: Vec<char> = Vec::new();
    let mut i: usize = 0;
    while i < events.len()
        invariant
            0 <= i <= events@.len(),
            joined@ == event_text(events@.take(i as int)),
        decreases events@.len() - i,
    {
        proof {
            assert(events@.take(i + 1).drop_last() =~= events@.take(i as int));
            assert(events@.take(i + 1).last() == events@[i as int]);
        }
        let piece = chars_of(events[i].text.as_str());
        let ghost base = joined@;
        let mut k: usize = 0;
        while k < piece.len()
            invariant
                0 <= k <= piece@.len(),
                joined@ == base + piece@.take(k as int),
            decreases piece@.len() - k,
        {
            joined.push(piece[k]);
            assert(joined@ =~= base + piece@.take(k + 1));
            k = k + 1;
        }
        assert(piece@.take(k as int) =~= piece@);
        i = i + 1;
    }
    assert(events@.take(i as int) =~= events@);
    let raw = string_from_chars(joined.as_slice());
    let (normalized_digest, normalized_count) = normalized_text_digest(raw.as_str());
    KfxTextStreamSummary {
        event_count: events.len(),
        unresolved_text_reference_count: unresolved,
        raw_unicode_scalar_count: joined.len(),
        raw_sha256_audit_only: raw_text_digest(raw.as_str()),
        normalized_unicode_scalar_count: normalized_count,
        normalized_sha256_audit_only: normalized_digest,
    }
}

pub const KFX_RUBY_CONTENT_FRAGMENT_TYPE: u32 = 756;
pub const FIELD_RUBY_ID: u64 = 758;
pub const FIELD_MATH_CONTENT: u64 = 683;

/// The positions of the fragments of type `t`, in order.
pub open spec fn positions_of_type(fs: Seq<FragmentView>, t: u32) -> Seq<usize>
    decreases fs.len(),
{
    if fs.len() == 0 {
        Seq::empty()
    } else {
        let prev = positions_of_type(fs.drop_last(), t);
        if fs.last().fragment_type == t { prev.push((fs.len() - 1) as usize) } else { prev }
    }
}

/// The content fragments in reading order, or in file order when there is
/// no reading order.
pub open spec fn content_order_spec(m: NativeModelView) -> Seq<usize> {
    match ordered_content_spec(m) {
        Some(v) => v,
        None => positions_of_type(m.fragments, STORY_FRAGMENT_TYPE),
    }
}

/// The story aliases of the content fragments emitted in order.
pub open spec fn emitted_stories(locs: Map<usize, TraceLocationView>, order: Seq<usize>) -> Seq<Seq<char>>
    decreases order.len(),
{
    if order.len() == 0 {
        Seq::empty()
    } else {
        let prev = emitted_stories(locs, order.drop_last());
        if locs.contains_key(order.last()) && locs[order.last()].story_id is Some {
            prev.push(locs[order.last()].story_id->0)
        } else {
            prev
        }
    }
}

/// The `$176` story references that section fragments make, added up.
pub open spec fn story_reference_total(fs: Seq<FragmentView>) -> nat
    decreases fs.len(),
{
    if fs.len() == 0 {
        0
    } else {
        story_reference_total(fs.drop_last()) + if fs.last().fragment_type == SECTION_FRAGMENT_TYPE {
            sat(count_field(fs.last().value, FIELD_CONTENT_FRAGMENT_SYMBOL)) as nat
        } else {
            0
        }
    }
}

/// A ruby entry: a non-negative `$758` id and a resolvable text.
pub open spec fn ruby_entry(e: IonModel, tables: Map<u32, Seq<Seq<char>>>) -> bool {
    &&& int_field(e, FIELD_RUBY_ID) matches Some(i) && i >= 0
    &&& ruby_text_spec(e, tables) is Some
}

/// The `$146` entries of a fragment.
pub open spec fn text_value_items(f: FragmentView) -> Option<Seq<IonModel>> {
    match field_of(f.value, FIELD_TEXT_VALUES) {
        Some(v) => items_of(v),
        None => None,
    }
}

pub open spec fn has_ruby_entry(items: Seq<IonModel>, tables: Map<u32, Seq<Seq<char>>>) -> bool {
    exists|k: int| 0 <= k < items.len() && #[trigger] ruby_entry(items[k], tables)
}

/// A ruby content fragment with at least one ruby entry in `$146`.
pub open spec fn ruby_fragment(f: FragmentView, tables: Map<u32, Seq<Seq<char>>>) -> bool {
    &&& f.fragment_type == KFX_RUBY_CONTENT_FRAGMENT_TYPE
    &&& text_value_items(f) matches Some(items) && has_ruby_entry(items, tables)
}

/// Some fragment declares ruby content.
pub open spec fn has_ruby_spec(m: NativeModelView) -> bool {
    exists|i: int| 0 <= i < m.fragments.len() && #[trigger] ruby_fragment(m.fragments[i], m.string_tables)
}

pub open spec fn candidates_spec(m: NativeModelView) -> TextFeatureCandidates {
    TextFeatureCandidates {
        conditional: !conditional_spec(m.fragments).field_counts.is_empty(),
        render_inline: !render_inline_spec(m.fragments).field_counts.is_empty(),
        note: exists|i: int| 0 <= i < m.fragments.len() && #[trigger] linked_note(m.fragments[i].value),
        math: exists|i: int| 0 <= i < m.fragments.len() && sat(count_field(#[trigger] m.fragments[i].value, FIELD_MATH_CONTENT)) > 0,
        illustrated: exists|i: int| 0 <= i < m.fragments.len() && m.fragments[i].fragment_type == STORY_FRAGMENT_TYPE
            && #[trigger] illustrated_image(m.fragments[i].value),
        ruby: has_ruby_spec(m),
    }
}

pub(crate) fn fragment_positions(fragments: &Vec<NativeFragment>, t: u32) -> (r: Vec<usize>)
    ensures
        r@ == positions_of_type(fragment_views(fragments@), t),
{
    let ghost fs = fragment_views(fragments@);
    let mut out: Vec<usize> = Vec::new();
    let mut i: usize = 0;
    while i < fragments.len()
        invariant
            0 <= i <= fragments@.len(),
            fs == fragment_views(fragments@),
            fs.len() == fragments@.len(),
            out@ == positions_of_type(fs.take(i as int), t),
        decreases fragments@.len() - i,
    {
        proof {
            assert(fs.take(i + 1).drop_last() =~= fs.take(i as int));
            assert(fs[i as int] == fragments@[i as int]@);
        }
        if fragments[i].fragment_type == t {
            out.push(i);
        }
        i = i + 1;
    }
    assert(fs.take(i as int) =~= fs);
    out
}

fn is_ruby_fragment(f: &NativeFragment, tables: &BTreeMap<u32, Vec<String>>) -> (r: bool)
    ensures
        r == ruby_fragment(f@, table_views(tables@)),
{
    if f.fragment_type != KFX_RUBY_CONTENT_FRAGMENT_TYPE {
        return false;
    }
    let v = match struct_get(&f.value, FIELD_TEXT_VALUES) {
        Some(v) => v,
        None => {
            return false;
        },
    };
    let items = match list_items(v) {
        Some(items) => items,
        None => {
            return false;
        },
    };
    let ghost ms = models(items@);
    proof {
        lemma_models_index(items@);
    }
    let mut k: usize = 0;
    while k < items.len()
        invariant
            0 <= k <= items@.len(),
            f@.fragment_type == KFX_RUBY_CONTENT_FRAGMENT_TYPE,
            field_of(f@.value, FIELD_TEXT_VALUES) == Some(v@),
            items_of(v@) == Some(ms),
            ms == models(items@),
            ms.len() == items@.len(),
            forall|j: int| 0 <= j < items@.len() ==> #[trigger] ms[j] == items@[j]@,
            forall|j: int| 0 <= j < k ==> !#[trigger] ruby_entry(ms[j], table_views(tables@)),
        decreases items@.len() - k,
    {
        let id_ok = match int_field_of(&items[k], FIELD_RUBY_ID) {
            Some(i) => i >= 0,
            None => false,
        };
        if id_ok && ruby_content_text(&items[k], tables).is_some() {
            assert(ruby_entry(ms[k as int], table_views(tables@)));
            assert(exists|j: int| 0 <= j < ms.len() && #[trigger] ruby_entry(ms[j], table_views(tables@)));
            assert(text_value_items(f@) == Some(ms));
            return true;
        }
        k = k + 1;
    }
    false
}

/// Whether some fragment declares ruby content.
pub fn has_ruby_contents(model: &NativeModel) -> (r: bool)
    ensures
        r == has_ruby_spec(model@),
{
    let ghost fs = model@.fragments;
    proof {
        assert(fragment_views(model.fragments@) == fs);
    }
    let mut i: usize = 0;
    while i < model.fragments.len()
        invariant
            0 <= i <= model.fragments@.len(),
            fs == model@.fragments,
            fs.len() == model.fragments@.len(),
            forall|j: int| 0 <= j < i ==> !#[trigger] ruby_fragment(fs[j], model@.string_tables),
        decreases model.fragments@.len() - i,
    {
        assert(fs[i as int] == model.fragments@[i as int]@);
        assert(table_views(model.string_tables@) == model@.string_tables);
        if is_ruby_fragment(&model.fragments[i], &model.string_tables) {
            assert(ruby_fragment(fs[i as int], model@.string_tables));
            return true;
        }
        i = i + 1;
    }
    false
}

/// The feature candidates of the native tree.
pub fn text_feature_candidates(model: &NativeModel) -> (r: TextFeatureCandidates)
    ensures
        r == candidates_spec(model@),
{
    let ghost fs = model@.fragments;
    proof {
        assert(fragment_views(model.fragments@) == fs);
    }
    let conditional = !audit_conditional_evidence(&model.fragments).candidate_field_occurrence_counts.is_empty();
    let render_inline = !audit_render_inline_evidence(&model.fragments).candidate_field_occurrence_counts.is_empty();
    let mut note = false;
    let mut math = false;
    let mut illustrated = false;
    let mut i: usize = 0;
    while i < model.fragments.len()
        invariant
            0 <= i <= model.fragments@.len(),
            fs == model@.fragments,
            fs.len() == model.fragments@.len(),
            note == exists|j: int| 0 <= j < i && #[trigger] linked_note(fs[j].value),
            math == exists|j: int| 0 <= j < i && sat(count_field(#[trigger] fs[j].value, FIELD_MATH_CONTENT)) > 0,
            illustrated == exists|j: int| 0 <= j < i && fs[j].fragment_type == STORY_FRAGMENT_TYPE
                && #[trigger] illustrated_image(fs[j].value),
        decreases model.fragments@.len() - i,
    {
        let f = &model.fragments[i];
        assert(fs[i as int] == f@);
        if contains_linked_note_display(&f.value) {
            assert(linked_note(fs[i as int].value));
            note = true;
        } else {
            assert(!linked_note(fs[i as int].value));
        }
        if count_field_occurrences(&f.value, FIELD_MATH_CONTENT) > 0 {
            assert(sat(count_field(fs[i as int].value, FIELD_MATH_CONTENT)) > 0);
            math = true;
        } else {
            assert(!(sat(count_field(fs[i as int].value, FIELD_MATH_CONTENT)) > 0));
        }
        if f.fragment_type == STORY_FRAGMENT_TYPE && contains_illustrated_image_structure(&f.value) {
            assert(illustrated_image(fs[i as int].value));
            illustrated = true;
        } else {
            assert(!(fs[i as int].fragment_type == STORY_FRAGMENT_TYPE && illustrated_image(fs[i as int].value)));
        }
        i = i + 1;
    }
    TextFeatureCandidates { conditional, render_inline, note, math, illustrated, ruby: has_ruby_contents(model) }
}

/// What the native tree shows of a book's stories and features.
#[derive(Debug)]
pub struct KfxTextSourceFeatures {
    pub has_stories: Option<bool>,
    pub story_definitions: usize,
    pub story_references: usize,
    pub stories_traversed_unique: usize,
    pub stories_emitted_more_than_once: usize,
    pub story_definitions_not_emitted: usize,
    pub has_conditional_content: Option<bool>,
    pub has_illustrated_layout: Option<bool>,
    pub has_image_occurrences: bool,
    pub has_footnotes: Option<bool>,
    pub has_non_image_render_inline: Option<bool>,
    pub has_ruby: Option<bool>,
    pub has_mathml: Option<bool>,
    pub creator: Option<String>,
    pub creator_version: Option<String>,
    /// Per-input disposition for semantic candidates observed in the native
    /// tree, limited to features encountered in this input so an absent
    /// feature is never mistaken for support.
    pub feature_states: Vec<(String, String)>,
    pub undecoded_features: Vec<String>,
}

/// The emitted story aliases of a model.
pub open spec fn emitted_of(m: NativeModelView) -> Seq<Seq<char>> {
    emitted_stories(trace_locations_spec(m), content_order_spec(m))
}

pub open spec fn repeated(e: Seq<Seq<char>>) -> spec_fn(Seq<char>) -> bool {
    |k: Seq<char>| tally(e)[k] > 1
}

/// The source features the native tree shows before decoding.
pub open spec fn native_features_ok(r: KfxTextSourceFeatures, m: NativeModelView) -> bool {
    let defs = positions_of_type(m.fragments, STORY_FRAGMENT_TYPE).len();
    let refs = story_reference_total(m.fragments);
    let e = emitted_of(m);
    let c = candidates_spec(m);
    &&& r.has_stories == Some(defs > 0 || refs > 0)
    &&& r.story_definitions == defs
    &&& r.story_references == refs
    &&& r.stories_traversed_unique == e.to_set().len()
    &&& r.stories_emitted_more_than_once == e.to_set().filter(repeated(e)).len()
    &&& r.story_definitions_not_emitted == if defs >= e.to_set().len() { defs - e.to_set().len() } else { 0 }
    &&& r.has_conditional_content == Some(c.conditional)
    &&& r.has_illustrated_layout is None
    &&& !r.has_image_occurrences
    &&& r.has_footnotes is None
    &&& r.has_non_image_render_inline == Some(c.render_inline)
    &&& r.has_ruby == Some(c.ruby)
    &&& r.has_mathml is None
    &&& r.creator is None
    &&& r.creator_version is None
    &&& r.feature_states@.len() == 0
    &&& r.undecoded_features@.len() == 0
}

proof fn lemma_story_refs_prefix(fs: Seq<FragmentView>, i: int)
    requires
        0 <= i <= fs.len(),
    ensures
        story_reference_total(fs.take(i)) <= story_reference_total(fs),
    decreases fs.len() - i,
{
    if i < fs.len() {
        lemma_story_refs_prefix(fs, i + 1);
        assert(fs.take(i + 1).drop_last() =~= fs.take(i));
    } else {
        assert(fs.take(i) =~= fs);
    }
}

pub proof fn lemma_sorted_no_duplicates(s: Seq<Seq<char>>)
    requires
        sorted_unique(s),
    ensures
        s.no_duplicates(),
{
    assert forall|i: int, j: int| 0 <= i < s.len() && 0 <= j < s.len() && i != j implies s[i] != s[j] by {
        if i < j {
            assert(lex_lt(s[i], s[j]));
            if s[i] == s[j] {
                lemma_lex_irreflexive(s[i]);
            }
        } else {
            assert(lex_lt(s[j], s[i]));
            if s[i] == s[j] {
                lemma_lex_irreflexive(s[j]);
            }
        }
    }
}

fn story_references(fragments: &Vec<NativeFragment>) -> (r: usize)
    requires
        story_reference_total(fragment_views(fragments@)) <= usize::MAX,
    ensures
        r == story_reference_total(fragment_views(fragments@)),
{
    let ghost fs = fragment_views(fragments@);
    let mut total: usize = 0;
    let mut i: usize = 0;
    while i < fragments.len()
        invariant
            0 <= i <= fragments@.len(),
            fs == fragment_views(fragments@),
            fs.len() == fragments@.len(),
            story_reference_total(fs) <= usize::MAX,
            total == story_reference_total(fs.take(i as int)),
        decreases fragments@.len() - i,
    {
        proof {
            assert(fs.take(i + 1).drop_last() =~= fs.take(i as int));
            assert(fs[i as int] == fragments@[i as int]@);
            lemma_story_refs_prefix(fs, i + 1);
        }
        if fragments[i].fragment_type == SECTION_FRAGMENT_TYPE {
            total = total + count_field_occurrences(&fragments[i].value, FIELD_CONTENT_FRAGMENT_SYMBOL);
        }
        i = i + 1;
    }
    assert(fs.take(i as int) =~= fs);
    total
}

/// The source features of the native tree, as they stand before decoding,
/// with the candidates the features are decided from.
pub fn text_source_features(model: &NativeModel) -> (r: (KfxTextSourceFeatures, TextFeatureCandidates))
    requires
        story_reference_total(model@.fragments) <= usize::MAX,
    ensures
        native_features_ok(r.0, model@),
        r.1 == candidates_spec(model@),
{
    let ghost m = model@;
    proof {
        assert(fragment_views(model.fragments@) == m.fragments);
    }
    let order: Vec<usize> = match ordered_content_fragment_indices(model) {
        Some(v) => v,
        None => fragment_positions(&model.fragments, STORY_FRAGMENT_TYPE),
    };
    let locations = ordered_content_trace_locations(model);
    let ghost locs = location_map_view(locations@);
    let mut seen = StringSet::new();
    let mut counts = CountMap::new();
    let mut i: usize = 0;
    while i < order.len()
        invariant
            0 <= i <= order@.len(),
            order@ == content_order_spec(m),
            locs == location_map_view(locations@),
            locs == trace_locations_spec(m),
            seen.wf(),
            counts.wf(),
            seen.set() == emitted_stories(locs, order@.take(i as int)).to_set(),
            counts.counts() == tally(emitted_stories(locs, order@.take(i as int))),
        decreases order@.len() - i,
    {
        let ghost prev = emitted_stories(locs, order@.take(i as int));
        proof {
            assert(order@.take(i + 1).drop_last() =~= order@.take(i as int));
            assert(order@.take(i + 1).last() == order@[i as int]);
        }
        match locations.get(&order[i]) {
            Some(loc) => {
                assert(locs.contains_key(order@[i as int]) && locs[order@[i as int]] == loc@);
                match &loc.story_id {
                    Some(story) => {
                        proof {
                            assert(prev.push(story@).drop_last() =~= prev);
                            assert(prev.push(story@).to_set() =~= prev.to_set().insert(story@)) by {
                                assert forall|x: Seq<char>| prev.push(story@).to_set().contains(x) implies prev.to_set().insert(story@).contains(x) by {
                                    let k = choose|k: int| 0 <= k < prev.push(story@).len() && prev.push(story@)[k] == x;
                                    if k < prev.len() {
                                        assert(prev[k] == x);
                                    }
                                }
                                assert forall|x: Seq<char>| prev.to_set().insert(story@).contains(x) implies prev.push(story@).to_set().contains(x) by {
                                    if x == story@ {
                                        assert(prev.push(story@)[prev.len() as int] == x);
                                    } else {
                                        let k = choose|k: int| 0 <= k < prev.len() && prev[k] == x;
                                        assert(prev.push(story@)[k] == x);
                                    }
                                }
                            }
                        }
                        seen.insert_str(story.as_str());
                        counts.increment(story.as_str());
                    },
                    None => {},
                }
            },
            None => {},
        }
        i = i + 1;
    }
    assert(order@.take(i as int) =~= order@);
    let ghost e = emitted_of(m);
    let unique = seen.len();
    let keys = seen.to_vec();
    let ghost kv = string_views(keys@);
    proof {
        lemma_sorted_no_duplicates(kv);
        lemma_tally_domain(e);
    }
    let mut repeated_count: usize = 0;
    let mut k: usize = 0;
    while k < keys.len()
        invariant
            0 <= k <= keys@.len(),
            kv == string_views(keys@),
            kv.len() == keys@.len(),
            counts.wf(),
            counts.counts() == tally(e),
            tally(e).dom() == e.to_set(),
            kv.to_set() == e.to_set(),
            repeated_count == kv.take(k as int).filter(repeated(e)).len(),
            repeated_count <= k,
        decreases keys@.len() - k,
    {
        proof {
            assert(kv.take(k + 1) =~= kv.take(k as int).push(kv[k as int]));
            kv.take(k as int).lemma_filter_push(kv[k as int], repeated(e));
            assert(kv[k as int] == keys@[k as int]@);
            assert(kv.to_set().contains(kv[k as int]));
        }
        if counts.get(keys[k].as_str()) > 1 {
            repeated_count = repeated_count + 1;
        }
        k = k + 1;
    }
    proof {
        assert(kv.take(k as int) =~= kv);
        lemma_filter_card(kv, repeated(e));
    }
    let defs_positions = fragment_positions(&model.fragments, STORY_FRAGMENT_TYPE);
    let definitions = defs_positions.len();
    let references = story_references(&model.fragments);
    let candidates = text_feature_candidates(model);
    let features = KfxTextSourceFeatures {
        has_stories: Some(definitions > 0 || references > 0),
        story_definitions: definitions,
        story_references: references,
        stories_traversed_unique: unique,
        stories_emitted_more_than_once: repeated_count,
        story_definitions_not_emitted: if definitions >= unique { definitions - unique } else { 0 },
        has_conditional_content: Some(candidates.conditional),
        has_illustrated_layout: None,
        has_image_occurrences: false,
        has_footnotes: None,
        has_non_image_render_inline: Some(candidates.render_inline),
        has_ruby: Some(candidates.ruby),
        has_mathml: None,
        creator: None,
        creator_version: None,
        feature_states: Vec::new(),
        undecoded_features: Vec::new(),
    };
    (features, candidates)
}

/// The text-event audit of one input.
#[derive(Debug)]
pub struct KfxTextEventAudit {
    pub schema_version: u32,
    pub input_sha256_audit_only: String,
    pub status: String,
    pub source_features: KfxTextSourceFeatures,
    pub stream: KfxTextStreamSummary,
    pub events: Vec<KfxTextEvent>,
}

/// The source features once decoding has run: the roles it found decide
/// footnotes, MathML and illustrated layout, and the feature dispositions.
pub open spec fn decoded_features_ok(r: KfxTextSourceFeatures, before: KfxTextSourceFeatures, c: TextFeatureCandidates, s: SemanticRoles) -> bool {
    &&& r.has_stories == before.has_stories
    &&& r.story_definitions == before.story_definitions
    &&& r.story_references == before.story_references
    &&& r.stories_traversed_unique == before.stories_traversed_unique
    &&& r.stories_emitted_more_than_once == before.stories_emitted_more_than_once
    &&& r.story_definitions_not_emitted == before.story_definitions_not_emitted
    &&& r.has_conditional_content == before.has_conditional_content
    &&& r.has_non_image_render_inline == before.has_non_image_render_inline
    &&& r.has_ruby == before.has_ruby
    &&& r.creator == before.creator
    &&& r.creator_version == before.creator_version
    &&& r.has_footnotes == Some(s.footnotes)
    &&& r.has_mathml == Some(s.mathml || c.math)
    &&& r.has_illustrated_layout == Some(s.figure || c.illustrated)
    &&& r.has_image_occurrences == s.native_image_occurrences
    &&& pair_views(r.feature_states@) == feature_states_spec(c, s)
    &&& string_views(r.undecoded_features@) == undecoded_spec(c, s)
}

pub open spec fn text_audit_ok(
    r: KfxTextEventAudit,
    bytes: Seq<u8>,
    features: KfxTextSourceFeatures,
    c: TextFeatureCandidates,
    capture: TextEventCapture,
    s: SemanticRoles,
) -> bool {
    &&& r.schema_version == 1
    &&& r.input_sha256_audit_only@ == hex_spec(sha256(bytes))
    &&& r.status@ == "Complete"@
    &&& decoded_features_ok(r.source_features, features, c, s)
    &&& stream_ok(r.stream, capture.events@, capture.unresolved_text_reference_count)
    &&& r.events@.len() == capture.events@.len()
    &&& forall|k: int| 0 <= k < r.events@.len() ==> event_ok(#[trigger] r.events@[k], k as nat, capture.events@[k], capture.include_private_text)
}

/// The text-event audit of `bytes`, from the source features and
/// candidates taken before decoding, the text events decoding captured, and
/// the roles decoding found.
pub fn text_event_audit(
    bytes: &[u8],
    features: KfxTextSourceFeatures,
    candidates: TextFeatureCandidates,
    capture: TextEventCapture,
    roles: SemanticRoles,
) -> (r: KfxTextEventAudit)
    ensures
        text_audit_ok(r, bytes@, features, candidates, capture, roles),
{
    let ghost cap = capture;
    let stream = text_stream_summary(&capture.events, capture.unresolved_text_reference_count);
    let private_text = capture.include_private_text;
    let n = capture.events.len();
    let mut rest = capture.events;
    let mut reversed: Vec<CapturedKfxTextEvent> = Vec::new();
    while rest.len() > 0
        invariant
            rest@.len() + reversed@.len() == n,
            n == cap.events@.len(),
            rest@ == cap.events@.take(rest@.len() as int),
            forall|k: int| 0 <= k < reversed@.len() ==> #[trigger] reversed@[k] == cap.events@[n - 1 - k],
        decreases rest@.len(),
    {
        let ghost before = rest@;
        let x = rest.pop().unwrap();
        assert(x == cap.events@[rest@.len() as int]) by {
            assert(before[rest@.len() as int] == x);
        }
        assert(rest@ =~= cap.events@.take(rest@.len() as int));
        reversed.push(x);
    }
    let mut events: Vec<KfxTextEvent> = Vec::new();
    while reversed.len() > 0
        invariant
            events@.len() + reversed@.len() == n,
            n == cap.events@.len(),
            private_text == cap.include_private_text,
            forall|k: int| 0 <= k < reversed@.len() ==> #[trigger] reversed@[k] == cap.events@[n - 1 - k],
            forall|k: int| 0 <= k < events@.len() ==> event_ok(#[trigger] events@[k], k as nat, cap.events@[k], private_text),
        decreases reversed@.len(),
    {
        let index = events.len();
        let x = reversed.pop().unwrap();
        assert(x == cap.events@[index as int]);
        let record = text_event_record(index, x, private_text);
        events.push(record);
    }
    let (states, undecoded) = text_feature_states(candidates, roles);
    let source_features = KfxTextSourceFeatures {
        has_footnotes: Some(roles.footnotes),
        has_mathml: Some(roles.mathml || candidates.math),
        has_illustrated_layout: Some(roles.figure || candidates.illustrated),
        feature_states: states,
        undecoded_features: undecoded,
        has_image_occurrences: roles.native_image_occurrences,
        ..features
    };
    let digest = sha256_digest(bytes);
    KfxTextEventAudit {
        schema_version: 1,
        input_sha256_audit_only: hex_lower(digest.as_slice()),
        status: owned("Complete"),
        source_features,
        stream,
        events,
    }
}

} // verus!
