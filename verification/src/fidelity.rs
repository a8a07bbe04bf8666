//! The parts of the fidelity report that the native model alone decides:
//! what the containers hold and what the source declares.
use vstd::prelude::*;
use crate::native::{NativeModel, ContainerOwnedView, FragmentView, NativeModelView};
use crate::counts::{CountMap, bumped};
use crate::container::{ContainerHeader, container_header_spec, read_container_header};
use crate::text::{decimal, decimal_string, owned, trim, trim_chars, chars_of, lower, lower_chars, string_from_chars};
use crate::decode::{opt_string_view, recovery_actions, recovery_actions_spec};
use crate::error::ParseMode;
use crate::strset::{StringSet, string_views};
use crate::text::{contains_run, str_contains};
use crate::text_digest::KfxFidelityText;
use crate::evidence::KfxConditionalEvidence;
use crate::text_events::lemma_sorted_no_duplicates;
use crate::resource_audit::lemma_filter_card;
use crate::native::{strs, has_cont_prefix};
use crate::evidence::{ConditionalView, conditional_spec, audit_conditional_evidence};
use crate::inspect::{native_spec, parse_native};
use crate::error::{error_code, fidelity_error_code};
use crate::digest::{sha256, sha256_digest};
use crate::media::{hex_lower, hex_spec};
use crate::inspect::{entity_total, lemma_sat_step};
use crate::content::sat;

verus! {

/// Counts over the native model.
#[derive(Debug)]
pub struct KfxFidelityNative {
    pub container_count: usize,
    pub entity_count: usize,
    pub fragment_count: usize,
    pub fragment_type_counts: CountMap,
    pub unknown_fragment_count: usize,
    pub symbol_count: usize,
    pub string_table_count: usize,
    pub raw_resource_count: usize,
}

/// What the source declares of itself.
#[derive(Debug)]
pub struct KfxFidelitySource {
    pub format: String,
    pub container_version_counts: CountMap,
    pub language: Option<String>,
    /// The current importer does not reliably decode source layout metadata.
    pub layout: String,
}

/// How many fragments have each type, keyed by the type's decimal numeral.
pub open spec fn type_counts(fs: Seq<FragmentView>) -> Map<Seq<char>, usize>
    decreases fs.len(),
{
    if fs.len() == 0 {
        Map::empty()
    } else {
        bumped(type_counts(fs.drop_last()), decimal(fs.last().fragment_type as nat))
    }
}

/// The fragments of type zero (not identified).
pub open spec fn unknown_count(fs: Seq<FragmentView>) -> nat
    decreases fs.len(),
{
    if fs.len() == 0 {
        0
    } else {
        unknown_count(fs.drop_last()) + if fs.last().fragment_type == 0 { 1nat } else { 0nat }
    }
}

proof fn lemma_unknown_bound(fs: Seq<FragmentView>)
    ensures
        unknown_count(fs) <= fs.len(),
    decreases fs.len(),
{
    if fs.len() > 0 {
        lemma_unknown_bound(fs.drop_last());
    }
}

pub open spec fn native_ok(r: KfxFidelityNative, m: NativeModelView) -> bool {
    &&& r.container_count == m.containers.len()
    &&& r.entity_count == sat(entity_total(m.containers))
    &&& r.fragment_count == m.fragments.len()
    &&& r.fragment_type_counts.wf()
    &&& r.fragment_type_counts.counts() == type_counts(m.fragments)
    &&& r.unknown_fragment_count == unknown_count(m.fragments)
    &&& r.symbol_count == m.symbols.names.dom().len()
    &&& r.string_table_count == m.string_tables.dom().len()
    &&& r.raw_resource_count == m.resources.len()
}

/// The native counts of the fidelity report.
pub fn fidelity_native(model: &NativeModel) -> (r: KfxFidelityNative)
    ensures
        native_ok(r, model@),
{
    let ghost cs = model@.containers;
    let ghost fs = model@.fragments;
    let mut entities: usize = 0;
    let mut i: usize = 0;
    while i < model.containers.len()
        invariant
            0 <= i <= model.containers@.len(),
            cs == model@.containers,
            cs.len() == model.containers@.len(),
            entities == sat(entity_total(cs.take(i as int))),
        decreases model.containers@.len() - i,
    {
        proof {
            assert(cs.take(i + 1).drop_last() =~= cs.take(i as int));
            assert(cs[i as int] == model.containers@[i as int]@);
            lemma_sat_step(entity_total(cs.take(i as int)), model.containers@[i as int].entity_count as nat);
        }
        entities = entities.saturating_add(model.containers[i].entity_count);
        i = i + 1;
    }
    assert(cs.take(i as int) =~= cs);
    let mut types = CountMap::new();
    let mut unknown: usize = 0;
    let mut j: usize = 0;
    while j < model.fragments.len()
        invariant
            0 <= j <= model.fragments@.len(),
            fs == model@.fragments,
            fs.len() == model.fragments@.len(),
            types.wf(),
            types.counts() == type_counts(fs.take(j as int)),
            unknown == unknown_count(fs.take(j as int)),
        decreases model.fragments@.len() - j,
    {
        proof {
            assert(fs.take(j + 1).drop_last() =~= fs.take(j as int));
            assert(fs[j as int] == model.fragments@[j as int]@);
            lemma_unknown_bound(fs.take(j as int));
        }
        let ty = model.fragments[j].fragment_type;
        let name = decimal_string(ty as u64);
        types.increment(name.as_str());
        if ty == 0 {
            unknown = unknown + 1;
        }
        j = j + 1;
    }
    assert(fs.take(j as int) =~= fs);
    proof {
        assert(model.symbols.names@.dom() == model@.symbols.names.dom());
        assert(model.string_tables@.dom() == model@.string_tables.dom());
    }
    KfxFidelityNative {
        container_count: model.containers.len(),
        entity_count: entities,
        fragment_count: model.fragments.len(),
        fragment_type_counts: types,
        unknown_fragment_count: unknown,
        symbol_count: model.symbols.names.len(),
        string_table_count: model.string_tables.len(),
        raw_resource_count: model.resources.len(),
    }
}

pub open spec fn is_ascii_alpha(c: char) -> bool {
    ('a' <= c <= 'z') || ('A' <= c <= 'Z')
}

pub open spec fn is_tag_char(c: char) -> bool {
    is_ascii_alpha(c) || ('0' <= c <= '9') || c == '-'
}

/// A language tag as the source declares it: trimmed, at most 35 ASCII
/// letters, digits and hyphens with at least one letter, in lower case.
pub open spec fn language_tag_spec(v: Seq<char>) -> Option<Seq<char>> {
    let t = trim(v);
    if t.len() == 0 || t.len() > 35 || !(forall|i: int| 0 <= i < t.len() ==> #[trigger] is_tag_char(t[i]))
        || !(exists|i: int| 0 <= i < t.len() && #[trigger] is_ascii_alpha(t[i])) {
        None
    } else {
        Some(lower(t))
    }
}

/// The declared language, when it is a plausible language tag.
pub fn validated_language_tag(value: &str) -> (r: Option<String>)
    ensures
        opt_string_view(r) == language_tag_spec(value@),
{
    let chars = chars_of(value);
    let t = trim_chars(chars.as_slice());
    if t.len() == 0 || t.len() > 35 {
        return None;
    }
    let mut alpha = false;
    let mut i: usize = 0;
    while i < t.len()
        invariant
            0 <= i <= t@.len(),
            t@ == trim(value@),
            0 < t@.len() <= 35,
            forall|k: int| 0 <= k < i ==> #[trigger] is_tag_char(t@[k]),
            alpha == exists|k: int| 0 <= k < i && #[trigger] is_ascii_alpha(t@[k]),
        decreases t@.len() - i,
    {
        let c = t[i];
        let is_alpha = ('a' <= c && c <= 'z') || ('A' <= c && c <= 'Z');
        if !(is_alpha || ('0' <= c && c <= '9') || c == '-') {
            assert(!is_tag_char(t@[i as int]));
            return None;
        }
        if is_alpha {
            assert(is_ascii_alpha(t@[i as int]));
            alpha = true;
        } else {
            assert(!is_ascii_alpha(t@[i as int]));
        }
        i = i + 1;
    }
    if !alpha {
        return None;
    }
    let low = lower_chars(t.as_slice());
    Some(string_from_chars(low.as_slice()))
}

/// How many containers have each header version (decimal), over the
/// containers whose header reads.
pub open spec fn version_counts(b: Seq<u8>, cs: Seq<ContainerOwnedView>) -> Map<Seq<char>, usize>
    decreases cs.len(),
{
    if cs.len() == 0 {
        Map::empty()
    } else {
        let prev = version_counts(b, cs.drop_last());
        match container_header_spec(b, cs.last().byte_offset as int) {
            Ok(h) => bumped(prev, decimal(h.version as nat)),
            Err(_) => prev,
        }
    }
}

pub open spec fn source_ok(r: KfxFidelitySource, b: Seq<u8>, m: NativeModelView) -> bool {
    &&& r.format@ == "Amazon KFX CONT"@
    &&& r.layout@ == "unknown_not_decoded"@
    &&& opt_string_view(r.language) == match m.metadata.language {
        Some(l) => language_tag_spec(l),
        None => None,
    }
    &&& r.container_version_counts.wf()
    &&& r.container_version_counts.counts() == version_counts(b, m.containers)
}

/// What the source of a single input declares: the container versions and
/// the language.
pub fn fidelity_source(bytes: &[u8], model: &NativeModel) -> (r: KfxFidelitySource)
    ensures
        source_ok(r, bytes@, model@),
{
    let ghost cs = model@.containers;
    let mut versions = CountMap::new();
    let mut i: usize = 0;
    while i < model.containers.len()
        invariant
            0 <= i <= model.containers@.len(),
            cs == model@.containers,
            cs.len() == model.containers@.len(),
            versions.wf(),
            versions.counts() == version_counts(bytes@, cs.take(i as int)),
        decreases model.containers@.len() - i,
    {
        proof {
            assert(cs.take(i + 1).drop_last() =~= cs.take(i as int));
            assert(cs[i as int] == model.containers@[i as int]@);
        }
        match read_container_header(bytes, model.containers[i].byte_offset) {
            Ok(header) => {
                let v = decimal_string(header.version as u64);
                versions.increment(v.as_str());
            },
            Err(_) => {},
        }
        i = i + 1;
    }
    assert(cs.take(i as int) =~= cs);
    let language = match &model.metadata.language {
        Some(l) => validated_language_tag(l.as_str()),
        None => None,
    };
    KfxFidelitySource {
        format: owned("Amazon KFX CONT"),
        container_version_counts: versions,
        language,
        layout: owned("unknown_not_decoded"),
    }
}

/// What the semantic book holds (filled once decoding has run).
#[derive(Debug)]
pub struct KfxFidelityContent {
    pub document_count: usize,
    pub content_fragment_count: usize,
    pub ir_node_counts: CountMap,
    pub special_feature_counts: CountMap,
}

#[derive(Debug)]
pub struct KfxFidelityInline {
    pub inline_node_counts: CountMap,
    pub image_alt_present_count: usize,
    pub image_alt_empty_count: usize,
}

#[derive(Debug)]
pub struct KfxFidelityLinks {
    pub link_node_count: usize,
    pub anchor_node_count: usize,
    pub anchor_count: usize,
    pub anchor_graph_edge_count: usize,
}

#[derive(Debug)]
pub struct KfxFidelityNavigation {
    pub toc_point_count: usize,
    pub landmark_point_count: usize,
    pub page_list_point_count: usize,
    pub has_start_location: bool,
}

#[derive(Debug)]
pub struct KfxFidelityResources {
    pub ir_resource_count: usize,
    pub resource_kind_counts: CountMap,
}

#[derive(Debug)]
pub struct KfxFidelityPlacements {
    pub raw_reference_occurrence_count: usize,
    pub native_occurrence_count: usize,
    pub semantic_occurrence_count: usize,
    pub ir_image_node_count: usize,
    pub exact_image_identity_count: usize,
    pub unresolved_or_ambiguous_identity_count: usize,
}

#[derive(Debug)]
pub struct KfxFidelityStyles {
    pub style_count: usize,
    pub style_property_count: usize,
    pub distinct_style_property_count: usize,
    pub nodes_with_nondefault_style_count: usize,
}

#[derive(Debug)]
pub struct KfxFidelityFonts {
    pub declared_font_resource_record_count: usize,
    pub font_resource_count: usize,
    pub font_face_count: usize,
    pub mapped_font_resource_count: usize,
}

/// The content-free coverage report of one input.
#[derive(Debug)]
pub struct KfxFidelityAudit {
    pub schema_version: u32,
    pub parser_version: String,
    pub input_sha256_audit_only: String,
    pub input_bytes: u64,
    pub status: String,
    pub error_code: Option<String>,
    pub source: KfxFidelitySource,
    pub native: KfxFidelityNative,
    pub content: KfxFidelityContent,
    pub text: KfxFidelityText,
    pub inline: KfxFidelityInline,
    pub links: KfxFidelityLinks,
    pub navigation: KfxFidelityNavigation,
    pub resources: KfxFidelityResources,
    pub placements: KfxFidelityPlacements,
    pub styles: KfxFidelityStyles,
    pub fonts: KfxFidelityFonts,
    pub conditional: KfxConditionalEvidence,
    pub diagnostics: CountMap,
}

pub open spec fn feature_pred(a: Seq<char>, b: Seq<char>, both: bool) -> spec_fn(Seq<char>) -> bool {
    |f: Seq<char>| if both { contains_run(f, a) && contains_run(f, b) } else { contains_run(f, a) || contains_run(f, b) }
}

pub open spec fn flag(features: Set<Seq<char>>, f: Seq<char>) -> usize {
    if features.contains(f) { 1 } else { 0 }
}

/// The diagnostics after a refresh from model `m`: counts of warnings,
/// features, losses and recovery actions, of the features that name a
/// broken reference, a missing symbol or an unsupported structure, and a
/// flag for each of seven features.
pub open spec fn refreshed(d: Map<Seq<char>, usize>, m: NativeModelView) -> Map<Seq<char>, usize> {
    let u = m.unknown_features;
    d.insert("parser_warning_count"@, m.warnings.len() as usize)
        .insert("unknown_feature_count"@, u.len() as usize)
        .insert("input_loss_count"@, m.input_loss.len() as usize)
        .insert("recovery_action_count"@, recovery_actions_spec(ParseMode::Compatible, m).len() as usize)
        .insert("broken_reference_feature_count"@, u.filter(feature_pred("unresolved"@, "dangling"@, false)).len() as usize)
        .insert("missing_symbol_feature_count"@, u.filter(feature_pred("symbol"@, "unresolved"@, true)).len() as usize)
        .insert("unsupported_structure_feature_count"@, u.filter(feature_pred("unsupported"@, "unknown-fragment"@, false)).len() as usize)
        .insert("unresolved_text_reference_feature_count"@, flag(u, "kfx-text-reference-unresolved"@))
        .insert("unresolved_navigation_target_feature_count"@, flag(u, "kfx-navigation-target-unresolved"@))
        .insert("navigation_not_recovered_feature_count"@, flag(u, "kfx-navigation-not-recovered"@))
        .insert("navigation_shape_unsupported_feature_count"@, flag(u, "kfx-navigation-fragment-shape-unsupported"@))
        .insert("navigation_entries_unsupported_feature_count"@, flag(u, "kfx-navigation-entry-shape-unsupported"@))
        .insert("inferred_image_placement_feature_count"@, flag(u, "kfx-image-placeholder-placement-inferred"@))
        .insert("resource_identity_incomplete_feature_count"@, flag(u, "kfx-resource-byte-association-incomplete"@))
}

fn count_features(keys: &Vec<String>, a: &str, b: &str, both: bool) -> (r: usize)
    ensures
        r == string_views(keys@).filter(feature_pred(a@, b@, both)).len(),
{
    let ghost kv = string_views(keys@);
    let mut n: usize = 0;
    let mut k: usize = 0;
    while k < keys.len()
        invariant
            0 <= k <= keys@.len(),
            kv == string_views(keys@),
            kv.len() == keys@.len(),
            n == kv.take(k as int).filter(feature_pred(a@, b@, both)).len(),
            n <= k,
        decreases keys@.len() - k,
    {
        proof {
            assert(kv.take(k + 1) =~= kv.take(k as int).push(kv[k as int]));
            kv.take(k as int).lemma_filter_push(kv[k as int], feature_pred(a@, b@, both));
            assert(kv[k as int] == keys@[k as int]@);
        }
        let x = str_contains(keys[k].as_str(), a);
        let y = str_contains(keys[k].as_str(), b);
        if (both && x && y) || (!both && (x || y)) {
            n = n + 1;
        }
        k = k + 1;
    }
    assert(kv.take(k as int) =~= kv);
    n
}

fn set_flag(d: &mut CountMap, features: &StringSet, diagnostic: &str, feature: &str)
    requires
        old(d).wf(),
    ensures
        final(d).wf(),
        final(d).counts() == old(d).counts().insert(diagnostic@, flag(features.set(), feature@)),
{
    let v: usize = if features.contains(feature) { 1 } else { 0 };
    d.set(diagnostic, v);
}

/// Refreshes the model-derived diagnostics of a fidelity report.
pub fn refresh_fidelity_diagnostics(model: &NativeModel, report: &mut KfxFidelityAudit)
    requires
        old(report).diagnostics.wf(),
        model.wf(),
    ensures
        final(report).diagnostics.wf(),
        final(report).diagnostics.counts() == refreshed(old(report).diagnostics.counts(), model@),
        *final(report) == (KfxFidelityAudit { diagnostics: final(report).diagnostics, ..*old(report) }),
{
    let ghost m = model@;
    let keys = model.unknown_features.to_vec();
    let ghost kv = string_views(keys@);
    proof {
        lemma_sorted_no_duplicates(kv);
        lemma_filter_card(kv, feature_pred("unresolved"@, "dangling"@, false));
        lemma_filter_card(kv, feature_pred("symbol"@, "unresolved"@, true));
        lemma_filter_card(kv, feature_pred("unsupported"@, "unknown-fragment"@, false));
        assert(strs(model.warnings@).len() == model.warnings@.len());
    }
    let d = &mut report.diagnostics;
    d.set("parser_warning_count", model.warnings.len());
    d.set("unknown_feature_count", model.unknown_features.len());
    d.set("input_loss_count", model.input_loss.len());
    let actions = recovery_actions(ParseMode::Compatible, model);
    d.set("recovery_action_count", actions.len());
    d.set("broken_reference_feature_count", count_features(&keys, "unresolved", "dangling", false));
    d.set("missing_symbol_feature_count", count_features(&keys, "symbol", "unresolved", true));
    d.set("unsupported_structure_feature_count", count_features(&keys, "unsupported", "unknown-fragment", false));
    set_flag(d, &model.unknown_features, "unresolved_text_reference_feature_count", "kfx-text-reference-unresolved");
    set_flag(d, &model.unknown_features, "unresolved_navigation_target_feature_count", "kfx-navigation-target-unresolved");
    set_flag(d, &model.unknown_features, "navigation_not_recovered_feature_count", "kfx-navigation-not-recovered");
    set_flag(d, &model.unknown_features, "navigation_shape_unsupported_feature_count", "kfx-navigation-fragment-shape-unsupported");
    set_flag(d, &model.unknown_features, "navigation_entries_unsupported_feature_count", "kfx-navigation-entry-shape-unsupported");
    set_flag(d, &model.unknown_features, "inferred_image_placement_feature_count", "kfx-image-placeholder-placement-inferred");
    set_flag(d, &model.unknown_features, "resource_identity_incomplete_feature_count", "kfx-resource-byte-association-incomplete");
}

pub open spec fn fidelity_normalization() -> Seq<char> {
    "IR text-node order; CRLF/CR to LF; Unicode NFC; SHA-256 over normalized UTF-8; scalar count after normalization"@
}

/// The sections that only decoding fills are still empty.
pub open spec fn undecoded_sections_ok(r: KfxFidelityAudit) -> bool {
    &&& r.content.document_count == 0 && r.content.content_fragment_count == 0
    &&& r.content.ir_node_counts.wf() && r.content.ir_node_counts.counts().is_empty()
    &&& r.content.special_feature_counts.wf() && r.content.special_feature_counts.counts().is_empty()
    &&& r.text.text_node_count == 0 && r.text.unicode_scalar_count == 0 && r.text.normalized_sha256_audit_only@.len() == 0
    &&& r.text.source_text_segment_count == 0 && r.text.unresolved_text_reference_count == 0
    &&& r.text.source_unicode_scalar_count == 0 && r.text.source_normalized_sha256_audit_only@.len() == 0
    &&& r.text.semantic_text_segment_count == 0 && r.text.semantic_unicode_scalar_count == 0
    &&& r.text.semantic_normalized_sha256_audit_only@.len() == 0
    &&& r.text.source_fragments@.len() == 0 && r.text.semantic_documents@.len() == 0 && r.text.ir_documents@.len() == 0
    &&& r.text.normalization@ == fidelity_normalization()
    &&& r.inline.inline_node_counts.wf() && r.inline.inline_node_counts.counts().is_empty()
    &&& r.inline.image_alt_present_count == 0 && r.inline.image_alt_empty_count == 0
    &&& r.links.link_node_count == 0 && r.links.anchor_node_count == 0 && r.links.anchor_count == 0 && r.links.anchor_graph_edge_count == 0
    &&& r.navigation.toc_point_count == 0 && r.navigation.landmark_point_count == 0 && r.navigation.page_list_point_count == 0
    &&& !r.navigation.has_start_location
    &&& r.resources.ir_resource_count == 0 && r.resources.resource_kind_counts.wf() && r.resources.resource_kind_counts.counts().is_empty()
    &&& r.placements.raw_reference_occurrence_count == 0 && r.placements.native_occurrence_count == 0
    &&& r.placements.semantic_occurrence_count == 0 && r.placements.ir_image_node_count == 0
    &&& r.placements.exact_image_identity_count == 0 && r.placements.unresolved_or_ambiguous_identity_count == 0
    &&& r.styles.style_count == 0 && r.styles.style_property_count == 0
    &&& r.styles.distinct_style_property_count == 0 && r.styles.nodes_with_nondefault_style_count == 0
    &&& r.fonts.declared_font_resource_record_count == 0 && r.fonts.font_resource_count == 0
    &&& r.fonts.font_face_count == 0 && r.fonts.mapped_font_resource_count == 0
}

/// A report that failed before the native model was read: nothing of the
/// input but its size and digest, and one diagnostic.
pub open spec fn early_failure_ok(r: KfxFidelityAudit, code: Seq<char>, diagnostic: Seq<char>) -> bool {
    &&& r.status@ == "Failed"@
    &&& opt_string_view(r.error_code) == Some(code)
    &&& r.diagnostics.wf() && r.diagnostics.counts() == Map::<Seq<char>, usize>::empty().insert(diagnostic, 1)
    &&& r.source.format@ == "Amazon KFX CONT"@ && r.source.layout@ == "unknown_not_decoded"@
    &&& r.source.language is None && r.source.container_version_counts.wf() && r.source.container_version_counts.counts().is_empty()
    &&& r.native.container_count == 0 && r.native.entity_count == 0 && r.native.fragment_count == 0
    &&& r.native.fragment_type_counts.wf() && r.native.fragment_type_counts.counts().is_empty()
    &&& r.native.unknown_fragment_count == 0 && r.native.symbol_count == 0
    &&& r.native.string_table_count == 0 && r.native.raw_resource_count == 0
    &&& r.conditional.wf() && r.conditional.view_of() == (ConditionalView { field_counts: Map::empty(), type_counts: Map::empty(), evaluation: None, status: Seq::empty() })
}

/// The fidelity audit up to the point where resource resolution and
/// semantic decoding take over: a failed report for input that is not
/// `CONT`, does not read, or is protected; otherwise the report so far and
/// the model to decode.
pub open spec fn fidelity_stage_ok(r: KfxFidelityAudit, model: Option<NativeModelView>, b: Seq<u8>) -> bool {
    &&& r.schema_version == 1
    &&& r.parser_version@ == "folioforge-kfx-cont/0.5-fidelity-audit"@
    &&& r.input_sha256_audit_only@ == hex_spec(sha256(b))
    &&& r.input_bytes == b.len()
    &&& undecoded_sections_ok(r)
    &&& if !has_cont_prefix(b) {
        early_failure_ok(r, "KFX_INPUT_NOT_CONT"@, "input_not_cont"@) && model is None
    } else {
        match native_spec(seq![b], ParseMode::Compatible) {
            Err(e) => early_failure_ok(r, error_code(e), error_code(e)) && model is None,
            Ok(m) => {
                &&& native_ok(r.native, m)
                &&& source_ok(r.source, b, m)
                &&& r.conditional.wf() && r.conditional.view_of() == conditional_spec(m.fragments)
                &&& r.diagnostics.wf()
                &&& if m.drm_detected {
                    &&& r.status@ == "Failed"@
                    &&& opt_string_view(r.error_code) == Some("KFX_DRM_PROTECTED"@)
                    &&& r.diagnostics.counts() == bumped(refreshed(Map::empty(), m), "drm_protected"@)
                    &&& model is None
                } else {
                    &&& r.status@.len() == 0
                    &&& r.error_code is None
                    &&& r.diagnostics.counts() == refreshed(Map::empty(), m)
                    &&& model == Some(m)
                }
            },
        }
    }
}

fn empty_source() -> (r: KfxFidelitySource)
    ensures
        r.format@ == "Amazon KFX CONT"@ && r.layout@ == "unknown_not_decoded"@,
        r.language is None && r.container_version_counts.wf() && r.container_version_counts.counts().is_empty(),
{
    KfxFidelitySource {
        format: owned("Amazon KFX CONT"),
        container_version_counts: CountMap::new(),
        language: None,
        layout: owned("unknown_not_decoded"),
    }
}

fn empty_report(bytes: &[u8]) -> (r: KfxFidelityAudit)
    ensures
        r.schema_version == 1,
        r.parser_version@ == "folioforge-kfx-cont/0.5-fidelity-audit"@,
        r.input_sha256_audit_only@ == hex_spec(sha256(bytes@)),
        r.input_bytes == bytes@.len(),
        undecoded_sections_ok(r),
        r.status@.len() == 0,
        r.error_code is None,
        r.diagnostics.wf() && r.diagnostics.counts().is_empty(),
        r.source.format@ == "Amazon KFX CONT"@ && r.source.layout@ == "unknown_not_decoded"@,
        r.source.language is None && r.source.container_version_counts.wf() && r.source.container_version_counts.counts().is_empty(),
        r.native.container_count == 0 && r.native.entity_count == 0 && r.native.fragment_count == 0,
        r.native.fragment_type_counts.wf() && r.native.fragment_type_counts.counts().is_empty(),
        r.native.unknown_fragment_count == 0 && r.native.symbol_count == 0,
        r.native.string_table_count == 0 && r.native.raw_resource_count == 0,
        r.conditional.wf() && r.conditional.view_of() == (ConditionalView { field_counts: Map::empty(), type_counts: Map::empty(), evaluation: None, status: Seq::empty() }),
{
    let digest = sha256_digest(bytes);
    let empty_status = String::new();
    let r = KfxFidelityAudit {
        schema_version: 1,
        parser_version: owned("folioforge-kfx-cont/0.5-fidelity-audit"),
        input_sha256_audit_only: hex_lower(digest.as_slice()),
        input_bytes: bytes.len() as u64,
        status: String::new(),
        error_code: None,
        source: empty_source(),
        native: KfxFidelityNative {
            container_count: 0,
            entity_count: 0,
            fragment_count: 0,
            fragment_type_counts: CountMap::new(),
            unknown_fragment_count: 0,
            symbol_count: 0,
            string_table_count: 0,
            raw_resource_count: 0,
        },
        content: KfxFidelityContent {
            document_count: 0,
            content_fragment_count: 0,
            ir_node_counts: CountMap::new(),
            special_feature_counts: CountMap::new(),
        },
        text: KfxFidelityText {
            text_node_count: 0,
            unicode_scalar_count: 0,
            normalized_sha256_audit_only: String::new(),
            source_text_segment_count: 0,
            unresolved_text_reference_count: 0,
            source_unicode_scalar_count: 0,
            source_normalized_sha256_audit_only: String::new(),
            semantic_text_segment_count: 0,
            semantic_unicode_scalar_count: 0,
            semantic_normalized_sha256_audit_only: String::new(),
            source_fragments: Vec::new(),
            semantic_documents: Vec::new(),
            ir_documents: Vec::new(),
            normalization: owned("IR text-node order; CRLF/CR to LF; Unicode NFC; SHA-256 over normalized UTF-8; scalar count after normalization"),
        },
        inline: KfxFidelityInline { inline_node_counts: CountMap::new(), image_alt_present_count: 0, image_alt_empty_count: 0 },
        links: KfxFidelityLinks { link_node_count: 0, anchor_node_count: 0, anchor_count: 0, anchor_graph_edge_count: 0 },
        navigation: KfxFidelityNavigation { toc_point_count: 0, landmark_point_count: 0, page_list_point_count: 0, has_start_location: false },
        resources: KfxFidelityResources { ir_resource_count: 0, resource_kind_counts: CountMap::new() },
        placements: KfxFidelityPlacements {
            raw_reference_occurrence_count: 0,
            native_occurrence_count: 0,
            semantic_occurrence_count: 0,
            ir_image_node_count: 0,
            exact_image_identity_count: 0,
            unresolved_or_ambiguous_identity_count: 0,
        },
        styles: KfxFidelityStyles { style_count: 0, style_property_count: 0, distinct_style_property_count: 0, nodes_with_nondefault_style_count: 0 },
        fonts: KfxFidelityFonts { declared_font_resource_record_count: 0, font_resource_count: 0, font_face_count: 0, mapped_font_resource_count: 0 },
        conditional: KfxConditionalEvidence {
            candidate_field_occurrence_counts: CountMap::new(),
            candidate_fragment_type_counts: CountMap::new(),
            evaluation: None,
            status: String::new(),
        },
        diagnostics: CountMap::new(),
    };
    assert(r.status@ =~= Seq::<char>::empty());
    assert(r.conditional.status@ =~= Seq::<char>::empty());
    assert(r.text.normalized_sha256_audit_only@ =~= Seq::<char>::empty());
    r
}

/// The fidelity audit of one input up to resource resolution and semantic
/// decoding: the report so far, and the model to decode when the input
/// reads and is not protected.
pub fn audit_fidelity_native(bytes: &[u8]) -> (r: (KfxFidelityAudit, Option<NativeModel>))
    ensures
        fidelity_stage_ok(r.0, match r.1 { Some(m) => Some(m@), None => None }, bytes@),
        r.1 matches Some(m) ==> m.wf(),
{
    let mut report = empty_report(bytes);
    if !(bytes.len() >= 4 && bytes[0] == 0x43 && bytes[1] == 0x4f && bytes[2] == 0x4e && bytes[3] == 0x54) {
        report.status = owned("Failed");
        report.error_code = Some(owned("KFX_INPUT_NOT_CONT"));
        let ghost before = report.diagnostics.counts();
        report.diagnostics.increment("input_not_cont");
        assert(before =~= Map::<Seq<char>, usize>::empty());
        assert(report.diagnostics.counts() =~= Map::<Seq<char>, usize>::empty().insert("input_not_cont"@, 1));
        return (report, None);
    }
    let model = match parse_native(bytes, ParseMode::Compatible) {
        Ok(m) => m,
        Err(e) => {
            let code = fidelity_error_code(&e);
            report.status = owned("Failed");
            report.error_code = Some(owned(code));
            let ghost before = report.diagnostics.counts();
            report.diagnostics.increment(code);
            assert(before =~= Map::<Seq<char>, usize>::empty());
            assert(report.diagnostics.counts() =~= Map::<Seq<char>, usize>::empty().insert(code@, 1));
            return (report, None);
        },
    };
    report.native = fidelity_native(&model);
    report.source = fidelity_source(bytes, &model);
    report.conditional = audit_conditional_evidence(&model.fragments);
    assert(report.diagnostics.counts() =~= Map::<Seq<char>, usize>::empty());
    refresh_fidelity_diagnostics(&model, &mut report);
    if model.drm_detected {
        report.status = owned("Failed");
        report.error_code = Some(owned("KFX_DRM_PROTECTED"));
        report.diagnostics.increment("drm_protected");
        return (report, None);
    }
    (report, Some(model))
}

} // verus!
