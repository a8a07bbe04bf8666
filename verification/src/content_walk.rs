//! The walk of a content value into text, equation and image segments, in
//! document order, with the first segment under each linked position and,
//! when asked, the trace of every text event with its source path.
use vstd::prelude::*;
use std::collections::{BTreeMap, BTreeSet};
use crate::ion::{IonModel, IonValue, models, field_models, lemma_models_index, lemma_field_models_index};
use crate::value::{field_of, int_field, symbol_field, string_of, items_of, struct_get, int_field_of, symbol_field_of, as_string, list_items};
use crate::links::{
    KfxTextStyleEvent, KfxTextLinkRange, FIELD_TEXT_STYLE_EVENTS, FIELD_TEXT_STYLE_LINK_TARGET, style_event_items,
    style_events_spec, link_ranges_spec, image_link_target_spec, adjacent_text_style_events, content_link_ranges,
    image_link_target,
};
use crate::ruby::{KfxRubyAnnotation, RubyView, ruby_views, ruby_annotations_spec, ruby_map_view, content_ruby_annotations};
use crate::mathml::{KfxMathOccurrence, MathView, math_occurrence_spec, kfx_math_occurrence, FIELD_MATH_CONTENT};
use crate::content::{
    FIELD_CONTENT_STRING_REFERENCE, FIELD_FRAGMENT_TEXT, FIELD_CONTENT_NODE_TYPE, FIELD_CONTENT_ORACLE_RESOURCE_SYMBOL,
    KFX_IMAGE_CONTAINER_NODE_TYPE, KFX_IMAGE_CAPTION_NODE_TYPE, KFX_IMAGE_RECORD_NODE_TYPE, resolve_ref_spec,
    resolve_string_reference, image_alt_spec, content_image_alt, text_leaves, sat, count_content_text_leaves, is_blank,
};
use crate::resource_audit::FIELD_CONTENT_RESOURCE_SYMBOL;
use crate::decode::{FIELD_TEXT_VALUES, opt_string_view};
use crate::nav::{to_u32, FIELD_NAV_TARGET_ID};
use crate::native::table_views;
use crate::audit_path::{IonAuditPathToken, format_path_spec, format_ion_audit_path};
use crate::text::{trim, owned, chars_of};
use crate::text_events::CapturedKfxTextEvent;
use crate::native::{KfxLinkTarget, LinkTargetView, link_views, NativeModel, NativeModelView, fragment_views, container_views};
use crate::placement::CapturedImagePlacement;
use crate::text_events::{TextEventCapture, content_order_spec, fragment_positions};
use crate::reading::{ordered_content_fragment_indices, ordered_content_trace_locations, location_map_view, trace_locations_spec, alias, alias_spec};
use crate::ruby::{collect_ruby_contents, ruby_contents_spec};
use crate::nav_index::{collect_navigation_heading_levels, levels_after, preorder};
use crate::resource_audit::{whitespace_symbol_spec, observed_whitespace_resource_record_symbol_for_imports_content};

verus! {

/// The explicit heading level of a content block.
pub const FIELD_CONTENT_HEADING_LEVEL: u64 = 790;

/// A run of text found in the content, with what it inherits.
#[derive(Debug)]
pub struct KfxContentTextSegment {
    pub position: Option<u32>,
    /// The position of a directly enclosing single-text block.
    pub parent_position: Option<u32>,
    /// The heading target this run is the first readable leaf of.
    pub navigation_heading_position: Option<u32>,
    pub source_heading_level: Option<u8>,
    pub link_ranges: Vec<KfxTextLinkRange>,
    pub link_target_symbol_id: Option<u64>,
    pub text: String,
    pub style_name: Option<String>,
    pub style_events: Vec<KfxTextStyleEvent>,
    pub ruby_annotations: Vec<KfxRubyAnnotation>,
}

/// One segment of the content, in document order.
#[derive(Debug)]
pub enum KfxContentSegment {
    Text(KfxContentTextSegment),
    Math { position: Option<u32>, parent_position: Option<u32>, occurrence: KfxMathOccurrence, style_name: Option<String> },
    Image {
        position: Option<u32>,
        resource: u32,
        alt: String,
        style_name: Option<String>,
        inline: bool,
        link_target_symbol_id: Option<u64>,
    },
}

pub struct TextSegmentView {
    pub position: Option<u32>,
    pub parent_position: Option<u32>,
    pub navigation_heading_position: Option<u32>,
    pub source_heading_level: Option<u8>,
    pub link_ranges: Seq<KfxTextLinkRange>,
    pub link_target_symbol_id: Option<u64>,
    pub text: Seq<char>,
    pub style_name: Option<Seq<char>>,
    pub style_events: Seq<KfxTextStyleEvent>,
    pub ruby_annotations: Seq<RubyView>,
}

pub enum SegmentView {
    Text(TextSegmentView),
    Math(Option<u32>, Option<u32>, MathView, Option<Seq<char>>),
    Image(Option<u32>, u32, Seq<char>, Option<Seq<char>>, bool, Option<u64>),
}

pub open spec fn segment_view(s: KfxContentSegment) -> SegmentView {
    match s {
        KfxContentSegment::Text(t) => SegmentView::Text(TextSegmentView {
            position: t.position,
            parent_position: t.parent_position,
            navigation_heading_position: t.navigation_heading_position,
            source_heading_level: t.source_heading_level,
            link_ranges: t.link_ranges@,
            link_target_symbol_id: t.link_target_symbol_id,
            text: t.text@,
            style_name: opt_string_view(t.style_name),
            style_events: t.style_events@,
            ruby_annotations: ruby_views(t.ruby_annotations@),
        }),
        KfxContentSegment::Math { position, parent_position, occurrence, style_name } =>
            SegmentView::Math(position, parent_position, occurrence@, opt_string_view(style_name)),
        KfxContentSegment::Image { position, resource, alt, style_name, inline, link_target_symbol_id } =>
            SegmentView::Image(position, resource, alt@, opt_string_view(style_name), inline, link_target_symbol_id),
    }
}

pub open spec fn segment_views(s: Seq<KfxContentSegment>) -> Seq<SegmentView> {
    s.map_values(|x: KfxContentSegment| segment_view(x))
}

/// Where the text events of a content fragment come from.
#[derive(Debug)]
pub struct ContentTraceSource {
    pub section_id: Option<String>,
    pub story_id: Option<String>,
    pub source_fragment: String,
    pub source_fragment_order: usize,
    pub eid: u32,
}

pub struct TraceSourceView {
    pub section_id: Option<Seq<char>>,
    pub story_id: Option<Seq<char>>,
    pub source_fragment: Seq<char>,
    pub source_fragment_order: usize,
    pub eid: u32,
}

impl View for ContentTraceSource {
    type V = TraceSourceView;

    open spec fn view(&self) -> TraceSourceView {
        TraceSourceView {
            section_id: opt_string_view(self.section_id),
            story_id: opt_string_view(self.story_id),
            source_fragment: self.source_fragment@,
            source_fragment_order: self.source_fragment_order,
            eid: self.eid,
        }
    }
}

pub struct EventView {
    pub section_id: Option<Seq<char>>,
    pub story_id: Option<Seq<char>>,
    pub source_fragment: Seq<char>,
    pub source_fragment_order: usize,
    pub eid: u32,
    pub source_path: Seq<char>,
    pub source_position: Option<u32>,
    pub text_kind: Seq<char>,
    pub text: Seq<char>,
    pub adjacent_style_events: Seq<KfxTextStyleEvent>,
}

pub open spec fn event_view(e: CapturedKfxTextEvent) -> EventView {
    EventView {
        section_id: opt_string_view(e.section_id),
        story_id: opt_string_view(e.story_id),
        source_fragment: e.source_fragment@,
        source_fragment_order: e.source_fragment_order,
        eid: e.eid,
        source_path: e.source_path@,
        source_position: e.source_position,
        text_kind: e.text_kind@,
        text: e.text@,
        adjacent_style_events: e.adjacent_style_events@,
    }
}

pub open spec fn event_views(s: Seq<CapturedKfxTextEvent>) -> Seq<EventView> {
    s.map_values(|e: CapturedKfxTextEvent| event_view(e))
}

/// What the walk reads of the book: the container, its string tables and
/// ruby contents, the resource symbols (resource id, whether an image),
/// the style names, the image record symbol, the positions with a
/// navigation heading and the positions that links target.
pub struct ContentDecodeContext<'a> {
    pub container_index: usize,
    pub string_tables: &'a BTreeMap<u32, Vec<String>>,
    pub ruby_contents: &'a BTreeMap<(usize, u64), BTreeMap<u64, String>>,
    pub resource_symbols: &'a BTreeMap<u64, (u32, bool)>,
    pub image_resource_symbols: &'a BTreeMap<u64, (u32, bool)>,
    pub style_names: Option<&'a BTreeMap<u64, String>>,
    pub image_record_symbol: Option<u64>,
    pub navigation_heading_levels: Option<&'a BTreeMap<u32, u8>>,
    pub link_target_positions: &'a BTreeSet<u32>,
}

pub struct ContextView {
    pub container_index: usize,
    pub tables: Map<u32, Seq<Seq<char>>>,
    pub ruby: Map<(usize, u64), Map<u64, Seq<char>>>,
    pub resources: Map<u64, (u32, bool)>,
    pub images: Map<u64, (u32, bool)>,
    pub styles: Option<Map<u64, Seq<char>>>,
    pub record_symbol: Option<u64>,
    pub headings: Option<Set<u32>>,
    pub link_positions: Set<u32>,
}

impl<'a> View for ContentDecodeContext<'a> {
    type V = ContextView;

    open spec fn view(&self) -> ContextView {
        ContextView {
            container_index: self.container_index,
            tables: table_views(self.string_tables@),
            ruby: ruby_map_view(self.ruby_contents@),
            resources: self.resource_symbols@,
            images: self.image_resource_symbols@,
            styles: match self.style_names {
                Some(m) => Some(m@.map_values(|s: String| s@)),
                None => None,
            },
            record_symbol: self.image_record_symbol,
            headings: match self.navigation_heading_levels {
                Some(m) => Some(m@.dom()),
                None => None,
            },
            link_positions: self.link_target_positions@,
        }
    }
}

/// What a value inherits from the blocks around it.
pub struct ContentInherited<'a> {
    pub position: Option<u32>,
    pub style_name: Option<&'a str>,
    pub single_text_position: Option<u32>,
    pub single_text_heading_level: Option<u8>,
    pub inside_image_container: bool,
    pub inline_image_context: bool,
    pub emit_scoped_image_text: bool,
    pub allow_content_list_text: bool,
    pub heading_position: Option<u32>,
    pub link_target: Option<u64>,
    pub link_ranges: &'a [KfxTextLinkRange],
    pub image_link_target: Option<u64>,
}

pub struct InheritedView {
    pub position: Option<u32>,
    pub style_name: Option<Seq<char>>,
    pub single_text_position: Option<u32>,
    pub single_text_heading_level: Option<u8>,
    pub inside_image_container: bool,
    pub inline_image_context: bool,
    pub emit_scoped_image_text: bool,
    pub allow_content_list_text: bool,
    pub heading_position: Option<u32>,
    pub link_target: Option<u64>,
    pub link_ranges: Seq<KfxTextLinkRange>,
    pub image_link_target: Option<u64>,
}

impl<'a> View for ContentInherited<'a> {
    type V = InheritedView;

    open spec fn view(&self) -> InheritedView {
        InheritedView {
            position: self.position,
            style_name: match self.style_name {
                Some(s) => Some(s@),
                None => None,
            },
            single_text_position: self.single_text_position,
            single_text_heading_level: self.single_text_heading_level,
            inside_image_container: self.inside_image_container,
            inline_image_context: self.inline_image_context,
            emit_scoped_image_text: self.emit_scoped_image_text,
            allow_content_list_text: self.allow_content_list_text,
            heading_position: self.heading_position,
            link_target: self.link_target,
            link_ranges: self.link_ranges@,
            image_link_target: self.image_link_target,
        }
    }
}

/// What the walk has found so far: the segments, the string references
/// that did not resolve and the image placeholders it inferred (both
/// saturating), the first segment under each linked position, and the
/// text events.
pub struct ContentWalk {
    pub segments: Vec<KfxContentSegment>,
    pub unresolved: usize,
    pub inferred_images: usize,
    pub link_target_segment_indices: BTreeMap<u32, usize>,
    pub events: Vec<CapturedKfxTextEvent>,
}

pub struct WalkView {
    pub segments: Seq<SegmentView>,
    pub unresolved: usize,
    pub inferred_images: usize,
    pub indices: Map<u32, usize>,
    pub events: Seq<EventView>,
}

impl View for ContentWalk {
    type V = WalkView;

    open spec fn view(&self) -> WalkView {
        WalkView {
            segments: segment_views(self.segments@),
            unresolved: self.unresolved,
            inferred_images: self.inferred_images,
            indices: self.link_target_segment_indices@,
            events: event_views(self.events@),
        }
    }
}

pub open spec fn bump(n: usize) -> usize {
    if n < usize::MAX { (n + 1) as usize } else { n }
}

pub open spec fn or_else<T>(a: Option<T>, b: Option<T>) -> Option<T> {
    match a {
        Some(x) => Some(x),
        None => b,
    }
}

/// A style name: `s` followed by ASCII letters and digits only.
pub open spec fn style_name_ok(s: Seq<char>) -> bool {
    s.len() > 0 && s[0] == 's' && forall|i: int| 1 <= i < s.len() ==> #[trigger] is_ascii_alnum(s[i])
}

pub open spec fn is_ascii_alnum(c: char) -> bool {
    ('0' <= c && c <= '9') || ('a' <= c && c <= 'z') || ('A' <= c && c <= 'Z')
}

/// The style of a content node: the compact style symbol its `$157` names.
pub open spec fn style_spec(m: IonModel, c: ContextView) -> Option<Seq<char>> {
    match (symbol_field(m, FIELD_CONTENT_RESOURCE_SYMBOL), c.styles) {
        (Some(sym), Some(names)) => if names.contains_key(sym) && style_name_ok(names[sym]) { Some(names[sym]) } else { None },
        _ => None,
    }
}

/// The heading level a block declares, when it is one to six.
pub open spec fn heading_level_of(m: IonModel) -> Option<u8> {
    match int_field(m, FIELD_CONTENT_HEADING_LEVEL) {
        Some(l) => if 1 <= l <= 6 { Some(l as u8) } else { None },
        None => None,
    }
}

pub open spec fn has_style_event_list(m: IonModel) -> bool {
    match field_of(m, FIELD_TEXT_STYLE_EVENTS) {
        Some(IonModel::List(items)) => items.len() > 0,
        _ => false,
    }
}

/// What a struct works out before it looks at its fields.
pub struct Locals {
    pub own_position: Option<u32>,
    pub position: Option<u32>,
    pub own_heading_position: Option<u32>,
    pub heading_position: Option<u32>,
    pub link_target: Option<u64>,
    pub own_link_ranges: Seq<KfxTextLinkRange>,
    pub link_ranges: Seq<KfxTextLinkRange>,
    pub leaves: nat,
    pub image_link_target: Option<u64>,
    pub single_text_position: Option<u32>,
    pub single_text_heading_level: Option<u8>,
    pub source_heading_level: Option<u8>,
    pub parent_position: Option<u32>,
    pub adjacent: Seq<KfxTextStyleEvent>,
    pub style_name: Option<Seq<char>>,
    pub node_type: Option<u64>,
    pub inline_image_context: bool,
    pub is_image_text_record: bool,
    pub inside_image_container: bool,
    pub emit_scoped_image_text: bool,
}

pub open spec fn locals_spec(m: IonModel, c: ContextView, inh: InheritedView) -> Locals {
    let own_position = to_u32(int_field(m, FIELD_NAV_TARGET_ID));
    let own_heading_position = match (own_position, c.headings) {
        (Some(p), Some(h)) => if h.contains(p) { Some(p) } else { None },
        _ => None,
    };
    let link_target = or_else(symbol_field(m, FIELD_TEXT_STYLE_LINK_TARGET), inh.link_target);
    let own_link_ranges = link_ranges_spec(style_event_items(m));
    let leaves = text_leaves(m);
    let single = leaves == 1;
    let node_type = symbol_field(m, FIELD_CONTENT_NODE_TYPE);
    let inside_image_container = inh.inside_image_container || node_type == Some(KFX_IMAGE_CONTAINER_NODE_TYPE);
    Locals {
        own_position,
        position: or_else(own_position, inh.position),
        own_heading_position,
        heading_position: or_else(own_heading_position, inh.heading_position),
        link_target,
        own_link_ranges,
        link_ranges: if own_link_ranges.len() == 0 { inh.link_ranges } else { own_link_ranges },
        leaves,
        image_link_target: or_else(
            inh.image_link_target,
            if leaves == 0 { image_link_target_spec(link_target, own_link_ranges) } else { None },
        ),
        single_text_position: or_else(inh.single_text_position, if single { own_position } else { None }),
        single_text_heading_level: or_else(inh.single_text_heading_level, if single { heading_level_of(m) } else { None }),
        source_heading_level: or_else(heading_level_of(m), inh.single_text_heading_level),
        parent_position: inh.single_text_position,
        adjacent: style_events_spec(style_event_items(m)),
        style_name: or_else(style_spec(m, c), inh.style_name),
        node_type,
        inline_image_context: inh.inline_image_context || (node_type == Some(KFX_IMAGE_CAPTION_NODE_TYPE) && leaves > 0),
        is_image_text_record: node_type == Some(KFX_IMAGE_CONTAINER_NODE_TYPE) || node_type == Some(KFX_IMAGE_CAPTION_NODE_TYPE)
            || node_type == Some(KFX_IMAGE_RECORD_NODE_TYPE) || field_of(m, FIELD_CONTENT_ORACLE_RESOURCE_SYMBOL) is Some,
        inside_image_container,
        emit_scoped_image_text: if node_type == Some(KFX_IMAGE_CONTAINER_NODE_TYPE) {
            false
        } else if node_type == Some(KFX_IMAGE_CAPTION_NODE_TYPE) && inside_image_container && has_style_event_list(m) {
            true
        } else {
            inh.emit_scoped_image_text
        },
    }
}

/// The image a source image record shows: its `$175` symbol, when that
/// names an image resource.
pub open spec fn source_image_spec(m: IonModel, c: ContextView) -> Option<u32> {
    match c.record_symbol {
        Some(expected) => if symbol_field(m, FIELD_CONTENT_NODE_TYPE) == Some(expected) {
            match symbol_field(m, FIELD_CONTENT_ORACLE_RESOURCE_SYMBOL) {
                Some(sym) => if c.images.contains_key(sym) && c.images[sym].1 { Some(c.images[sym].0) } else { None },
                None => None,
            }
        } else {
            None
        },
        None => None,
    }
}

/// The image an empty positioned record stands for: an image record whose
/// `$157` names an image resource and that holds no text.
pub open spec fn placeholder_spec(m: IonModel, c: ContextView, own_position: Option<u32>) -> Option<u32> {
    match (c.record_symbol, symbol_field(m, FIELD_CONTENT_RESOURCE_SYMBOL)) {
        (Some(expected), Some(sym)) => if symbol_field(m, FIELD_CONTENT_NODE_TYPE) == Some(expected)
            && c.resources.contains_key(sym) && c.resources[sym].1
            && own_position is Some
            && (match field_of(m, FIELD_FRAGMENT_TEXT) {
                Some(v) => match string_of(v) {
                    Some(t) => trim(t).len() == 0,
                    None => false,
                },
                None => false,
            })
            && field_of(m, FIELD_CONTENT_STRING_REFERENCE) is None
            && field_of(m, FIELD_TEXT_STYLE_EVENTS) is None
            && field_of(m, FIELD_TEXT_VALUES) is None {
            Some(c.resources[sym].0)
        } else {
            None
        },
        _ => None,
    }
}

/// Records a text event when the walk is traced.
pub open spec fn record_event(
    s: WalkView,
    trace: Option<TraceSourceView>,
    path: Seq<IonAuditPathToken>,
    position: Option<u32>,
    kind: Seq<char>,
    text: Seq<char>,
    adjacent: Seq<KfxTextStyleEvent>,
) -> WalkView {
    match trace {
        Some(src) => WalkView {
            events: s.events.push(EventView {
                section_id: src.section_id,
                story_id: src.story_id,
                source_fragment: src.source_fragment,
                source_fragment_order: src.source_fragment_order,
                eid: src.eid,
                source_path: format_path_spec(path),
                source_position: position,
                text_kind: kind,
                text,
                adjacent_style_events: adjacent,
            }),
            ..s
        },
        None => s,
    }
}

pub open spec fn push_segment(s: WalkView, x: SegmentView) -> WalkView {
    WalkView { segments: s.segments.push(x), ..s }
}

/// Remembers the first segment under a linked position.
pub open spec fn record_first(s: WalkView, own_position: Option<u32>, start: nat, c: ContextView) -> WalkView {
    match own_position {
        Some(p) => if c.link_positions.contains(p) && s.segments.len() > start && !s.indices.contains_key(p) {
            WalkView { indices: s.indices.insert(p, start as usize), ..s }
        } else {
            s
        },
        None => s,
    }
}

/// The heading target a text run takes: the pending one, once.
pub open spec fn take_heading(pending: bool, heading: Option<u32>) -> (Option<u32>, bool) {
    if pending { (heading, false) } else { (None, pending) }
}

pub open spec fn text_segment(
    l: Locals,
    m: IonModel,
    c: ContextView,
    nav: Option<u32>,
    text: Seq<char>,
) -> SegmentView {
    SegmentView::Text(TextSegmentView {
        position: l.position,
        parent_position: l.parent_position,
        navigation_heading_position: nav,
        source_heading_level: l.source_heading_level,
        link_ranges: l.link_ranges,
        link_target_symbol_id: l.link_target,
        text,
        style_name: l.style_name,
        style_events: l.adjacent,
        ruby_annotations: ruby_annotations_spec(m, c.ruby, c.container_index, text.len() as usize),
    })
}

/// What the children of a struct inherit.
pub open spec fn child_inherited(l: Locals, field: u64) -> InheritedView {
    InheritedView {
        position: l.position,
        style_name: l.style_name,
        single_text_position: l.single_text_position,
        single_text_heading_level: l.single_text_heading_level,
        inside_image_container: l.inside_image_container,
        inline_image_context: l.inline_image_context,
        emit_scoped_image_text: l.emit_scoped_image_text,
        allow_content_list_text: field == FIELD_TEXT_VALUES && !l.inside_image_container
            && l.node_type != Some(KFX_IMAGE_CONTAINER_NODE_TYPE),
        heading_position: l.heading_position,
        link_target: l.link_target,
        link_ranges: l.link_ranges,
        image_link_target: l.image_link_target,
    }
}

/// The walk of a content value: the state after it, and whether a heading
/// target is still waiting for its first text run.
pub open spec fn walk_spec(
    m: IonModel,
    c: ContextView,
    inh: InheritedView,
    trace: Option<TraceSourceView>,
    path: Seq<IonAuditPathToken>,
    s: WalkView,
    pending: bool,
) -> (WalkView, bool)
    decreases m, 1nat,
{
    match m {
        IonModel::Struct(fields) => {
            let l = locals_spec(m, c, inh);
            let start = s.segments.len();
            match math_occurrence_spec(m, c.tables) {
                Some(o) => {
                    let s1 = match o.alt {
                        Some(alt) => record_event(
                            s,
                            trace,
                            path + seq![IonAuditPathToken::Field(FIELD_MATH_CONTENT), IonAuditPathToken::Index(0), IonAuditPathToken::Field(FIELD_CONTENT_STRING_REFERENCE)],
                            l.position,
                            "math_accessible_text"@,
                            alt,
                            Seq::empty(),
                        ),
                        None => s,
                    };
                    let s2 = push_segment(s1, SegmentView::Math(l.position, l.parent_position, o, l.style_name));
                    (record_first(s2, l.own_position, start, c), pending)
                },
                None => match source_image_spec(m, c) {
                    Some(res) => {
                        let s2 = push_segment(s, SegmentView::Image(
                            l.position, res, image_alt_spec(m), l.style_name,
                            l.inside_image_container || l.inline_image_context, l.image_link_target,
                        ));
                        (record_first(s2, l.own_position, start, c), pending)
                    },
                    None => match placeholder_spec(m, c, l.own_position) {
                        Some(res) => {
                            let s2 = push_segment(s, SegmentView::Image(
                                l.position, res, image_alt_spec(m), l.style_name,
                                l.inside_image_container || l.inline_image_context, l.image_link_target,
                            ));
                            let s3 = record_first(s2, l.own_position, start, c);
                            (WalkView { inferred_images: bump(s3.inferred_images), ..s3 }, pending)
                        },
                        None => {
                            let own = l.own_heading_position is Some;
                            let (s2, p2) = walk_fields_spec(fields, m, l, c, trace, path, s, if own { true } else { pending });
                            (record_first(s2, l.own_position, start, c), if own { pending } else { p2 })
                        },
                    },
                },
            }
        },
        IonModel::List(items) => walk_items_spec(items, c, inh, trace, path, s, pending),
        IonModel::SExp(items) => walk_items_spec(items, c, inh, trace, path, s, pending),
        IonModel::Annotation { value, .. } => walk_spec(*value, c, inh, trace, path, s, pending),
        IonModel::String(t) => if inh.allow_content_list_text && t.len() > 0 {
            let s1 = record_event(s, trace, path, inh.position, "bare_content_list_text"@, t, Seq::empty());
            let (nav, p2) = take_heading(pending, inh.heading_position);
            (push_segment(s1, SegmentView::Text(TextSegmentView {
                position: inh.position,
                parent_position: None,
                navigation_heading_position: nav,
                source_heading_level: None,
                link_ranges: inh.link_ranges,
                link_target_symbol_id: inh.link_target,
                text: t,
                style_name: inh.style_name,
                style_events: Seq::empty(),
                ruby_annotations: Seq::empty(),
            })), p2)
        } else if inh.emit_scoped_image_text && t.len() > 0 {
            let s1 = record_event(s, trace, path, inh.position, "scoped_image_caption"@, t, Seq::empty());
            (push_segment(s1, SegmentView::Text(TextSegmentView {
                position: inh.position,
                parent_position: None,
                navigation_heading_position: None,
                source_heading_level: None,
                link_ranges: inh.link_ranges,
                link_target_symbol_id: inh.link_target,
                text: t,
                style_name: inh.style_name,
                style_events: Seq::empty(),
                ruby_annotations: Seq::empty(),
            })), pending)
        } else {
            (s, pending)
        },
        _ => (s, pending),
    }
}

/// The fields of a struct `m`, in order, each under its `$field` selector.
pub open spec fn walk_fields_spec(
    fields: Seq<(u64, IonModel)>,
    m: IonModel,
    l: Locals,
    c: ContextView,
    trace: Option<TraceSourceView>,
    path: Seq<IonAuditPathToken>,
    s: WalkView,
    pending: bool,
) -> (WalkView, bool)
    decreases fields, 0nat,
{
    if fields.len() == 0 {
        (s, pending)
    } else {
        let (s1, p1) = walk_fields_spec(fields.drop_last(), m, l, c, trace, path, s, pending);
        let (f, child) = fields.last();
        let fpath = path.push(IonAuditPathToken::Field(f));
        if f == FIELD_CONTENT_STRING_REFERENCE {
            match resolve_ref_spec(child, c.tables) {
                Some(text) => {
                    let s2 = record_event(s1, trace, fpath, l.position, "string_reference"@, text, l.adjacent);
                    let (nav, p2) = take_heading(p1, l.heading_position);
                    (push_segment(s2, text_segment(l, m, c, nav, text)), p2)
                },
                None => (WalkView { unresolved: bump(s1.unresolved), ..s1 }, p1),
            }
        } else if f == FIELD_FRAGMENT_TEXT {
            if l.is_image_text_record {
                (s1, p1)
            } else {
                match string_of(child) {
                    Some(text) => {
                        let s2 = record_event(s1, trace, fpath, l.position, "direct_text"@, text, l.adjacent);
                        let (nav, p2) = take_heading(p1, l.heading_position);
                        (push_segment(s2, text_segment(l, m, c, nav, text)), p2)
                    },
                    None => (s1, p1),
                }
            }
        } else {
            proof {
                assert(decreases_to!(fields => fields[fields.len() - 1].1));
            }
            walk_spec(child, c, child_inherited(l, f), trace, fpath, s1, p1)
        }
    }
}

/// The items of a list, in order, each under its `[i]` selector.
pub open spec fn walk_items_spec(
    items: Seq<IonModel>,
    c: ContextView,
    inh: InheritedView,
    trace: Option<TraceSourceView>,
    path: Seq<IonAuditPathToken>,
    s: WalkView,
    pending: bool,
) -> (WalkView, bool)
    decreases items, 0nat,
{
    if items.len() == 0 {
        (s, pending)
    } else {
        let (s1, p1) = walk_items_spec(items.drop_last(), c, inh, trace, path, s, pending);
        walk_spec(items.last(), c, inh, trace, path.push(IonAuditPathToken::Index((items.len() - 1) as usize)), s1, p1)
    }
}

/// The style name of a content node (see [`style_spec`]).
pub fn content_style_name(value: &IonValue, ctx: &ContentDecodeContext) -> (r: Option<String>)
    ensures
        opt_string_view(r) == style_spec(value@, ctx@),
{
    let sym = match symbol_field_of(value, FIELD_CONTENT_RESOURCE_SYMBOL) {
        Some(s) => s,
        None => return None,
    };
    let names = match ctx.style_names {
        Some(m) => m,
        None => return None,
    };
    let name = match names.get(&sym) {
        Some(n) => n,
        None => {
            assert(!ctx@.styles->Some_0.contains_key(sym));
            return None;
        },
    };
    assert(ctx@.styles->Some_0.contains_key(sym));
    assert(ctx@.styles->Some_0[sym] == name@);
    let chars = chars_of(name.as_str());
    assert(chars@ == ctx@.styles->Some_0[sym]);
    if chars.len() == 0 || chars[0] != 's' {
        assert(!style_name_ok(ctx@.styles->Some_0[sym]));
        return None;
    }
    let mut i: usize = 1;
    while i < chars.len()
        invariant
            1 <= i <= chars@.len(),
            chars@ == name@,
            chars@.len() > 0 && chars@[0] == 's',
            symbol_field(value@, FIELD_CONTENT_RESOURCE_SYMBOL) == Some(sym),
            ctx@.styles is Some,
            ctx@.styles->Some_0.contains_key(sym),
            ctx@.styles->Some_0[sym] == name@,
            forall|k: int| 1 <= k < i ==> #[trigger] is_ascii_alnum(chars@[k]),
        decreases chars@.len() - i,
    {
        let ch = chars[i];
        if !(('0' <= ch && ch <= '9') || ('a' <= ch && ch <= 'z') || ('A' <= ch && ch <= 'Z')) {
            assert(!is_ascii_alnum(name@[i as int]));
            return None;
        }
        i = i + 1;
    }
    Some(owned(name.as_str()))
}

/// What a struct works out before its fields, in executable form.
pub struct StructLocals {
    pub own_position: Option<u32>,
    pub position: Option<u32>,
    pub own_heading_position: Option<u32>,
    pub heading_position: Option<u32>,
    pub link_target: Option<u64>,
    pub own_link_ranges: Vec<KfxTextLinkRange>,
    pub image_link_target: Option<u64>,
    pub single_text_position: Option<u32>,
    pub single_text_heading_level: Option<u8>,
    pub source_heading_level: Option<u8>,
    pub parent_position: Option<u32>,
    pub adjacent: Vec<KfxTextStyleEvent>,
    pub style_name: Option<String>,
    pub node_type: Option<u64>,
    pub inline_image_context: bool,
    pub is_image_text_record: bool,
    pub inside_image_container: bool,
    pub emit_scoped_image_text: bool,
}

pub open spec fn locals_match(l: StructLocals, x: Locals) -> bool {
    &&& l.own_position == x.own_position
    &&& l.position == x.position
    &&& l.own_heading_position == x.own_heading_position
    &&& l.heading_position == x.heading_position
    &&& l.link_target == x.link_target
    &&& l.own_link_ranges@ == x.own_link_ranges
    &&& l.image_link_target == x.image_link_target
    &&& l.single_text_position == x.single_text_position
    &&& l.single_text_heading_level == x.single_text_heading_level
    &&& l.source_heading_level == x.source_heading_level
    &&& l.parent_position == x.parent_position
    &&& l.adjacent@ == x.adjacent
    &&& opt_string_view(l.style_name) == x.style_name
    &&& l.node_type == x.node_type
    &&& l.inline_image_context == x.inline_image_context
    &&& l.is_image_text_record == x.is_image_text_record
    &&& l.inside_image_container == x.inside_image_container
    &&& l.emit_scoped_image_text == x.emit_scoped_image_text
}

fn heading_level(value: &IonValue) -> (r: Option<u8>)
    ensures
        r == heading_level_of(value@),
{
    match int_field_of(value, FIELD_CONTENT_HEADING_LEVEL) {
        Some(l) => if 1 <= l && l <= 6 { Some(l as u8) } else { None },
        None => None,
    }
}

fn own_position_of(value: &IonValue) -> (r: Option<u32>)
    ensures
        r == to_u32(int_field(value@, FIELD_NAV_TARGET_ID)),
{
    match int_field_of(value, FIELD_NAV_TARGET_ID) {
        Some(i) => if 0 <= i && i <= 0xffff_ffff { Some(i as u32) } else { None },
        None => None,
    }
}

fn has_event_list(value: &IonValue) -> (r: bool)
    ensures
        r == has_style_event_list(value@),
{
    match struct_get(value, FIELD_TEXT_STYLE_EVENTS) {
        Some(IonValue::List(items)) => {
            proof {
                lemma_models_index(items@);
            }
            items.len() > 0
        },
        _ => false,
    }
}

fn str_view_opt(s: &Option<String>) -> (r: Option<&str>)
    ensures
        (match r { Some(x) => Some(x@), None => None }) == opt_string_view(*s),
{
    match s {
        Some(x) => Some(x.as_str()),
        None => None,
    }
}

pub fn struct_locals(value: &IonValue, ctx: &ContentDecodeContext, inh: &ContentInherited) -> (r: StructLocals)
    ensures
        locals_match(r, locals_spec(value@, ctx@, inh@)),
{
    let ghost x = locals_spec(value@, ctx@, inh@);
    let own_position = own_position_of(value);
    let position = match own_position { Some(p) => Some(p), None => inh.position };
    let own_heading_position = match (own_position, ctx.navigation_heading_levels) {
        (Some(p), Some(h)) => if h.contains_key(&p) { Some(p) } else { None },
        _ => None,
    };
    let heading_position = match own_heading_position { Some(p) => Some(p), None => inh.heading_position };
    let link_target = match symbol_field_of(value, FIELD_TEXT_STYLE_LINK_TARGET) { Some(t) => Some(t), None => inh.link_target };
    let own_link_ranges = content_link_ranges(value);
    let leaves = count_content_text_leaves(value);
    let image_link_target = match inh.image_link_target {
        Some(t) => Some(t),
        None => if leaves == 0 { image_link_target(link_target, own_link_ranges.as_slice()) } else { None },
    };
    let single = leaves == 1;
    let own_level = heading_level(value);
    let single_text_position = match inh.single_text_position {
        Some(p) => Some(p),
        None => if single { own_position } else { None },
    };
    let single_text_heading_level = match inh.single_text_heading_level {
        Some(p) => Some(p),
        None => if single { own_level } else { None },
    };
    let source_heading_level = match own_level { Some(l) => Some(l), None => inh.single_text_heading_level };
    let adjacent = adjacent_text_style_events(value);
    let style_name = match content_style_name(value, ctx) {
        Some(n) => Some(n),
        None => match inh.style_name {
            Some(n) => Some(owned(n)),
            None => None,
        },
    };
    let node_type = symbol_field_of(value, FIELD_CONTENT_NODE_TYPE);
    let is_container = match node_type { Some(t) => t == KFX_IMAGE_CONTAINER_NODE_TYPE, None => false };
    let is_caption = match node_type { Some(t) => t == KFX_IMAGE_CAPTION_NODE_TYPE, None => false };
    let is_record = match node_type { Some(t) => t == KFX_IMAGE_RECORD_NODE_TYPE, None => false };
    let inline_image_context = inh.inline_image_context || (is_caption && leaves > 0);
    let is_image_text_record = is_container || is_caption || is_record
        || struct_get(value, FIELD_CONTENT_ORACLE_RESOURCE_SYMBOL).is_some();
    let inside_image_container = inh.inside_image_container || is_container;
    let emit_scoped_image_text = if is_container {
        false
    } else if is_caption && inside_image_container && has_event_list(value) {
        true
    } else {
        inh.emit_scoped_image_text
    };
    StructLocals {
        own_position,
        position,
        own_heading_position,
        heading_position,
        link_target,
        own_link_ranges,
        image_link_target,
        single_text_position,
        single_text_heading_level,
        source_heading_level,
        parent_position: inh.single_text_position,
        adjacent,
        style_name,
        node_type,
        inline_image_context,
        is_image_text_record,
        inside_image_container,
        emit_scoped_image_text,
    }
}

pub open spec fn trace_view(t: Option<&ContentTraceSource>) -> Option<TraceSourceView> {
    match t {
        Some(x) => Some(x@),
        None => None,
    }
}

fn record_text_event(
    walk: &mut ContentWalk,
    trace: Option<&ContentTraceSource>,
    path: &Vec<IonAuditPathToken>,
    position: Option<u32>,
    kind: &str,
    text: &str,
    adjacent: &[KfxTextStyleEvent],
)
    ensures
        final(walk)@ == record_event(old(walk)@, trace_view(trace), path@, position, kind@, text@, adjacent@),
{
    match trace {
        Some(src) => {
            let ghost before = walk.events@;
            let e = CapturedKfxTextEvent {
                section_id: crate::source_strings::copy_opt(&src.section_id),
                story_id: crate::source_strings::copy_opt(&src.story_id),
                source_fragment: owned(src.source_fragment.as_str()),
                source_fragment_order: src.source_fragment_order,
                eid: src.eid,
                source_path: format_ion_audit_path(path.as_slice()),
                source_position: position,
                text_kind: owned(kind),
                text: owned(text),
                adjacent_style_events: vstd::slice::slice_to_vec(adjacent),
            };
            walk.events.push(e);
            assert(event_views(walk.events@) =~= event_views(before).push(event_view(e)));
        },
        None => {},
    }
}

fn push_seg(walk: &mut ContentWalk, x: KfxContentSegment)
    ensures
        final(walk)@ == push_segment(old(walk)@, segment_view(x)),
{
    let ghost before = walk.segments@;
    walk.segments.push(x);
    assert(segment_views(walk.segments@) =~= segment_views(before).push(segment_view(x)));
}

fn record_first_segment(walk: &mut ContentWalk, own_position: Option<u32>, start: usize, ctx: &ContentDecodeContext)
    ensures
        final(walk)@ == record_first(old(walk)@, own_position, start as nat, ctx@),
{
    match own_position {
        Some(p) => {
            if ctx.link_target_positions.contains(&p) && walk.segments.len() > start
                && !walk.link_target_segment_indices.contains_key(&p) {
                walk.link_target_segment_indices.insert(p, start);
            }
        },
        None => {},
    }
}

fn text_segment_of(
    l: &StructLocals,
    ranges: &[KfxTextLinkRange],
    value: &IonValue,
    ctx: &ContentDecodeContext,
    nav: Option<u32>,
    text: &str,
) -> (r: KfxContentSegment)
    requires
        ranges@ == (if l.own_link_ranges@.len() == 0 { ranges@ } else { l.own_link_ranges@ }),
    ensures
        forall|x: Locals| #[trigger] locals_match(*l, x) && x.link_ranges == ranges@
            ==> segment_view(r) == text_segment(x, value@, ctx@, nav, text@),
{
    let count = chars_of(text).len();
    let ruby = content_ruby_annotations(value, ctx.ruby_contents, ctx.container_index, count);
    KfxContentSegment::Text(KfxContentTextSegment {
        position: l.position,
        parent_position: l.parent_position,
        navigation_heading_position: nav,
        source_heading_level: l.source_heading_level,
        link_ranges: vstd::slice::slice_to_vec(ranges),
        link_target_symbol_id: l.link_target,
        text: owned(text),
        style_name: crate::source_strings::copy_opt(&l.style_name),
        style_events: vstd::slice::slice_to_vec(l.adjacent.as_slice()),
        ruby_annotations: ruby,
    })
}

fn source_image(value: &IonValue, ctx: &ContentDecodeContext) -> (r: Option<u32>)
    ensures
        r == source_image_spec(value@, ctx@),
{
    let expected = match ctx.image_record_symbol {
        Some(e) => e,
        None => return None,
    };
    match symbol_field_of(value, FIELD_CONTENT_NODE_TYPE) {
        Some(t) => if t != expected {
            return None;
        },
        None => return None,
    }
    let sym = match symbol_field_of(value, FIELD_CONTENT_ORACLE_RESOURCE_SYMBOL) {
        Some(s) => s,
        None => return None,
    };
    match ctx.image_resource_symbols.get(&sym) {
        Some(entry) => if entry.1 { Some(entry.0) } else { None },
        None => None,
    }
}

fn placeholder_image(value: &IonValue, ctx: &ContentDecodeContext, own_position: Option<u32>) -> (r: Option<u32>)
    ensures
        r == placeholder_spec(value@, ctx@, own_position),
{
    let expected = match ctx.image_record_symbol {
        Some(e) => e,
        None => return None,
    };
    let sym = match symbol_field_of(value, FIELD_CONTENT_RESOURCE_SYMBOL) {
        Some(s) => s,
        None => return None,
    };
    match symbol_field_of(value, FIELD_CONTENT_NODE_TYPE) {
        Some(t) => if t != expected {
            return None;
        },
        None => return None,
    }
    let entry = match ctx.resource_symbols.get(&sym) {
        Some(e) => *e,
        None => return None,
    };
    if !entry.1 || own_position.is_none() {
        return None;
    }
    let blank = match struct_get(value, FIELD_FRAGMENT_TEXT) {
        Some(v) => match as_string(v) {
            Some(t) => is_blank(t),
            None => false,
        },
        None => false,
    };
    if blank && struct_get(value, FIELD_CONTENT_STRING_REFERENCE).is_none()
        && struct_get(value, FIELD_TEXT_STYLE_EVENTS).is_none() && struct_get(value, FIELD_TEXT_VALUES).is_none() {
        Some(entry.0)
    } else {
        None
    }
}

/// Walks a content value into segments, in document order (see
/// [`walk_spec`]): equations, source images and image placeholders stand
/// for their whole struct; text comes from `$145` references, `$584`
/// strings and the strings of `$146` lists (and of captions inside image
/// containers). A heading target waits for its first text run. With a
/// trace source, each text run is recorded with its source path; `path`
/// is the path of `value` and is left as it was.
pub fn collect_content_segments_traced(
    value: &IonValue,
    ctx: &ContentDecodeContext,
    inh: &ContentInherited,
    trace: Option<&ContentTraceSource>,
    path: &mut Vec<IonAuditPathToken>,
    walk: &mut ContentWalk,
    heading_target_pending: &mut bool,
)
    ensures
        (final(walk)@, *final(heading_target_pending)) == walk_spec(
            value@, ctx@, inh@, trace_view(trace), old(path)@, old(walk)@, *old(heading_target_pending),
        ),
        final(path)@ == old(path)@,
    decreases value,
{
    match value {
        IonValue::Struct(fields) => {
            let l = struct_locals(value, ctx, inh);
            let ghost x = locals_spec(value@, ctx@, inh@);
            let start = walk.segments.len();
            let ranges: &[KfxTextLinkRange] = if l.own_link_ranges.len() == 0 {
                inh.link_ranges
            } else {
                l.own_link_ranges.as_slice()
            };
            assert(ranges@ == x.link_ranges);
            match kfx_math_occurrence(value, ctx.string_tables) {
                Some(o) => {
                    match &o.alt {
                        Some(alt) => {
                            let ghost p0 = path@;
                            path.push(IonAuditPathToken::Field(FIELD_MATH_CONTENT));
                            path.push(IonAuditPathToken::Index(0));
                            path.push(IonAuditPathToken::Field(FIELD_CONTENT_STRING_REFERENCE));
                            assert(path@ =~= p0 + seq![IonAuditPathToken::Field(FIELD_MATH_CONTENT), IonAuditPathToken::Index(0), IonAuditPathToken::Field(FIELD_CONTENT_STRING_REFERENCE)]);
                            let none: Vec<KfxTextStyleEvent> = Vec::new();
                            record_text_event(walk, trace, path, l.position, "math_accessible_text", alt.as_str(), none.as_slice());
                            proof {
                                reveal_strlit("math_accessible_text");
                                assert(none@ =~= Seq::<KfxTextStyleEvent>::empty());
                            }
                            path.pop();
                            path.pop();
                            path.pop();
                            assert(path@ =~= p0);
                        },
                        None => {},
                    }
                    let seg = KfxContentSegment::Math {
                        position: l.position,
                        parent_position: l.parent_position,
                        occurrence: o,
                        style_name: crate::source_strings::copy_opt(&l.style_name),
                    };
                    push_seg(walk, seg);
                    record_first_segment(walk, l.own_position, start, ctx);
                    return;
                },
                None => {},
            }
            match source_image(value, ctx) {
                Some(res) => {
                    let seg = KfxContentSegment::Image {
                        position: l.position,
                        resource: res,
                        alt: content_image_alt(value),
                        style_name: crate::source_strings::copy_opt(&l.style_name),
                        inline: l.inside_image_container || l.inline_image_context,
                        link_target_symbol_id: l.image_link_target,
                    };
                    push_seg(walk, seg);
                    record_first_segment(walk, l.own_position, start, ctx);
                    return;
                },
                None => {},
            }
            match placeholder_image(value, ctx, l.own_position) {
                Some(res) => {
                    let seg = KfxContentSegment::Image {
                        position: l.position,
                        resource: res,
                        alt: content_image_alt(value),
                        style_name: crate::source_strings::copy_opt(&l.style_name),
                        inline: l.inside_image_container || l.inline_image_context,
                        link_target_symbol_id: l.image_link_target,
                    };
                    push_seg(walk, seg);
                    record_first_segment(walk, l.own_position, start, ctx);
                    walk.inferred_images = walk.inferred_images.saturating_add(1);
                    return;
                },
                None => {},
            }
            proof {
                lemma_field_models_index(fields@);
            }
            if l.own_heading_position.is_some() {
                let mut own_pending = true;
                walk_fields(fields, value, &l, Ghost(x), ranges, ctx, trace, path, walk, &mut own_pending);
            } else {
                walk_fields(fields, value, &l, Ghost(x), ranges, ctx, trace, path, walk, heading_target_pending);
            }
            record_first_segment(walk, l.own_position, start, ctx);
        },
        IonValue::List(items) => {
            walk_items(items, ctx, inh, trace, path, walk, heading_target_pending);
        },
        IonValue::SExp(items) => {
            walk_items(items, ctx, inh, trace, path, walk, heading_target_pending);
        },
        IonValue::Annotation { value: inner, .. } => {
            collect_content_segments_traced(inner, ctx, inh, trace, path, walk, heading_target_pending);
        },
        IonValue::String(t) => {
            let ts = t.as_str();
            let nonempty = !ts.is_empty();
            assert(ts@ == t@);
            if inh.allow_content_list_text && nonempty {
                let none: Vec<KfxTextStyleEvent> = Vec::new();
                record_text_event(walk, trace, path, inh.position, "bare_content_list_text", t.as_str(), none.as_slice());
                proof {
                    reveal_strlit("bare_content_list_text");
                    assert(none@ =~= Seq::<KfxTextStyleEvent>::empty());
                }
                let nav = if *heading_target_pending {
                    *heading_target_pending = false;
                    inh.heading_position
                } else {
                    None
                };
                let seg = KfxContentSegment::Text(KfxContentTextSegment {
                    position: inh.position,
                    parent_position: None,
                    navigation_heading_position: nav,
                    source_heading_level: None,
                    link_ranges: vstd::slice::slice_to_vec(inh.link_ranges),
                    link_target_symbol_id: inh.link_target,
                    text: owned(t.as_str()),
                    style_name: match inh.style_name { Some(n) => Some(owned(n)), None => None },
                    style_events: Vec::new(),
                    ruby_annotations: Vec::new(),
                });
                proof {
                    assert(ruby_views(Seq::<KfxRubyAnnotation>::empty()) =~= Seq::<RubyView>::empty());
                }
                push_seg(walk, seg);
            } else if inh.emit_scoped_image_text && nonempty {
                let none: Vec<KfxTextStyleEvent> = Vec::new();
                record_text_event(walk, trace, path, inh.position, "scoped_image_caption", t.as_str(), none.as_slice());
                proof {
                    reveal_strlit("scoped_image_caption");
                    assert(none@ =~= Seq::<KfxTextStyleEvent>::empty());
                }
                let seg = KfxContentSegment::Text(KfxContentTextSegment {
                    position: inh.position,
                    parent_position: None,
                    navigation_heading_position: None,
                    source_heading_level: None,
                    link_ranges: vstd::slice::slice_to_vec(inh.link_ranges),
                    link_target_symbol_id: inh.link_target,
                    text: owned(t.as_str()),
                    style_name: match inh.style_name { Some(n) => Some(owned(n)), None => None },
                    style_events: Vec::new(),
                    ruby_annotations: Vec::new(),
                });
                proof {
                    assert(ruby_views(Seq::<KfxRubyAnnotation>::empty()) =~= Seq::<RubyView>::empty());
                }
                push_seg(walk, seg);
            }
        },
        _ => {},
    }
}

fn walk_items(
    items: &Vec<IonValue>,
    ctx: &ContentDecodeContext,
    inh: &ContentInherited,
    trace: Option<&ContentTraceSource>,
    path: &mut Vec<IonAuditPathToken>,
    walk: &mut ContentWalk,
    pending: &mut bool,
)
    ensures
        (final(walk)@, *final(pending)) == walk_items_spec(
            models(items@), ctx@, inh@, trace_view(trace), old(path)@, old(walk)@, *old(pending),
        ),
        final(path)@ == old(path)@,
    decreases items,
{
    let ghost ms = models(items@);
    let ghost p0 = path@;
    let ghost w0 = walk@;
    let ghost b0 = *pending;
    proof {
        lemma_models_index(items@);
        assert(ms.take(0) =~= Seq::<IonModel>::empty());
    }
    let mut i: usize = 0;
    while i < items.len()
        invariant
            0 <= i <= items@.len(),
            ms == models(items@),
            ms.len() == items@.len(),
            forall|k: int| 0 <= k < items@.len() ==> #[trigger] ms[k] == items@[k]@,
            path@ == p0,
            (walk@, *pending) == walk_items_spec(ms.take(i as int), ctx@, inh@, trace_view(trace), p0, w0, b0),
        decreases items@.len() - i,
    {
        assert(decreases_to!(items => items@[i as int]));
        proof {
            assert(ms.take(i + 1).drop_last() =~= ms.take(i as int));
            assert(ms.take(i + 1).last() == ms[i as int]);
        }
        path.push(IonAuditPathToken::Index(i));
        collect_content_segments_traced(&items[i], ctx, inh, trace, path, walk, pending);
        path.pop();
        assert(path@ =~= p0);
        i = i + 1;
    }
    assert(ms.take(i as int) =~= ms);
}

fn walk_fields(
    fields: &Vec<(u64, IonValue)>,
    value: &IonValue,
    l: &StructLocals,
    Ghost(x): Ghost<Locals>,
    ranges: &[KfxTextLinkRange],
    ctx: &ContentDecodeContext,
    trace: Option<&ContentTraceSource>,
    path: &mut Vec<IonAuditPathToken>,
    walk: &mut ContentWalk,
    pending: &mut bool,
)
    requires
        locals_match(*l, x),
        x.link_ranges == ranges@,
        x.link_ranges == (if x.own_link_ranges.len() == 0 { ranges@ } else { x.own_link_ranges }),
    ensures
        (final(walk)@, *final(pending)) == walk_fields_spec(
            field_models(fields@), value@, x, ctx@, trace_view(trace), old(path)@, old(walk)@, *old(pending),
        ),
        final(path)@ == old(path)@,
    decreases fields,
{
    let ghost fs = field_models(fields@);
    let ghost p0 = path@;
    let ghost w0 = walk@;
    let ghost b0 = *pending;
    proof {
        lemma_field_models_index(fields@);
        assert(fs.take(0) =~= Seq::<(u64, IonModel)>::empty());
    }
    let mut i: usize = 0;
    while i < fields.len()
        invariant
            0 <= i <= fields@.len(),
            fs == field_models(fields@),
            fs.len() == fields@.len(),
            forall|k: int| 0 <= k < fields@.len() ==> #[trigger] fs[k] == (fields@[k].0, fields@[k].1@),
            path@ == p0,
            locals_match(*l, x),
            x.link_ranges == ranges@,
            x.link_ranges == (if x.own_link_ranges.len() == 0 { ranges@ } else { x.own_link_ranges }),
            (walk@, *pending) == walk_fields_spec(fs.take(i as int), value@, x, ctx@, trace_view(trace), p0, w0, b0),
        decreases fields@.len() - i,
    {
        assert(decreases_to!(fields => fields@[i as int].1));
        proof {
            assert(fs.take(i + 1).drop_last() =~= fs.take(i as int));
            assert(fs.take(i + 1).last() == fs[i as int]);
        }
        let f = fields[i].0;
        let child = &fields[i].1;
        path.push(IonAuditPathToken::Field(f));
        if f == FIELD_CONTENT_STRING_REFERENCE {
            match resolve_string_reference(child, ctx.string_tables) {
                Some(text) => {
                    record_text_event(walk, trace, path, l.position, "string_reference", text, l.adjacent.as_slice());
                    proof {
                        reveal_strlit("string_reference");
                    }
                    let nav = if *pending {
                        *pending = false;
                        l.heading_position
                    } else {
                        None
                    };
                    let seg = text_segment_of(l, ranges, value, ctx, nav, text);
                    assert(segment_view(seg) == text_segment(x, value@, ctx@, nav, text@));
                    push_seg(walk, seg);
                },
                None => {
                    walk.unresolved = walk.unresolved.saturating_add(1);
                },
            }
        } else if f == FIELD_FRAGMENT_TEXT {
            if !l.is_image_text_record {
                match as_string(child) {
                    Some(text) => {
                        record_text_event(walk, trace, path, l.position, "direct_text", text, l.adjacent.as_slice());
                        proof {
                            reveal_strlit("direct_text");
                        }
                        let nav = if *pending {
                            *pending = false;
                            l.heading_position
                        } else {
                            None
                        };
                        let seg = text_segment_of(l, ranges, value, ctx, nav, text);
                        assert(segment_view(seg) == text_segment(x, value@, ctx@, nav, text@));
                        push_seg(walk, seg);
                    },
                    None => {},
                }
            }
        } else {
            let is_container = match l.node_type {
                Some(t) => t == KFX_IMAGE_CONTAINER_NODE_TYPE,
                None => false,
            };
            let child_inh = ContentInherited {
                position: l.position,
                style_name: str_view_opt(&l.style_name),
                single_text_position: l.single_text_position,
                single_text_heading_level: l.single_text_heading_level,
                inside_image_container: l.inside_image_container,
                inline_image_context: l.inline_image_context,
                emit_scoped_image_text: l.emit_scoped_image_text,
                allow_content_list_text: f == FIELD_TEXT_VALUES && !l.inside_image_container && !is_container,
                heading_position: l.heading_position,
                link_target: l.link_target,
                link_ranges: ranges,
                image_link_target: l.image_link_target,
            };
            assert(child_inh@ == child_inherited(x, f));
            collect_content_segments_traced(child, ctx, &child_inh, trace, path, walk, pending);
        }
        path.pop();
        assert(path@ =~= p0);
        i = i + 1;
    }
    assert(fs.take(i as int) =~= fs);
}

/// The positions that links target.
pub open spec fn link_positions_spec(m: Map<(usize, u64), LinkTargetView>) -> Set<u32> {
    Set::new(|p: u32| exists|k: (usize, u64)| #[trigger] m.contains_key(k) && m[k] == LinkTargetView::Position(p))
}

/// Link target keys (container, symbol) are ordered as std orders pairs.
proof fn lemma_pair_keys_ordered()
    ensures
        vstd::std_specs::btree::key_obeys_cmp_spec::<(usize, u64)>(),
{
    broadcast use vstd::std_specs::btree::group_btree_axioms, vstd::laws_cmp::group_laws_cmp;
}

/// The positions that the book's links target.
pub fn link_target_positions(targets: &BTreeMap<(usize, u64), KfxLinkTarget>) -> (r: BTreeSet<u32>)
    ensures
        r@ == link_positions_spec(link_views(targets@)),
{
    proof {
        lemma_pair_keys_ordered();
    }
    broadcast use vstd::std_specs::btree::group_btree_axioms;
    let ghost lv = link_views(targets@);
    let ghost seq = vstd::std_specs::iter::IteratorSpec::remaining(&vstd::std_specs::btree::spec_btree_map_iter(targets));
    let mut out: BTreeSet<u32> = BTreeSet::new();
    for entry in it: targets.iter()
        invariant
            lv == link_views(targets@),
            it.seq() == seq,
            forall|p: u32| #[trigger] out@.contains(p) <==> exists|i: int|
                0 <= i < it.index() && *seq[i].1 == KfxLinkTarget::Position(p),
    {
        let (_, v) = entry;
        match v {
            KfxLinkTarget::Position(p) => {
                out.insert(*p);
            },
            KfxLinkTarget::Uri(_) => {},
        }
    }
    assert(forall|p: u32| #[trigger] out@.contains(p) <==> exists|i: int|
        0 <= i < seq.len() && *seq[i].1 == KfxLinkTarget::Position(p));
    assert(seq.len() == targets@.dom().len());
    assert forall|p: u32| out@.contains(p) <==> link_positions_spec(lv).contains(p) by {
        if out@.contains(p) {
            let i = choose|i: int| 0 <= i < seq.len() && *seq[i].1 == KfxLinkTarget::Position(p);
            let k = *seq[i].0;
            assert(targets@.contains_key(k));
            assert(targets@[k] == *seq[i].1);
            assert(lv.contains_key(k) && lv[k] == LinkTargetView::Position(p));
        }
        if link_positions_spec(lv).contains(p) {
            let k = choose|k: (usize, u64)| #[trigger] lv.contains_key(k) && lv[k] == LinkTargetView::Position(p);
            assert(targets@.contains_key(k));
            let t = targets@[k];
            assert(t == KfxLinkTarget::Position(p)) by {
                assert(lv[k] == t@);
            }
            assert(seq.contains((&k, &targets@[k])));
            let i = choose|i: int| 0 <= i < seq.len() && seq[i] == (&k, &targets@[k]);
            assert(*seq[i].1 == KfxLinkTarget::Position(p));
        }
    }
    assert(out@ =~= link_positions_spec(lv));
    out
}

/// What resolving the book's resources tells the walk, per container: the
/// resources each `$157` content symbol names (resource id, whether an
/// image), and the images each `$175` symbol names.
#[derive(Debug)]
pub struct ContentResources {
    pub resource_symbols: Vec<BTreeMap<u64, (u32, bool)>>,
    pub image_resource_symbols: Vec<BTreeMap<u64, (u32, bool)>>,
}

pub open spec fn map_at(s: Seq<BTreeMap<u64, (u32, bool)>>, i: usize) -> Map<u64, (u32, bool)> {
    if i < s.len() { s[i as int]@ } else { Map::empty() }
}

/// The positions with a navigation heading.
pub open spec fn heading_positions(m: NativeModelView) -> Set<u32> {
    levels_after(Map::empty(), preorder(m.navigation)).dom()
}

/// The context of the content fragment `f` of book `m`.
pub open spec fn fragment_context(m: NativeModelView, r: ContentResources, f: usize) -> ContextView {
    let ci = m.fragments[f as int].container_index;
    ContextView {
        container_index: ci,
        tables: m.string_tables,
        ruby: ruby_contents_spec(m.fragments, m.string_tables),
        resources: map_at(r.resource_symbols@, ci),
        images: map_at(r.image_resource_symbols@, ci),
        styles: if ci < m.containers.len() { Some(m.containers[ci as int].symbols.names) } else { None },
        record_symbol: if ci < m.containers.len() {
            whitespace_symbol_spec(m.containers[ci as int].symbols.imports, false)
        } else {
            None
        },
        headings: Some(heading_positions(m)),
        link_positions: link_positions_spec(m.link_targets),
    }
}

/// A fragment's walk starts with nothing inherited.
pub open spec fn top_inherited() -> InheritedView {
    InheritedView {
        position: None,
        style_name: None,
        single_text_position: None,
        single_text_heading_level: None,
        inside_image_container: false,
        inline_image_context: false,
        emit_scoped_image_text: false,
        allow_content_list_text: false,
        heading_position: None,
        link_target: None,
        link_ranges: Seq::empty(),
        image_link_target: None,
    }
}

/// The source of the text events of the fragment at place `k` of the
/// content order (`Fnnn`, from one), at index `f`.
pub open spec fn fragment_source(m: NativeModelView, k: nat, f: usize) -> TraceSourceView {
    let locs = trace_locations_spec(m);
    TraceSourceView {
        section_id: if locs.contains_key(f) { locs[f].section_id } else { None },
        story_id: if locs.contains_key(f) { locs[f].story_id } else { None },
        source_fragment: alias_spec("F"@, k + 1),
        source_fragment_order: k as usize,
        eid: m.fragments[f as int].entity_id,
    }
}

/// The image placements among segments, in order.
pub open spec fn image_placements(s: Seq<SegmentView>) -> Seq<(Option<u32>, u32)>
    decreases s.len(),
{
    if s.len() == 0 {
        Seq::empty()
    } else {
        let prev = image_placements(s.drop_last());
        match s.last() {
            SegmentView::Image(position, res, _, _, _, _) => prev.push((position, res)),
            _ => prev,
        }
    }
}

/// What tracing the content fragments gathers: the text events, the
/// string references that did not resolve, the image placeholders
/// inferred (both saturating) and the image placements.
pub struct TraceView {
    pub events: Seq<EventView>,
    pub unresolved: usize,
    pub inferred_images: usize,
    pub images: Seq<(Option<u32>, u32)>,
}

pub open spec fn sat_add(a: usize, b: usize) -> usize {
    if a + b <= usize::MAX { (a + b) as usize } else { usize::MAX }
}

/// The walk of the content fragments in `order` (places `0 ..`), each a
/// `$259` fragment walked from its root; other entries are passed over.
pub open spec fn trace_spec(m: NativeModelView, r: ContentResources, order: Seq<usize>) -> TraceView
    decreases order.len(),
{
    if order.len() == 0 {
        TraceView { events: Seq::empty(), unresolved: 0, inferred_images: 0, images: Seq::empty() }
    } else {
        let prev = trace_spec(m, r, order.drop_last());
        let k = (order.len() - 1) as nat;
        let f = order.last();
        if f < m.fragments.len() && m.fragments[f as int].fragment_type == 259 {
            let start = WalkView {
                segments: Seq::empty(),
                unresolved: 0,
                inferred_images: prev.inferred_images,
                indices: Map::empty(),
                events: prev.events,
            };
            let (w, _) = walk_spec(
                m.fragments[f as int].value,
                fragment_context(m, r, f),
                top_inherited(),
                Some(fragment_source(m, k, f)),
                Seq::empty(),
                start,
                false,
            );
            TraceView {
                events: w.events,
                unresolved: sat_add(prev.unresolved, w.unresolved),
                inferred_images: w.inferred_images,
                images: prev.images + image_placements(w.segments),
            }
        } else {
            prev
        }
    }
}

/// What tracing the content gathers, in executable form.
#[derive(Debug)]
pub struct ContentTrace {
    pub capture: TextEventCapture,
    pub native: Vec<CapturedImagePlacement>,
    pub inferred_images: usize,
}

pub open spec fn placement_views(s: Seq<CapturedImagePlacement>) -> Seq<(Option<u32>, u32)> {
    s.map_values(|c: CapturedImagePlacement| (c.position_target_id, c.resource))
}

fn append_images(segments: &Vec<KfxContentSegment>, out: &mut Vec<CapturedImagePlacement>)
    ensures
        placement_views(final(out)@) == placement_views(old(out)@) + image_placements(segment_views(segments@)),
{
    let ghost sv = segment_views(segments@);
    let ghost o0 = placement_views(out@);
    let mut i: usize = 0;
    assert(o0 + image_placements(sv.take(0)) =~= o0);
    while i < segments.len()
        invariant
            0 <= i <= segments@.len(),
            sv == segment_views(segments@),
            placement_views(out@) == o0 + image_placements(sv.take(i as int)),
        decreases segments@.len() - i,
    {
        proof {
            assert(sv.take(i + 1).drop_last() =~= sv.take(i as int));
            assert(sv.take(i + 1).last() == sv[i as int]);
            assert(sv[i as int] == segment_view(segments@[i as int]));
        }
        let ghost before = placement_views(out@);
        match &segments[i] {
            KfxContentSegment::Image { position, resource, .. } => {
                out.push(CapturedImagePlacement { resource: *resource, position_target_id: *position });
                assert(placement_views(out@) =~= before.push((*position, *resource)));
            },
            _ => {},
        }
        i = i + 1;
    }
    assert(sv.take(i as int) =~= sv);
}

/// Walks every content fragment of the book in content order, tracing
/// its text events: what the semantic pass sees of the content before it
/// builds documents. The private text of the events is kept only when
/// `include_private_text` is set, which the capture carries.
pub fn trace_content(model: &NativeModel, resources: &ContentResources, include_private_text: bool) -> (r: ContentTrace)
    ensures
        ({
            let t = trace_spec(model@, *resources, content_order_spec(model@));
            &&& event_views(r.capture.events@) == t.events
            &&& r.capture.unresolved_text_reference_count == t.unresolved
            &&& r.capture.include_private_text == include_private_text
            &&& r.inferred_images == t.inferred_images
            &&& placement_views(r.native@) == t.images
        }),
{
    let ghost m = model@;
    proof {
        assert(fragment_views(model.fragments@) == m.fragments);
        assert(container_views(model.containers@) == m.containers);
    }
    let order: Vec<usize> = match ordered_content_fragment_indices(model) {
        Some(v) => v,
        None => fragment_positions(&model.fragments, 259),
    };
    let ruby = collect_ruby_contents(model);
    let mut levels: BTreeMap<u32, u8> = BTreeMap::new();
    collect_navigation_heading_levels(&model.navigation, &mut levels);
    let positions = link_target_positions(&model.link_targets);
    let locations = ordered_content_trace_locations(model);
    let ghost lv = location_map_view(locations@);
    let empty: BTreeMap<u64, (u32, bool)> = BTreeMap::new();
    let no_ranges: Vec<KfxTextLinkRange> = Vec::new();
    let mut events: Vec<CapturedKfxTextEvent> = Vec::new();
    let mut unresolved: usize = 0;
    let mut inferred: usize = 0;
    let mut native: Vec<CapturedImagePlacement> = Vec::new();
    let mut k: usize = 0;
    proof {
        assert(event_views(events@) =~= Seq::<EventView>::empty());
        assert(placement_views(native@) =~= Seq::<(Option<u32>, u32)>::empty());
        assert(order@.take(0) =~= Seq::<usize>::empty());
    }
    while k < order.len()
        invariant
            0 <= k <= order@.len(),
            m == model@,
            m.fragments == fragment_views(model.fragments@),
            m.containers == container_views(model.containers@),
            order@ == content_order_spec(m),
            ruby_map_view(ruby@) == ruby_contents_spec(m.fragments, m.string_tables),
            levels@.dom() == heading_positions(m),
            positions@ == link_positions_spec(m.link_targets),
            lv == location_map_view(locations@),
            lv == trace_locations_spec(m),
            empty@ == Map::<u64, (u32, bool)>::empty(),
            no_ranges@ == Seq::<KfxTextLinkRange>::empty(),
            ({
                let t = trace_spec(m, *resources, order@.take(k as int));
                &&& event_views(events@) == t.events
                &&& unresolved == t.unresolved
                &&& inferred == t.inferred_images
                &&& placement_views(native@) == t.images
            }),
        decreases order@.len() - k,
    {
        proof {
            assert(order@.take(k + 1).drop_last() =~= order@.take(k as int));
            assert(order@.take(k + 1).last() == order@[k as int]);
        }
        let f = order[k];
        if f < model.fragments.len() && model.fragments[f].fragment_type == 259 {
            let fragment = &model.fragments[f];
            assert(m.fragments[f as int] == fragment@);
            let ci = fragment.container_index;
            let resource_symbols = if ci < resources.resource_symbols.len() { &resources.resource_symbols[ci] } else { &empty };
            let image_symbols = if ci < resources.image_resource_symbols.len() { &resources.image_resource_symbols[ci] } else { &empty };
            let (style_names, record_symbol) = if ci < model.containers.len() {
                let c = &model.containers[ci];
                assert(m.containers[ci as int] == c@);
                (Some(&c.symbols.names), observed_whitespace_resource_record_symbol_for_imports_content(&c.symbols.imports))
            } else {
                (None, None)
            };
            let ctx = ContentDecodeContext {
                container_index: ci,
                string_tables: &model.string_tables,
                ruby_contents: &ruby,
                resource_symbols,
                image_resource_symbols: image_symbols,
                style_names,
                image_record_symbol: record_symbol,
                navigation_heading_levels: Some(&levels),
                link_target_positions: &positions,
            };
            assert(ctx@ == fragment_context(m, *resources, f));
            let inh = ContentInherited {
                position: None,
                style_name: None,
                single_text_position: None,
                single_text_heading_level: None,
                inside_image_container: false,
                inline_image_context: false,
                emit_scoped_image_text: false,
                allow_content_list_text: false,
                heading_position: None,
                link_target: None,
                link_ranges: no_ranges.as_slice(),
                image_link_target: None,
            };
            assert(inh@ == top_inherited());
            let (section_id, story_id) = match locations.get(&f) {
                Some(l) => (crate::source_strings::copy_opt(&l.section_id), crate::source_strings::copy_opt(&l.story_id)),
                None => (None, None),
            };
            let source = ContentTraceSource {
                section_id,
                story_id,
                source_fragment: alias("F", k + 1),
                source_fragment_order: k,
                eid: fragment.entity_id,
            };
            proof {
                reveal_strlit("F");
            }
            assert(source@ == fragment_source(m, k as nat, f));
            let mut walk = ContentWalk {
                segments: Vec::new(),
                unresolved: 0,
                inferred_images: inferred,
                link_target_segment_indices: BTreeMap::new(),
                events,
            };
            let ghost w0 = walk@;
            proof {
                assert(segment_views(walk.segments@) =~= Seq::<SegmentView>::empty());
                assert(walk@.indices =~= Map::<u32, usize>::empty());
            }
            let mut path: Vec<IonAuditPathToken> = Vec::new();
            let mut pending = false;
            collect_content_segments_traced(&fragment.value, &ctx, &inh, Some(&source), &mut path, &mut walk, &mut pending);
            append_images(&walk.segments, &mut native);
            unresolved = unresolved.saturating_add(walk.unresolved);
            inferred = walk.inferred_images;
            events = walk.events;
        }
        k = k + 1;
    }
    assert(order@.take(k as int) =~= order@);
    ContentTrace {
        capture: TextEventCapture { include_private_text, unresolved_text_reference_count: unresolved, events },
        native,
        inferred_images: inferred,
    }
}

/// Two walk states that differ at most in their traced events.
pub open spec fn same_but_events(a: WalkView, b: WalkView) -> bool {
    &&& a.segments == b.segments
    &&& a.unresolved == b.unresolved
    &&& a.inferred_images == b.inferred_images
    &&& a.indices == b.indices
}

/// Tracing only observes the walk: with or without a trace source, and
/// whatever path it starts from, a content value gives the same segments,
/// counts, linked positions and pending heading.
pub proof fn lemma_trace_only_observes(
    m: IonModel,
    c: ContextView,
    inh: InheritedView,
    t1: Option<TraceSourceView>,
    t2: Option<TraceSourceView>,
    path1: Seq<IonAuditPathToken>,
    path2: Seq<IonAuditPathToken>,
    s1: WalkView,
    s2: WalkView,
    pending: bool,
)
    requires
        same_but_events(s1, s2),
    ensures
        same_but_events(walk_spec(m, c, inh, t1, path1, s1, pending).0, walk_spec(m, c, inh, t2, path2, s2, pending).0),
        walk_spec(m, c, inh, t1, path1, s1, pending).1 == walk_spec(m, c, inh, t2, path2, s2, pending).1,
    decreases m, 1nat,
{
    match m {
        IonModel::Struct(fields) => {
            let l = locals_spec(m, c, inh);
            if math_occurrence_spec(m, c.tables) is None && source_image_spec(m, c) is None
                && placeholder_spec(m, c, l.own_position) is None {
                let own = l.own_heading_position is Some;
                lemma_fields_trace_only_observes(fields, m, l, c, t1, t2, path1, path2, s1, s2, if own { true } else { pending });
            }
        },
        IonModel::List(items) => lemma_items_trace_only_observes(items, c, inh, t1, t2, path1, path2, s1, s2, pending),
        IonModel::SExp(items) => lemma_items_trace_only_observes(items, c, inh, t1, t2, path1, path2, s1, s2, pending),
        IonModel::Annotation { value, .. } => lemma_trace_only_observes(*value, c, inh, t1, t2, path1, path2, s1, s2, pending),
        _ => {},
    }
}

proof fn lemma_fields_trace_only_observes(
    fields: Seq<(u64, IonModel)>,
    m: IonModel,
    l: Locals,
    c: ContextView,
    t1: Option<TraceSourceView>,
    t2: Option<TraceSourceView>,
    path1: Seq<IonAuditPathToken>,
    path2: Seq<IonAuditPathToken>,
    s1: WalkView,
    s2: WalkView,
    pending: bool,
)
    requires
        same_but_events(s1, s2),
    ensures
        same_but_events(
            walk_fields_spec(fields, m, l, c, t1, path1, s1, pending).0,
            walk_fields_spec(fields, m, l, c, t2, path2, s2, pending).0,
        ),
        walk_fields_spec(fields, m, l, c, t1, path1, s1, pending).1 == walk_fields_spec(fields, m, l, c, t2, path2, s2, pending).1,
    decreases fields, 0nat,
{
    if fields.len() > 0 {
        lemma_fields_trace_only_observes(fields.drop_last(), m, l, c, t1, t2, path1, path2, s1, s2, pending);
        let (a1, p1) = walk_fields_spec(fields.drop_last(), m, l, c, t1, path1, s1, pending);
        let (a2, p2) = walk_fields_spec(fields.drop_last(), m, l, c, t2, path2, s2, pending);
        let (f, child) = fields.last();
        if f != FIELD_CONTENT_STRING_REFERENCE && f != FIELD_FRAGMENT_TEXT {
            assert(decreases_to!(fields => fields[fields.len() - 1].1));
            lemma_trace_only_observes(
                child, c, child_inherited(l, f), t1, t2,
                path1.push(IonAuditPathToken::Field(f)), path2.push(IonAuditPathToken::Field(f)), a1, a2, p1,
            );
        }
    }
}

proof fn lemma_items_trace_only_observes(
    items: Seq<IonModel>,
    c: ContextView,
    inh: InheritedView,
    t1: Option<TraceSourceView>,
    t2: Option<TraceSourceView>,
    path1: Seq<IonAuditPathToken>,
    path2: Seq<IonAuditPathToken>,
    s1: WalkView,
    s2: WalkView,
    pending: bool,
)
    requires
        same_but_events(s1, s2),
    ensures
        same_but_events(
            walk_items_spec(items, c, inh, t1, path1, s1, pending).0,
            walk_items_spec(items, c, inh, t2, path2, s2, pending).0,
        ),
        walk_items_spec(items, c, inh, t1, path1, s1, pending).1 == walk_items_spec(items, c, inh, t2, path2, s2, pending).1,
    decreases items, 0nat,
{
    if items.len() > 0 {
        lemma_items_trace_only_observes(items.drop_last(), c, inh, t1, t2, path1, path2, s1, s2, pending);
        let (a1, p1) = walk_items_spec(items.drop_last(), c, inh, t1, path1, s1, pending);
        let (a2, p2) = walk_items_spec(items.drop_last(), c, inh, t2, path2, s2, pending);
        let k = (items.len() - 1) as usize;
        lemma_trace_only_observes(
            items.last(), c, inh, t1, t2,
            path1.push(IonAuditPathToken::Index(k)), path2.push(IonAuditPathToken::Index(k)), a1, a2, p1,
        );
    }
}

} // verus!
