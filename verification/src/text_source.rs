//! The source of one text event: the Ion value at a numeric source path in
//! one content fragment, named by its anonymous alias (`F006`), with the
//! values along the path and their nearby siblings summarised without their
//! content.
use vstd::prelude::*;
use crate::audit_path::{
    IonAuditPathToken, parse_ion_audit_path, parse_path_spec, resolve_ion_audit_path, resolve_path_spec,
    format_ion_audit_path, format_path_spec, digit_run_len, lemma_digit_run_len_bound, scan_number,
};
use crate::content::{resolve_string_reference, resolve_ref_spec, FIELD_CONTENT_STRING_REFERENCE, FIELD_FRAGMENT_STRING_INDEX};
use crate::decode::{opt_string_view, FIELD_FRAGMENT_ID};
use crate::digest::{sha256, sha256_digest};
use crate::error::{AmazonKfxError, KfxErrorView, ParseMode};
use crate::inspect::{parse_native, native_spec};
use crate::ion::{IonModel, IonValue};
use crate::ion_audit::{
    IonAuditSummary, SummaryView, ion_audit_step, ion_audit_value_summary, step_spec, summary_spec, edge_views,
};
use crate::links::{KfxTextStyleEvent, FIELD_TEXT_STYLE_EVENTS, summarize_text_style_events, style_events_spec};
use crate::media::{hex_lower, hex_spec};
use crate::native::{NativeModel, NativeModelView, FragmentView, ContainerOwnedView, fragment_views, container_views, has_cont_prefix};
use crate::nav_index::{ends_with, chars_end_with};
use crate::reading::{
    ordered_content_fragment_indices, ordered_content_trace_locations, location_map_view, trace_locations_spec,
    FIELD_CONTENT_FRAGMENT_SYMBOL,
};
use crate::source_strings::CONTENT_FRAGMENT_TYPE;
use crate::text::{chars_of, owned, join2, is_digit, digits_value};
use crate::text_events::{content_order_spec, fragment_positions, KfxTextEvent, pad6, raw_digest, text_event_record, CapturedKfxTextEvent};
use crate::content_walk::{ContentResources, EventView, event_view, event_views, trace_spec, trace_content};
use crate::text::{decimal, str_eq};
use crate::value::{field_of, items_of, symbol_field, int_field, struct_get, list_items, symbol_field_of, int_field_of, string_of};

verus! {

broadcast use vstd::laws_cmp::group_laws_cmp;

/// The number an alias such as `F006` names: `F`, an optional `+`, then
/// decimal digits for a positive number that fits `usize`.
pub open spec fn alias_number(a: Seq<char>) -> Option<nat> {
    if a.len() >= 1 && a[0] == 'F' {
        let rest = a.subrange(1, a.len() as int);
        let digits = if rest.len() > 0 && rest[0] == '+' { rest.subrange(1, rest.len() as int) } else { rest };
        if digits.len() > 0 && digit_run_len(digits) == digits.len() && digits_value(digits) <= usize::MAX
            && digits_value(digits) > 0 {
            Some(digits_value(digits))
        } else {
            None
        }
    } else {
        None
    }
}

fn parse_alias(alias: &str) -> (r: Option<usize>)
    ensures
        match alias_number(alias@) {
            Some(n) => r == Some(n as usize),
            None => r is None,
        },
{
    let chars = chars_of(alias);
    if chars.len() == 0 || chars[0] != 'F' {
        return None;
    }
    let start: usize = if chars.len() > 1 && chars[1] == '+' { 2 } else { 1 };
    let ghost rest = alias@.subrange(1, alias@.len() as int);
    let ghost digits = chars@.subrange(start as int, chars@.len() as int);
    assert(digits =~= (if rest.len() > 0 && rest[0] == '+' { rest.subrange(1, rest.len() as int) } else { rest }));
    let (end, value) = scan_number(&chars, start, 0xffff_ffff_ffff_ffff);
    proof {
        lemma_digit_run_len_bound(digits);
    }
    if end != chars.len() || end == start {
        return None;
    }
    assert(chars@.subrange(start as int, end as int) =~= digits);
    match value {
        Some(v) => {
            if v == 0 || v > (usize::MAX as u64) {
                return None;
            }
            Some(v as usize)
        },
        None => None,
    }
}

/// The content fragments (`$259`) in reading order.
pub open spec fn story_fragments(order: Seq<usize>, fs: Seq<FragmentView>) -> Seq<usize>
    decreases order.len(),
{
    if order.len() == 0 {
        Seq::empty()
    } else {
        let before = story_fragments(order.drop_last(), fs);
        let i = order.last();
        if i < fs.len() && fs[i as int].fragment_type == CONTENT_FRAGMENT_TYPE { before.push(i) } else { before }
    }
}

/// The summaries of the siblings along one step.
pub open spec fn sibling_summaries(
    s: Seq<(IonAuditPathToken, IonModel)>,
    private_text: bool,
    names: Option<Map<u64, Seq<char>>>,
    private_names: bool,
) -> Seq<(IonAuditPathToken, SummaryView)> {
    s.map_values(|e: (IonAuditPathToken, IonModel)| (e.0, summary_spec(e.1, private_text, names, private_names)))
}

/// One step of the path: where it starts, the value there, the selector
/// taken and the siblings beside the selected child.
#[derive(Debug)]
pub struct PathContextEntry {
    pub parent_path: String,
    pub parent: IonAuditSummary,
    pub selected_edge: IonAuditPathToken,
    pub sibling_summaries: Vec<(IonAuditPathToken, IonAuditSummary)>,
}

pub struct PathContextView {
    pub parent_path: Seq<char>,
    pub parent: SummaryView,
    pub selected_edge: IonAuditPathToken,
    pub sibling_summaries: Seq<(IonAuditPathToken, SummaryView)>,
}

impl View for PathContextEntry {
    type V = PathContextView;

    open spec fn view(&self) -> PathContextView {
        PathContextView {
            parent_path: self.parent_path@,
            parent: self.parent.summary_view(),
            selected_edge: self.selected_edge,
            sibling_summaries: self.sibling_summaries@.map_values(|e: (IonAuditPathToken, IonAuditSummary)| (e.0, e.1.summary_view())),
        }
    }
}

/// The context of the rest of a path from `current`, after `done`.
pub open spec fn path_context(
    current: IonModel,
    rest: Seq<IonAuditPathToken>,
    done: Seq<IonAuditPathToken>,
    private_text: bool,
    names: Option<Map<u64, Seq<char>>>,
    private_names: bool,
) -> Option<Seq<PathContextView>>
    decreases rest.len(),
{
    if rest.len() == 0 {
        Some(Seq::empty())
    } else {
        match step_spec(current, rest[0]) {
            None => None,
            Some((child, siblings)) => match path_context(child, rest.drop_first(), done.push(rest[0]), private_text, names, private_names) {
                None => None,
                Some(after) => Some(seq![PathContextView {
                    parent_path: format_path_spec(done),
                    parent: summary_spec(current, private_text, names, private_names),
                    selected_edge: rest[0],
                    sibling_summaries: sibling_summaries(siblings, private_text, names, private_names),
                }] + after),
            },
        }
    }
}

/// The string reference at the target: its table, its index and whether it
/// resolves.
#[derive(Debug)]
pub struct StringReferenceSummary {
    pub table_symbol_id: Option<u32>,
    pub string_index: Option<usize>,
    pub resolved: bool,
}

/// The text the target shows: its length and digest; the text itself only
/// when asked for.
#[derive(Debug)]
pub struct ResolvedTextSummary {
    pub unicode_scalar_count: usize,
    pub sha256_raw_audit_only: String,
    pub private_text: Option<String>,
}

/// The style events beside a string reference.
#[derive(Debug)]
pub struct AdjacentStyleEvents {
    pub item_count: usize,
    pub events: Vec<KfxTextStyleEvent>,
}

/// The source of one text event.
#[derive(Debug)]
pub struct KfxTextFragmentSourceAudit {
    pub schema_version: u32,
    pub input_sha256_audit_only: String,
    pub fragment_alias: String,
    pub entity_id: u32,
    pub fragment_type: u32,
    pub container_symbol_count: usize,
    pub content_symbol_id: Option<u64>,
    pub section_id: Option<String>,
    pub story_id: Option<String>,
    pub relationship_basis: String,
    pub source_path: String,
    pub path_context: Vec<PathContextEntry>,
    pub target: IonAuditSummary,
    pub adjacent_style_events: Option<AdjacentStyleEvents>,
    pub string_reference: Option<StringReferenceSummary>,
    pub resolved_text: Option<ResolvedTextSummary>,
    pub private_text_included: bool,
    pub private_symbol_names_included: bool,
    /// The traced text event at this fragment and path, if any.
    pub event: Option<KfxTextEvent>,
}

pub open spec fn source_dump_header_message() -> Seq<char> {
    "KFX source dump requires an Amazon CONT KFX input"@
}

pub open spec fn alias_message() -> Seq<char> {
    "fragment must be an anonymous text-event alias such as F006"@
}

pub open spec fn alias_missing_message(alias: Seq<char>) -> Seq<char> {
    "content fragment alias "@ + alias + " was not found"@
}

pub open spec fn path_missing_message(path: Seq<char>, alias: Seq<char>) -> Seq<char> {
    "source path "@ + path + " does not resolve in fragment "@ + alias
}

/// The container's symbol names, when the fragment's container exists.
pub open spec fn container_names(cs: Seq<ContainerOwnedView>, f: FragmentView) -> Option<Map<u64, Seq<char>>> {
    if f.container_index < cs.len() { Some(cs[f.container_index as int].symbols.names) } else { None }
}

/// The text a target shows and the string reference it is: a string shows
/// itself; a value at a path ending in `$145` is a reference into the
/// string tables.
pub open spec fn target_text(target: IonModel, source_path: Seq<char>, tables: Map<u32, Seq<Seq<char>>>) -> Option<Seq<char>> {
    match target {
        IonModel::String(t) => Some(t),
        _ => if ends_with(source_path, "$145"@) { resolve_ref_spec(target, tables) } else { None },
    }
}

/// What the audit states of its target, beside the summaries.
pub open spec fn target_ok(r: KfxTextFragmentSourceAudit, target: IonModel, source_path: Seq<char>, tables: Map<u32, Seq<Seq<char>>>, private_text: bool) -> bool {
    &&& match target {
        IonModel::String(_) => r.string_reference is None,
        _ => if ends_with(source_path, "$145"@) {
            r.string_reference matches Some(sr) && sr.resolved == (resolve_ref_spec(target, tables) is Some)
                && sr.table_symbol_id == (match symbol_field(target, FIELD_FRAGMENT_ID) {
                    Some(t) => if t <= u32::MAX { Some(t as u32) } else { None },
                    None => None,
                })
                && sr.string_index == (match int_field(target, FIELD_FRAGMENT_STRING_INDEX) {
                    Some(i) => if 0 <= i <= usize::MAX { Some(i as usize) } else { None },
                    None => None,
                })
        } else {
            r.string_reference is None
        },
    }
    &&& match target_text(target, source_path, tables) {
        Some(t) => r.resolved_text matches Some(s) && s.unicode_scalar_count == t.len()
            && s.sha256_raw_audit_only@ == hex_spec(sha256(vstd::utf8::encode_utf8(t)))
            && opt_string_view(s.private_text) == (if private_text { Some(t) } else { None }),
        None => r.resolved_text is None,
    }
}

/// The style events beside the target, when the path ends at a `$145`
/// field: those of the value holding it.
pub open spec fn adjacent_ok(r: Option<AdjacentStyleEvents>, value: IonModel, path: Seq<IonAuditPathToken>) -> bool {
    if path.len() > 0 && path.last() == IonAuditPathToken::Field(FIELD_CONTENT_STRING_REFERENCE) {
        match resolve_path_spec(value, path.drop_last()) {
            Some(parent) => match field_of(parent, FIELD_TEXT_STYLE_EVENTS) {
                Some(list) => match items_of(list) {
                    Some(items) => r matches Some(a) && a.item_count == items.len() && a.events@ == style_events_spec(items),
                    None => r is None,
                },
                None => r is None,
            },
            None => r is None,
        }
    } else {
        r is None
    }
}

/// The audit of the fragment at `index` of the book `m`, at `path`.
pub open spec fn source_audit_ok(
    r: KfxTextFragmentSourceAudit,
    bytes: Seq<u8>,
    m: NativeModelView,
    index: int,
    alias: Seq<char>,
    source_path: Seq<char>,
    path: Seq<IonAuditPathToken>,
    target: IonModel,
    context: Seq<PathContextView>,
    private_text: bool,
    private_names: bool,
) -> bool {
    let f = m.fragments[index];
    let names = container_names(m.containers, f);
    let locations = trace_locations_spec(m);
    let location = if locations.contains_key(index as usize) { Some(locations[index as usize]) } else { None };
    &&& r.schema_version == 1
    &&& r.input_sha256_audit_only@ == hex_spec(sha256(bytes))
    &&& r.fragment_alias@ == alias
    &&& r.entity_id == f.entity_id
    &&& r.fragment_type == f.fragment_type
    &&& r.container_symbol_count == (match names { Some(n) => n.dom().len(), None => 0 })
    &&& r.content_symbol_id == (match names {
        Some(_) => symbol_field(f.value, FIELD_CONTENT_FRAGMENT_SYMBOL),
        None => None,
    })
    &&& opt_string_view(r.section_id) == (match location { Some(l) => l.section_id, None => None })
    &&& opt_string_view(r.story_id) == (match location { Some(l) => l.story_id, None => None })
    &&& r.relationship_basis@ == (if (match location { Some(l) => l.story_id is Some, None => false }) {
        "reading_order_to_section_to_story_reference"@
    } else {
        "content_fragment_without_proven_story_reference"@
    })
    &&& r.source_path@ == source_path
    &&& r.path_context@.map_values(|e: PathContextEntry| e@) == context
    &&& r.target.summary_view() == summary_spec(target, private_text, names, private_names)
    &&& adjacent_ok(r.adjacent_style_events, f.value, path)
    &&& target_ok(r, target, source_path, m.string_tables, private_text)
    &&& r.private_text_included == private_text
    &&& r.private_symbol_names_included == private_names
}

/// The place of the first traced event of fragment `alias` at `path`.
pub open spec fn first_event_at(events: Seq<EventView>, alias: Seq<char>, path: Seq<char>) -> Option<int>
    decreases events.len(),
{
    if events.len() == 0 {
        None
    } else {
        match first_event_at(events.drop_last(), alias, path) {
            Some(k) => Some(k),
            None => if events.last().source_fragment == alias && events.last().source_path == path {
                Some(events.len() - 1)
            } else {
                None
            },
        }
    }
}

/// `r` is the audit record of the traced event `e` at place `index`.
pub open spec fn event_record_ok(r: KfxTextEvent, index: nat, e: EventView, private_text: bool) -> bool {
    &&& r.trace_id@ == "T"@ + pad6(decimal(index + 1))
    &&& opt_string_view(r.section_id) == e.section_id
    &&& opt_string_view(r.story_id) == e.story_id
    &&& r.source_fragment@ == e.source_fragment
    &&& r.source_fragment_order == e.source_fragment_order
    &&& r.eid == e.eid
    &&& r.source_path@ == e.source_path
    &&& r.source_value_kind@ == e.text_kind
    &&& r.source_position == e.source_position
    &&& r.source_position_kind@ == if e.source_position is Some { "field_155_kfx_navigation_target_id"@ } else { "not_present"@ }
    &&& r.text_len == e.text.len()
    &&& r.text_hash_raw_audit_only@ == raw_digest(e.text)
    &&& r.context@ == if e.story_id is Some { "Story"@ } else { "Body"@ }
    &&& r.context_basis@ == if e.story_id is Some { "reading_order_section_story_reference"@ } else { "KFX_type_259_content_fragment"@ }
    &&& r.adjacent_style_events@ == e.adjacent_style_events
    &&& opt_string_view(r.text) == if private_text { Some(e.text) } else { None }
}

/// The event of the audit: the first event that tracing the content of `m`
/// records at the fragment and path, as the text-event audit reports it.
pub open spec fn event_field_ok(
    r: Option<KfxTextEvent>,
    m: NativeModelView,
    resources: ContentResources,
    alias: Seq<char>,
    source_path: Seq<char>,
    private_text: bool,
) -> bool {
    let events = trace_spec(m, resources, content_order_spec(m)).events;
    match first_event_at(events, alias, source_path) {
        None => r is None,
        Some(k) => r matches Some(e) && event_record_ok(e, k as nat, events[k], private_text),
    }
}

/// What the source audit returns for these arguments.
pub open spec fn text_source_result_ok(
    r: Result<KfxTextFragmentSourceAudit, AmazonKfxError>,
    bytes: Seq<u8>,
    resources: ContentResources,
    alias: Seq<char>,
    source_path: Seq<char>,
    private_text: bool,
    private_names: bool,
) -> bool {
    if !has_cont_prefix(bytes) {
        r matches Err(e) && e@ == KfxErrorView::InvalidHeader(source_dump_header_message())
    } else {
        match alias_number(alias) {
            None => r matches Err(e) && e@ == KfxErrorView::Semantic(alias_message()),
            Some(n) => match parse_path_spec(source_path) {
                Err(msg) => r matches Err(e) && e@ == KfxErrorView::Semantic(msg),
                Ok(path) => match native_spec(seq![bytes], ParseMode::Compatible) {
                    Err(e) => r matches Err(x) && x@ == e,
                    Ok(m) => if m.drm_detected {
                        r matches Err(x) && x@ == KfxErrorView::ProtectedContent
                    } else {
                        let stories = story_fragments(content_order_spec(m), m.fragments);
                        if n > stories.len() {
                            r matches Err(x) && x@ == KfxErrorView::Semantic(alias_missing_message(alias))
                        } else {
                            let index = stories[n - 1] as int;
                            let f = m.fragments[index];
                            let names = container_names(m.containers, f);
                            match resolve_path_spec(f.value, path) {
                                None => r matches Err(x) && x@ == KfxErrorView::Semantic(path_missing_message(source_path, alias)),
                                Some(target) => match path_context(f.value, path, Seq::empty(), private_text, names, private_names) {
                                    None => r matches Err(x) && x@ == KfxErrorView::Semantic(path_missing_message(source_path, alias)),
                                    Some(context) => r matches Ok(a)
                                        && source_audit_ok(a, bytes, m, index, alias, source_path, path, target, context, private_text, private_names)
                                        && event_field_ok(a.event, m, resources, alias, source_path, private_text),
                                },
                            }
                        }
                    },
                },
            },
        }
    }
}

fn story_fragment_list(model: &NativeModel) -> (r: Vec<usize>)
    ensures
        r@ == story_fragments(content_order_spec(model@), model@.fragments),
        forall|k: int| 0 <= k < r@.len() ==> #[trigger] r@[k] < model@.fragments.len(),
{
    let ghost fs = model@.fragments;
    proof {
        assert(fragment_views(model.fragments@) == fs);
    }
    let order: Vec<usize> = match ordered_content_fragment_indices(model) {
        Some(v) => v,
        None => fragment_positions(&model.fragments, CONTENT_FRAGMENT_TYPE),
    };
    let mut out: Vec<usize> = Vec::new();
    let mut i: usize = 0;
    while i < order.len()
        invariant
            0 <= i <= order@.len(),
            order@ == content_order_spec(model@),
            fs == model@.fragments,
            fs.len() == model.fragments@.len(),
            out@ == story_fragments(order@.take(i as int), fs),
            forall|k: int| 0 <= k < out@.len() ==> #[trigger] out@[k] < fs.len(),
        decreases order@.len() - i,
    {
        proof {
            assert(order@.take(i + 1).drop_last() =~= order@.take(i as int));
            assert(order@.take(i + 1).last() == order@[i as int]);
        }
        let index = order[i];
        if index < model.fragments.len() && model.fragments[index].fragment_type == CONTENT_FRAGMENT_TYPE {
            assert(fs[index as int] == model.fragments@[index as int]@);
            out.push(index);
        } else {
            proof {
                if index < fs.len() {
                    assert(fs[index as int] == model.fragments@[index as int]@);
                }
            }
        }
        i = i + 1;
    }
    assert(order@.take(order@.len() as int) =~= order@);
    out
}

fn summarize_siblings(
    siblings: &Vec<(IonAuditPathToken, &IonValue)>,
    private_text: bool,
    symbols: Option<&crate::symbols::SymbolTable>,
    private_names: bool,
) -> (r: Vec<(IonAuditPathToken, IonAuditSummary)>)
    ensures
        r@.map_values(|e: (IonAuditPathToken, IonAuditSummary)| (e.0, e.1.summary_view()))
            == sibling_summaries(edge_views(siblings@), private_text, crate::ion_audit::table_names(symbols), private_names),
{
    let mut out: Vec<(IonAuditPathToken, IonAuditSummary)> = Vec::new();
    let mut i: usize = 0;
    while i < siblings.len()
        invariant
            0 <= i <= siblings@.len(),
            out@.map_values(|e: (IonAuditPathToken, IonAuditSummary)| (e.0, e.1.summary_view()))
                == sibling_summaries(edge_views(siblings@.take(i as int)), private_text, crate::ion_audit::table_names(symbols), private_names),
        decreases siblings@.len() - i,
    {
        let ghost before = out@;
        let s = ion_audit_value_summary(siblings[i].1, private_text, symbols, private_names);
        out.push((siblings[i].0, s));
        proof {
            let f = |e: (IonAuditPathToken, IonAuditSummary)| (e.0, e.1.summary_view());
            let g = |e: (IonAuditPathToken, IonModel)| (e.0, summary_spec(e.1, private_text, crate::ion_audit::table_names(symbols), private_names));
            assert(siblings@.take(i + 1) =~= siblings@.take(i as int).push(siblings@[i as int]));
            assert(out@ =~= before.push(out@[out@.len() - 1]));
            assert(out@.map_values(f) =~= before.map_values(f).push(f(out@[out@.len() - 1])));
            assert(edge_views(siblings@.take(i + 1)) =~= edge_views(siblings@.take(i as int)).push((siblings@[i as int].0, siblings@[i as int].1@)));
            assert(edge_views(siblings@.take(i + 1)).map_values(g) =~= edge_views(siblings@.take(i as int)).map_values(g).push(g((siblings@[i as int].0, siblings@[i as int].1@))));
            assert(out@.map_values(|e: (IonAuditPathToken, IonAuditSummary)| (e.0, e.1.summary_view()))
                =~= sibling_summaries(edge_views(siblings@.take(i + 1)), private_text, crate::ion_audit::table_names(symbols), private_names));
        }
        i = i + 1;
    }
    assert(siblings@.take(siblings@.len() as int) =~= siblings@);
    out
}

pub open spec fn context_views(s: Seq<PathContextEntry>) -> Seq<PathContextView> {
    s.map_values(|e: PathContextEntry| e@)
}

pub open spec fn after_prefix(a: Seq<PathContextView>, rest: Option<Seq<PathContextView>>) -> Option<Seq<PathContextView>> {
    match rest {
        Some(x) => Some(a + x),
        None => None,
    }
}

fn copy_tokens(v: &Vec<IonAuditPathToken>, n: usize) -> (r: Vec<IonAuditPathToken>)
    requires
        n <= v@.len(),
    ensures
        r@ == v@.take(n as int),
{
    let mut out: Vec<IonAuditPathToken> = Vec::new();
    let mut i: usize = 0;
    while i < n
        invariant
            0 <= i <= n <= v@.len(),
            out@ == v@.take(i as int),
        decreases n - i,
    {
        out.push(v[i]);
        assert(out@ =~= v@.take(i + 1));
        i = i + 1;
    }
    out
}

fn adjacent_style_events(value: &IonValue, path: &Vec<IonAuditPathToken>) -> (r: Option<AdjacentStyleEvents>)
    ensures
        adjacent_ok(r, value@, path@),
{
    let n = path.len();
    if n == 0 || path[n - 1] != IonAuditPathToken::Field(FIELD_CONTENT_STRING_REFERENCE) {
        return None;
    }
    let prefix = copy_tokens(path, n - 1);
    assert(prefix@ =~= path@.drop_last());
    let parent = match resolve_ion_audit_path(value, prefix.as_slice()) {
        Some(p) => p,
        None => return None,
    };
    match struct_get(parent, FIELD_TEXT_STYLE_EVENTS) {
        Some(list) => match list_items(list) {
            Some(items) => {
                proof {
                    crate::ion::lemma_models_index(items@);
                }
                Some(AdjacentStyleEvents { item_count: items.len(), events: summarize_text_style_events(items) })
            },
            None => None,
        },
        None => None,
    }
}

fn target_summaries(
    target: &IonValue,
    source_path: &str,
    tables: &std::collections::BTreeMap<u32, Vec<String>>,
    private_text: bool,
) -> (r: (Option<StringReferenceSummary>, Option<ResolvedTextSummary>))
    ensures
        match target@ {
            IonModel::String(_) => r.0 is None,
            _ => if ends_with(source_path@, "$145"@) {
                r.0 matches Some(sr) && sr.resolved == (resolve_ref_spec(target@, crate::native::table_views(tables@)) is Some)
                    && sr.table_symbol_id == (match symbol_field(target@, FIELD_FRAGMENT_ID) {
                        Some(t) => if t <= u32::MAX { Some(t as u32) } else { None },
                        None => None,
                    })
                    && sr.string_index == (match int_field(target@, FIELD_FRAGMENT_STRING_INDEX) {
                        Some(i) => if 0 <= i <= usize::MAX { Some(i as usize) } else { None },
                        None => None,
                    })
            } else {
                r.0 is None
            },
        },
        match target_text(target@, source_path@, crate::native::table_views(tables@)) {
            Some(t) => r.1 matches Some(s) && s.unicode_scalar_count == t.len()
                && s.sha256_raw_audit_only@ == hex_spec(sha256(vstd::utf8::encode_utf8(t)))
                && opt_string_view(s.private_text) == (if private_text { Some(t) } else { None }),
            None => r.1 is None,
        },
{
    let path_chars = chars_of(source_path);
    let (text, reference): (Option<&str>, Option<StringReferenceSummary>) = match target {
        IonValue::String(t) => (Some(t.as_str()), None),
        _ => if chars_end_with(&path_chars, "$145") {
            let table = match symbol_field_of(target, FIELD_FRAGMENT_ID) {
                Some(t) => if t <= 0xffff_ffff { Some(t as u32) } else { None },
                None => None,
            };
            let index = match int_field_of(target, FIELD_FRAGMENT_STRING_INDEX) {
                Some(i) => if i >= 0 && (i as u64) <= (usize::MAX as u64) { Some(i as usize) } else { None },
                None => None,
            };
            let text = resolve_string_reference(target, tables);
            let resolved = text.is_some();
            (text, Some(StringReferenceSummary { table_symbol_id: table, string_index: index, resolved }))
        } else {
            (None, None)
        },
    };
    let summary = match text {
        Some(t) => {
            let d = sha256_digest(t.as_bytes());
            Some(ResolvedTextSummary {
                unicode_scalar_count: chars_of(t).len(),
                sha256_raw_audit_only: hex_lower(d.as_slice()),
                private_text: if private_text { Some(owned(t)) } else { None },
            })
        },
        None => None,
    };
    (reference, summary)
}

fn path_missing(source_path: &str, alias: &str) -> (r: AmazonKfxError)
    ensures
        r@ == KfxErrorView::Semantic(path_missing_message(source_path@, alias@)),
{
    let a = join2("source path ", source_path);
    let b = join2(a.as_str(), " does not resolve in fragment ");
    let c = join2(b.as_str(), alias);
    proof {
        reveal_strlit("source path ");
        reveal_strlit(" does not resolve in fragment ");
        assert(c@ =~= path_missing_message(source_path@, alias@));
    }
    AmazonKfxError::Semantic(c)
}

/// The number of names a symbol table holds is the size of its view's domain.
proof fn lemma_name_count(t: &crate::symbols::SymbolTable)
    ensures
        vstd::std_specs::btree::spec_btree_map_len(&t.names) == t@.names.dom().len(),
{
    broadcast use vstd::std_specs::btree::group_btree_axioms, vstd::laws_cmp::group_laws_cmp;
    assert(vstd::std_specs::btree::key_obeys_cmp_spec::<u64>());
    assert(t@.names.dom() =~= t.names@.dom());
}


proof fn lemma_first_event_prefix(s: Seq<EventView>, j: int, alias: Seq<char>, path: Seq<char>)
    requires
        0 <= j <= s.len(),
        first_event_at(s.take(j), alias, path) is Some,
    ensures
        first_event_at(s, alias, path) == first_event_at(s.take(j), alias, path),
    decreases s.len() - j,
{
    if j < s.len() {
        assert(s.take(j + 1).drop_last() =~= s.take(j));
        lemma_first_event_prefix(s, j + 1, alias, path);
    } else {
        assert(s.take(j) =~= s);
    }
}

/// The first traced event of fragment `alias` at `path`, as the text-event
/// audit reports it.
fn matching_event(
    model: &NativeModel,
    resources: &ContentResources,
    alias: &str,
    path: &str,
    include_private_text: bool,
) -> (r: Option<KfxTextEvent>)
    ensures
        event_field_ok(r, model@, *resources, alias@, path@, include_private_text),
{
    let trace = trace_content(model, resources, include_private_text);
    let mut events = trace.capture.events;
    let ghost ev = event_views(events@);
    let mut i: usize = 0;
    proof {
        assert(ev.take(0) =~= Seq::<EventView>::empty());
    }
    while i < events.len()
        invariant
            0 <= i <= events@.len(),
            ev == event_views(events@),
            ev == trace_spec(model@, *resources, content_order_spec(model@)).events,
            first_event_at(ev.take(i as int), alias@, path@) is None,
        decreases events@.len() - i,
    {
        proof {
            assert(ev.take(i + 1).drop_last() =~= ev.take(i as int));
            assert(ev.take(i + 1).last() == ev[i as int]);
            assert(ev[i as int] == event_view(events@[i as int]));
        }
        if str_eq(events[i].source_fragment.as_str(), alias) && str_eq(events[i].source_path.as_str(), path) {
            proof {
                lemma_first_event_prefix(ev, i + 1, alias@, path@);
            }
            let ghost before = events@;
            let e = events.remove(i);
            assert(e == before[i as int]);
            let record = text_event_record(i, e, include_private_text);
            return Some(record);
        }
        i = i + 1;
    }
    assert(ev.take(i as int) =~= ev);
    None
}

/// Inspects the Ion source of one text event without dumping the book:
/// the value at `source_path` in the content fragment `fragment_alias`
/// (`Fnnn`, in reading order), the values along the path with their
/// nearby siblings, and the text it shows, all by length and digest; the
/// text and symbol names only when asked for.
#[verifier::rlimit(60)]
pub fn audit_text_fragment_source(
    bytes: &[u8],
    fragment_alias: &str,
    source_path: &str,
    include_private_text: bool,
    include_private_symbol_names: bool,
    resources: &ContentResources,
) -> (r: Result<KfxTextFragmentSourceAudit, AmazonKfxError>)
    ensures
        text_source_result_ok(r, bytes@, *resources, fragment_alias@, source_path@, include_private_text, include_private_symbol_names),
{
    if !(bytes.len() >= 4 && bytes[0] == 0x43 && bytes[1] == 0x4f && bytes[2] == 0x4e && bytes[3] == 0x54) {
        return Err(AmazonKfxError::InvalidHeader(owned("KFX source dump requires an Amazon CONT KFX input")));
    }
    let number = match parse_alias(fragment_alias) {
        Some(n) => n,
        None => return Err(AmazonKfxError::Semantic(owned("fragment must be an anonymous text-event alias such as F006"))),
    };
    let path = match parse_ion_audit_path(source_path) {
        Ok(p) => p,
        Err(e) => return Err(e),
    };
    let model = match parse_native(bytes, ParseMode::Compatible) {
        Ok(m) => m,
        Err(e) => return Err(e),
    };
    assert(model.drm_detected == model@.drm_detected);
    if model.drm_detected {
        return Err(AmazonKfxError::ProtectedContent);
    }
    let ghost m = model@;
    proof {
        assert(fragment_views(model.fragments@) == m.fragments);
        assert(container_views(model.containers@) == m.containers);
    }
    let stories = story_fragment_list(&model);
    if number > stories.len() {
        let a = join2("content fragment alias ", fragment_alias);
        let b = join2(a.as_str(), " was not found");
        proof {
            reveal_strlit("content fragment alias ");
            reveal_strlit(" was not found");
            assert(b@ =~= alias_missing_message(fragment_alias@));
        }
        return Err(AmazonKfxError::Semantic(b));
    }
    let index = stories[number - 1];
    let fragment = &model.fragments[index];
    assert(m.fragments[index as int] == fragment@);
    let target = match resolve_ion_audit_path(&fragment.value, path.as_slice()) {
        Some(t) => t,
        None => return Err(path_missing(source_path, fragment_alias)),
    };
    let has_container = fragment.container_index < model.containers.len();
    let symbols: Option<&crate::symbols::SymbolTable> = if has_container {
        Some(&model.containers[fragment.container_index].symbols)
    } else {
        None
    };
    let ghost names = container_names(m.containers, fragment@);
    proof {
        if has_container {
            assert(m.containers[fragment.container_index as int] == model.containers@[fragment.container_index as int]@);
        }
        assert(crate::ion_audit::table_names(symbols) == names);
    }
    let mut context: Vec<PathContextEntry> = Vec::new();
    let mut done: Vec<IonAuditPathToken> = Vec::new();
    let mut current: &IonValue = &fragment.value;
    let mut k: usize = 0;
    let mut failed = false;
    proof {
        assert(path@.skip(0) =~= path@);
        assert(path@.take(0) =~= Seq::<IonAuditPathToken>::empty());
        assert(context_views(context@) =~= Seq::<PathContextView>::empty());
        assert(after_prefix(Seq::empty(), path_context(fragment@.value, path@, Seq::empty(), include_private_text, names, include_private_symbol_names))
            =~= path_context(fragment@.value, path@, Seq::empty(), include_private_text, names, include_private_symbol_names));
    }
    while k < path.len() && !failed
        invariant
            0 <= k <= path@.len(),
            failed ==> path_context(current@, path@.skip(k as int), path@.take(k as int), include_private_text, names, include_private_symbol_names) is None,
            done@ == path@.take(k as int),
            crate::ion_audit::table_names(symbols) == names,
            path_context(fragment@.value, path@, Seq::empty(), include_private_text, names, include_private_symbol_names)
                == after_prefix(context_views(context@), path_context(current@, path@.skip(k as int), path@.take(k as int), include_private_text, names, include_private_symbol_names)),
        decreases path@.len() - k, (if failed { 0int } else { 1int }),
    {
        let ghost rest = path@.skip(k as int);
        assert(rest[0] == path@[k as int]);
        assert(rest.drop_first() =~= path@.skip(k + 1));
        assert(path@.take(k as int).push(path@[k as int]) =~= path@.take(k + 1));
        let step = ion_audit_step(current, path[k]);
        match step {
            None => {
                failed = true;
            },
            Some((child, siblings)) => {
                let entry = PathContextEntry {
                    parent_path: format_ion_audit_path(done.as_slice()),
                    parent: ion_audit_value_summary(current, include_private_text, symbols, include_private_symbol_names),
                    selected_edge: path[k],
                    sibling_summaries: summarize_siblings(&siblings, include_private_text, symbols, include_private_symbol_names),
                };
                let ghost before = context@;
                context.push(entry);
                proof {
                    assert(context_views(context@) =~= context_views(before).push(context@[context@.len() - 1]@));
                    let a = context_views(before);
                    let x = context@[context@.len() - 1]@;
                    let tail = path_context(child@, path@.skip(k + 1), path@.take(k + 1), include_private_text, names, include_private_symbol_names);
                    if tail is Some {
                        assert(a + (seq![x] + tail->Some_0) =~= a.push(x) + tail->Some_0);
                    }
                }
                done.push(path[k]);
                current = child;
                k = k + 1;
            },
        }
    }
    if failed {
        return Err(path_missing(source_path, fragment_alias));
    }
    proof {
        assert(path@.skip(k as int) =~= Seq::<IonAuditPathToken>::empty());
        assert(context_views(context@) + Seq::<PathContextView>::empty() =~= context_views(context@));
    }
    let adjacent = adjacent_style_events(&fragment.value, &path);
    let (string_reference, resolved_text) = target_summaries(target, source_path, &model.string_tables, include_private_text);
    let locations = ordered_content_trace_locations(&model);
    let ghost lv = location_map_view(locations@);
    let (section_id, story_id) = match locations.get(&index) {
        Some(l) => (crate::source_strings::copy_opt(&l.section_id), crate::source_strings::copy_opt(&l.story_id)),
        None => (None, None),
    };
    let basis = if story_id.is_some() {
        owned("reading_order_to_section_to_story_reference")
    } else {
        owned("content_fragment_without_proven_story_reference")
    };
    let (container_symbol_count, content_symbol_id) = match symbols {
        Some(t) => {
            let count = t.names.len();
            proof {
                lemma_name_count(t);
            }
            (count, symbol_field_of(&fragment.value, FIELD_CONTENT_FRAGMENT_SYMBOL))
        },
        None => (0, None),
    };
    let event = matching_event(&model, resources, fragment_alias, source_path, include_private_text);
    let digest = sha256_digest(bytes);
    let audit = KfxTextFragmentSourceAudit {
        schema_version: 1,
        input_sha256_audit_only: hex_lower(digest.as_slice()),
        fragment_alias: owned(fragment_alias),
        entity_id: fragment.entity_id,
        fragment_type: fragment.fragment_type,
        container_symbol_count,
        content_symbol_id,
        section_id,
        story_id,
        relationship_basis: basis,
        source_path: owned(source_path),
        path_context: context,
        target: ion_audit_value_summary(target, include_private_text, symbols, include_private_symbol_names),
        adjacent_style_events: adjacent,
        string_reference,
        resolved_text,
        private_text_included: include_private_text,
        private_symbol_names_included: include_private_symbol_names,
        event,
    };
    proof {
        let f = m.fragments[index as int];
        let locs = trace_locations_spec(m);
        assert(audit.input_sha256_audit_only@ == hex_spec(sha256(bytes@)));
        assert(audit.container_symbol_count == (match names { Some(n) => n.dom().len(), None => 0 }));
        assert(audit.content_symbol_id == (match names { Some(_) => symbol_field(f.value, FIELD_CONTENT_FRAGMENT_SYMBOL), None => None }));
        assert(opt_string_view(audit.section_id) == (if locs.contains_key(index) { locs[index].section_id } else { None }));
        assert(audit.path_context@.map_values(|e: PathContextEntry| e@) == context_views(context@));
        assert(audit.target.summary_view() == summary_spec(target@, include_private_text, names, include_private_symbol_names));
        assert(adjacent_ok(audit.adjacent_style_events, f.value, path@));
        assert(target_ok(audit, target@, source_path@, m.string_tables, include_private_text));
    }
    Ok(audit)
}

} // verus!
